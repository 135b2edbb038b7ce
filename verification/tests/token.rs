use sericum::token::{Keyword, Symbol};
use std::collections::HashSet;

#[test]
fn keywords_and_symbols_compare_and_hash_by_variant() {
    let k = Keyword::Return;
    let copy = k;
    assert_eq!(k, copy);
    assert_ne!(Keyword::If, Keyword::Else);
    assert_ne!(Symbol::Assign, Symbol::Eq);
    let set: HashSet<Symbol> = [Symbol::Inc, Symbol::Add, Symbol::Inc].into_iter().collect();
    assert_eq!(set.len(), 2);
    assert_eq!(format!("{:?} {:?}", Keyword::ConstExpr, Symbol::OpeningBoxBracket), "ConstExpr OpeningBoxBracket");
}
