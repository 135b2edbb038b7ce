//! The selector driver: applies a set of patterns to a node, rewrites what
//! the names of a match capture before the match itself, remembers every
//! replacement, and descends into the operands of a node that no pattern
//! rewrites.

use crate::fx::{map_get, map_insert};
use crate::node::{Node, NodeId};
use crate::pat_match::{
    lemma_match_binds_within, lemma_reachable_within, match_pat, pat_valid, Captures,
    MatchContext, NameMap, Pat,
};
use crate::register::RegistersInfo;
use rustc_hash::FxHashMap;
use vstd::prelude::*;

verus! {

/// For each node that a selection pass has replaced, its replacement.
pub type ReplacedNodeMap = FxHashMap<NodeId, NodeId>;

/// A rewrite rule: what a pattern carries to say how its match is rewritten.
pub trait Generate {
    /// What the rule makes of the captures `m` in the pool `nodes` with the
    /// registers `regs`: the pool and the registers afterwards, and the node
    /// that it hands back. A rule that says nothing of itself may make
    /// anything.
    open spec fn produces(
        &self,
        m: Captures,
        nodes: Seq<Node>,
        regs: RegistersInfo,
        nodes_after: Seq<Node>,
        regs_after: RegistersInfo,
        r: Option<NodeId>,
    ) -> bool {
        true
    }

    /// Builds the replacement of a match from the nodes that its names
    /// captured, and returns it; `None` where the rule does not apply to
    /// these captures, in which case the pool is left as it is. A rule may add
    /// nodes and registers and may change nodes, as long as every operand of
    /// every node stays a node of the pool.
    fn generate(&self, m: &NameMap, ctx: &mut MatchContext) -> (r: Option<NodeId>)
        requires
            old(ctx).arena.wf(),
            m.wf(),
            forall|i: int| 0 <= i < m@.len() ==> (#[trigger] m@[i]).1 < old(ctx).arena@.len(),
        ensures
            final(ctx).arena.wf(),
            old(ctx).arena@.len() <= final(ctx).arena@.len(),
            r is Some ==> r->0 < final(ctx).arena@.len(),
            r is None ==> final(ctx).arena@ == old(ctx).arena@ && final(ctx).regs == old(ctx).regs,
            self.produces(
                m@,
                old(ctx).arena@,
                old(ctx).regs,
                final(ctx).arena@,
                final(ctx).regs,
                r,
            ),
    ;
}

/// Every replacement that `replaced` records is a node of a pool of `len`
/// nodes.
pub open spec fn replacements_within(replaced: Map<NodeId, NodeId>, len: nat) -> bool {
    forall|k: NodeId| replaced.contains_key(k) ==> (#[trigger] replaced[k]) < len
}

/// `pat` matches the node `id` and asks for a rewrite.
pub open spec fn fires<G>(nodes: Seq<Node>, regs: RegistersInfo, id: NodeId, pat: Pat<G>) -> bool {
    match_pat(nodes, regs, id, pat, Seq::empty()).0 matches Some(Some(_))
}

/// No pattern of `pats` rewrites the node `id`.
pub open spec fn unmatched<G>(
    nodes: Seq<Node>,
    regs: RegistersInfo,
    pats: Seq<Pat<G>>,
    id: NodeId,
) -> bool {
    forall|k: int| 0 <= k < pats.len() ==> !fires(nodes, regs, id, #[trigger] pats[k])
}

/// The DAG below `id` is fully selected, down to `depth` levels at most: no
/// node of it has a replacement on record, no pattern rewrites one, and
/// every operand is a node of the pool.
pub open spec fn settled<G>(
    nodes: Seq<Node>,
    regs: RegistersInfo,
    pats: Seq<Pat<G>>,
    replaced: Map<NodeId, NodeId>,
    id: NodeId,
    depth: nat,
) -> bool
    decreases depth,
{
    &&& depth > 0
    &&& id < nodes.len()
    &&& !replaced.contains_key(id)
    &&& unmatched(nodes, regs, pats, id)
    &&& forall|j: int|
        0 <= j < nodes[id as int].operands().len() ==> settled(
            nodes,
            regs,
            pats,
            replaced,
            #[trigger] nodes[id as int].operands()[j],
            (depth - 1) as nat,
        )
}

/// The node that takes the place of the operand `x`: the result of the last
/// of the slots `0..=j` of `args` that holds `x`, and `x` itself where none
/// does.
pub open spec fn replacement_of(args: Seq<NodeId>, results: Seq<NodeId>, x: NodeId, j: int) -> NodeId
    decreases j + 1,
{
    if j < 0 || j >= args.len() || j >= results.len() {
        x
    } else if args[j] == x {
        results[j]
    } else {
        replacement_of(args, results, x, j - 1)
    }
}

/// The operands `cur` with each one replaced by what selection made of it.
pub open spec fn rewired_operands(args: Seq<NodeId>, results: Seq<NodeId>, cur: Seq<NodeId>) -> Seq<
    NodeId,
> {
    Seq::new(cur.len(), |i: int| replacement_of(args, results, cur[i], args.len() - 1))
}

proof fn lemma_replacement_of(
    args: Seq<NodeId>,
    results: Seq<NodeId>,
    x: NodeId,
    j: int,
    len: nat,
)
    requires
        args.len() == results.len(),
        j < args.len(),
        x < len,
        forall|k: int| 0 <= k < results.len() ==> (#[trigger] results[k]) < len,
    ensures
        replacement_of(args, results, x, j) < len,
        (forall|k: int| 0 <= k < results.len() ==> (#[trigger] results[k]) == args[k])
            ==> replacement_of(args, results, x, j) == x,
    decreases j + 1,
{
    if j >= 0 && args[j] != x {
        lemma_replacement_of(args, results, x, j - 1, len);
    }
}

proof fn lemma_submap_trans(a: Map<NodeId, NodeId>, b: Map<NodeId, NodeId>, c: Map<NodeId, NodeId>)
    requires
        a.submap_of(b),
        b.submap_of(c),
    ensures
        a.submap_of(c),
{
    assert forall|k: NodeId| #[trigger] a.dom().contains(k) implies c.dom().contains(k) && a[k]
        == c[k] by {
        assert(b.dom().contains(k));
    }
}

/// The state of a selection pass: the pool, the registers, and the
/// replacements on record.
pub struct Selection {
    pub nodes: Seq<Node>,
    pub regs: RegistersInfo,
    pub replaced: Map<NodeId, NodeId>,
}

/// The state made of a pool, registers and replacements.
pub open spec fn selection(
    nodes: Seq<Node>,
    regs: RegistersInfo,
    replaced: Map<NodeId, NodeId>,
) -> Selection {
    Selection { nodes, regs, replaced }
}

/// The state `z` is the state `a` with the node `id` made to refer to the
/// operands `args`; where these are the operands that it has, nothing
/// changes.
pub open spec fn rewired_state(a: Selection, id: NodeId, args: Seq<NodeId>, z: Selection) -> bool {
    &&& z.regs == a.regs
    &&& z.replaced == a.replaced
    &&& if args == a.nodes[id as int].operands() {
        z.nodes == a.nodes
    } else {
        &&& z.nodes.len() == a.nodes.len()
        &&& forall|i: int| 0 <= i < a.nodes.len() && i != id ==> #[trigger] z.nodes[i] == a.nodes[i]
        &&& a.nodes[id as int].rewired(z.nodes[id as int], args, a.nodes[id as int].successor())
    }
}

/// A result in the state `s` is a node of `s`.
pub open spec fn outcome(s: Selection, r: Option<NodeId>) -> bool {
    r matches Some(x) ==> x < s.nodes.len()
}

/// Captures that were selected without running out of budget name nodes of
/// the state `s`.
pub open spec fn captures_within(s: Selection, m: Captures, ok: bool) -> bool {
    ok ==> forall|i: int| 0 <= i < m.len() ==> (#[trigger] m[i]).1 < s.nodes.len()
}

/// Selecting the node `id` in the state `a` with the budget `budget` can
/// end in the state `z` with the result `r`: with the replacement on record,
/// if there is one; with nothing where the budget is spent; and otherwise
/// with what trying the patterns in order ends in.
pub open spec fn selects<G: Generate>(
    pats: Seq<Pat<G>>,
    a: Selection,
    id: NodeId,
    budget: nat,
    z: Selection,
    r: Option<NodeId>,
) -> bool
    decreases budget, 3int, 0int, 0int,
{
    if a.replaced.contains_key(id) {
        r == Some(a.replaced[id]) && z == a
    } else if budget == 0 {
        r is None && z == a
    } else {
        tries(pats, a, id, budget, 0, z, r)
    }
}

/// Trying the patterns from `k` on: the first pattern that matches and
/// asks for a rewrite has its captures selected and its rule applied; where
/// the rule hands a node back, a node other than `id` is put on record as
/// the replacement of `id`, and the node is selected in turn; where the rule
/// does not apply, the next pattern is tried. Where no pattern is left, the
/// operands of `id` are selected and the result is `id`.
pub open spec fn tries<G: Generate>(
    pats: Seq<Pat<G>>,
    a: Selection,
    id: NodeId,
    budget: nat,
    k: int,
    z: Selection,
    r: Option<NodeId>,
) -> bool
    decreases budget, 2int, pats.len() - k, 1int,
{
    if budget == 0 || k < 0 {
        false
    } else if k >= pats.len() {
        operands_selected(
            pats,
            a,
            id,
            a.nodes[id as int].operands(),
            0,
            Seq::empty(),
            (budget - 1) as nat,
            z,
            r is Some,
        ) && (r is Some ==> r == Some(id))
    } else {
        let out = match_pat(a.nodes, a.regs, id, pats[k], Seq::empty());
        match out.0 {
            Some(Some(g)) => exists|s1: Selection, m1: Captures, ok: bool|
                #[trigger] captures_within(s1, m1, ok) && captures_selected(
                    pats,
                    a,
                    id,
                    budget,
                    out.1,
                    0,
                    s1,
                    m1,
                    ok,
                ) && rewritten(
                    pats,
                    s1,
                    m1,
                    ok,
                    g,
                    id,
                    budget,
                    k,
                    z,
                    r,
                ),
            _ => tries(pats, a, id, budget, k + 1, z, r),
        }
    }
}

/// What follows the selection of the captures of the pattern `k`: nothing
/// where the budget ran out on a capture; otherwise the rule `g` is applied
/// to the captures.
pub open spec fn rewritten<G: Generate>(
    pats: Seq<Pat<G>>,
    s1: Selection,
    m1: Captures,
    ok: bool,
    g: G,
    id: NodeId,
    budget: nat,
    k: int,
    z: Selection,
    r: Option<NodeId>,
) -> bool
    decreases budget, 2int, pats.len() - k, 0int,
{
    if budget == 0 || k < 0 || k >= pats.len() {
        false
    } else if !ok {
        r is None && z == s1
    } else {
        exists|nodes: Seq<Node>, regs: RegistersInfo, made: Option<NodeId>|
            (#[trigger] g.produces(m1, s1.nodes, s1.regs, nodes, regs, made)) && match made {
                Some(new_id) => selects(
                    pats,
                    Selection {
                        nodes,
                        regs,
                        replaced: if new_id != id {
                            s1.replaced.insert(id, new_id)
                        } else {
                            s1.replaced
                        },
                    },
                    new_id,
                    (budget - 1) as nat,
                    z,
                    r,
                ),
                None => tries(
                    pats,
                    Selection { nodes, regs, replaced: s1.replaced },
                    id,
                    budget,
                    k + 1,
                    z,
                    r,
                ),
            }
    }
}

/// Selecting the captures `m` from the binding `j` on, in order: a capture
/// of `id` itself stays as it is; any other is selected and set to the
/// result. The outcome is the state `s1` and the captures `m1`; `ok` says
/// that the budget did not run out.
pub open spec fn captures_selected<G: Generate>(
    pats: Seq<Pat<G>>,
    a: Selection,
    id: NodeId,
    budget: nat,
    m: Captures,
    j: int,
    s1: Selection,
    m1: Captures,
    ok: bool,
) -> bool
    decreases budget, 1int, m.len() - j, 0int,
{
    if budget == 0 || j < 0 {
        false
    } else if j >= m.len() {
        s1 == a && m1 == m && ok
    } else if m[j].1 == id {
        captures_selected(pats, a, id, budget, m, j + 1, s1, m1, ok)
    } else {
        exists|sa: Selection, ra: Option<NodeId>|
            #[trigger] outcome(sa, ra) && selects(pats, a, m[j].1, (budget - 1) as nat, sa, ra)
                && match ra {
                None => !ok && s1 == sa && m1 == m,
                Some(x) => captures_selected(
                    pats,
                    sa,
                    id,
                    budget,
                    m.update(j, (m[j].0, x)),
                    j + 1,
                    s1,
                    m1,
                    ok,
                ),
            }
    }
}

/// Selecting the operands `args` of the node `id` from the slot `j` on, in
/// order, with the results `results` of the slots before: when every operand
/// is selected, the node is made to refer to the results. `done` says that
/// the budget did not run out.
pub open spec fn operands_selected<G: Generate>(
    pats: Seq<Pat<G>>,
    a: Selection,
    id: NodeId,
    args: Seq<NodeId>,
    j: int,
    results: Seq<NodeId>,
    budget: nat,
    z: Selection,
    done: bool,
) -> bool
    decreases budget, 4int, args.len() - j, 0int,
{
    if j < 0 {
        false
    } else if j >= args.len() {
        done && rewired_state(
            a,
            id,
            rewired_operands(args, results, a.nodes[id as int].operands()),
            z,
        )
    } else {
        exists|sa: Selection, ra: Option<NodeId>|
            #[trigger] outcome(sa, ra) && selects(pats, a, args[j], budget, sa, ra) && match ra {
                None => !done && z == sa,
                Some(x) => operands_selected(
                    pats,
                    sa,
                    id,
                    args,
                    j + 1,
                    results.push(x),
                    budget,
                    z,
                    done,
                ),
            }
    }
}

/// What takes the place of the operand `x`.
fn replacement(args: &Vec<NodeId>, results: &Vec<NodeId>, x: NodeId) -> (r: NodeId)
    requires
        args@.len() == results@.len(),
    ensures
        r == replacement_of(args@, results@, x, args@.len() - 1),
{
    let mut j: usize = args.len();
    while j > 0
        invariant
            args@.len() == results@.len(),
            j <= args@.len(),
            replacement_of(args@, results@, x, args@.len() - 1) == replacement_of(
                args@,
                results@,
                x,
                j - 1,
            ),
        decreases j,
    {
        j -= 1;
        if args[j] == x {
            return results[j];
        }
    }
    x
}

/// Selects the operands of the node `inst_id` and makes the node refer to
/// the results. The result is `false` where the budget ran out.
fn operand_select<G: Generate + Copy>(
    replaced: &mut ReplacedNodeMap,
    ctx: &mut MatchContext,
    inst_id: NodeId,
    pats: &Vec<Pat<G>>,
    budget: usize,
) -> (done: bool)
    requires
        old(ctx).arena.wf(),
        inst_id < old(ctx).arena@.len(),
        forall|k: int| 0 <= k < pats@.len() ==> pat_valid(#[trigger] pats@[k]),
        replacements_within(old(replaced)@, old(ctx).arena@.len()),
    ensures
        final(ctx).arena.wf(),
        old(ctx).arena@.len() <= final(ctx).arena@.len(),
        replacements_within(final(replaced)@, final(ctx).arena@.len()),
        old(replaced)@.submap_of(final(replaced)@),
        (forall|j: int|
            0 <= j < old(ctx).arena@[inst_id as int].operands().len() ==> settled(
                old(ctx).arena@,
                old(ctx).regs,
                pats@,
                old(replaced)@,
                #[trigger] old(ctx).arena@[inst_id as int].operands()[j],
                budget as nat,
            )) ==> done && final(ctx).arena@ == old(ctx).arena@ && final(ctx).regs == old(ctx).regs
            && final(replaced)@ == old(replaced)@,
        operands_selected(
            pats@,
            selection(old(ctx).arena@, old(ctx).regs, old(replaced)@),
            inst_id,
            old(ctx).arena@[inst_id as int].operands(),
            0,
            Seq::empty(),
            budget as nat,
            selection(final(ctx).arena@, final(ctx).regs, final(replaced)@),
            done,
        ),
    decreases budget, 2int,
{
    let args: Vec<NodeId> = ctx.arena.node(inst_id).args();
    let ghost quiet = forall|j: int|
        0 <= j < old(ctx).arena@[inst_id as int].operands().len() ==> settled(
            old(ctx).arena@,
            old(ctx).regs,
            pats@,
            old(replaced)@,
            #[trigger] old(ctx).arena@[inst_id as int].operands()[j],
            budget as nat,
        );
    let ghost s0 = selection(ctx.arena@, ctx.regs, replaced@);
    let mut results: Vec<NodeId> = Vec::new();
    let mut i: usize = 0;
    proof {
        assert(results@ =~= Seq::<NodeId>::empty());
    }
    while i < args.len()
        invariant
            s0 == selection(old(ctx).arena@, old(ctx).regs, old(replaced)@),
            forall|z: Selection, d: bool| #[trigger]
                operands_selected(
                    pats@,
                    selection(ctx.arena@, ctx.regs, replaced@),
                    inst_id,
                    args@,
                    i as int,
                    results@,
                    budget as nat,
                    z,
                    d,
                ) ==> operands_selected(
                    pats@,
                    s0,
                    inst_id,
                    args@,
                    0,
                    Seq::empty(),
                    budget as nat,
                    z,
                    d,
                ),
            ctx.arena.wf(),
            inst_id < old(ctx).arena@.len(),
            old(ctx).arena@.len() <= ctx.arena@.len(),
            args@ == old(ctx).arena@[inst_id as int].operands(),
            forall|k: int| 0 <= k < args@.len() ==> (#[trigger] args@[k]) < old(ctx).arena@.len(),
            forall|k: int| 0 <= k < pats@.len() ==> pat_valid(#[trigger] pats@[k]),
            replacements_within(replaced@, ctx.arena@.len()),
            old(replaced)@.submap_of(replaced@),
            i <= args@.len(),
            results@.len() == i,
            forall|k: int| 0 <= k < i ==> (#[trigger] results@[k]) < ctx.arena@.len(),
            quiet == (forall|j: int|
                0 <= j < old(ctx).arena@[inst_id as int].operands().len() ==> settled(
                    old(ctx).arena@,
                    old(ctx).regs,
                    pats@,
                    old(replaced)@,
                    #[trigger] old(ctx).arena@[inst_id as int].operands()[j],
                    budget as nat,
                )),
            quiet ==> ctx.arena@ == old(ctx).arena@ && ctx.regs == old(ctx).regs && replaced@
                == old(replaced)@ && (forall|k: int|
                0 <= k < i ==> (#[trigger] results@[k]) == args@[k]),
        decreases args@.len() - i,
    {
        let ghost before = replaced@;
        proof {
            if quiet {
                assert(settled(
                    old(ctx).arena@,
                    old(ctx).regs,
                    pats@,
                    old(replaced)@,
                    old(ctx).arena@[inst_id as int].operands()[i as int],
                    budget as nat,
                ));
            }
        }
        let ghost la = selection(ctx.arena@, ctx.regs, replaced@);
        let ghost got = results@;
        let selected = inst_select(replaced, ctx, args[i], pats, budget);
        let ghost lb = selection(ctx.arena@, ctx.regs, replaced@);
        proof {
            lemma_submap_trans(old(replaced)@, before, replaced@);
            assert(selects(pats@, la, args@[i as int], budget as nat, lb, selected));
            assert(outcome(lb, selected));
        }
        match selected {
            Some(new_id) => {
                results.push(new_id);
                proof {
                    assert forall|z: Selection, d: bool| #[trigger]
                        operands_selected(
                            pats@,
                            lb,
                            inst_id,
                            args@,
                            i + 1,
                            results@,
                            budget as nat,
                            z,
                            d,
                        ) implies operands_selected(
                        pats@,
                        s0,
                        inst_id,
                        args@,
                        0,
                        Seq::empty(),
                        budget as nat,
                        z,
                        d,
                    ) by {
                        assert(operands_selected(
                            pats@,
                            la,
                            inst_id,
                            args@,
                            i as int,
                            got,
                            budget as nat,
                            z,
                            d,
                        ));
                    }
                }
            },
            None => {
                proof {
                    assert(operands_selected(
                        pats@,
                        la,
                        inst_id,
                        args@,
                        i as int,
                        got,
                        budget as nat,
                        lb,
                        false,
                    ));
                }
                return false;
            },
        }
        i += 1;
    }
    let ghost s1 = selection(ctx.arena@, ctx.regs, replaced@);
    let cur: Vec<NodeId> = ctx.arena.node(inst_id).args();
    let mut new_args: Vec<NodeId> = Vec::new();
    let mut changed = false;
    let mut k: usize = 0;
    proof {
        assert(new_args@ =~= rewired_operands(args@, results@, cur@).take(0));
        assert(new_args@ =~= cur@.take(0));
    }
    while k < cur.len()
        invariant
            ctx.arena.wf(),
            inst_id < ctx.arena@.len(),
            cur@ == ctx.arena@[inst_id as int].operands(),
            args@.len() == results@.len(),
            k <= cur@.len(),
            new_args@ == rewired_operands(args@, results@, cur@).take(k as int),
            forall|j: int| 0 <= j < results@.len() ==> (#[trigger] results@[j]) < ctx.arena@.len(),
            forall|j: int| 0 <= j < k ==> (#[trigger] new_args@[j]) < ctx.arena@.len(),
            !changed ==> new_args@ == cur@.take(k as int),
            changed ==> exists|q: int| 0 <= q < k && new_args@[q] != cur@[q],
            (forall|j: int| 0 <= j < results@.len() ==> (#[trigger] results@[j]) == args@[j])
                ==> !changed,
        decreases cur@.len() - k,
    {
        let x = replacement(&args, &results, cur[k]);
        proof {
            assert(ctx.arena@[inst_id as int].operands()[k as int] < ctx.arena@.len());
            lemma_replacement_of(
                args@,
                results@,
                cur@[k as int],
                args@.len() - 1,
                ctx.arena@.len(),
            );
            assert(rewired_operands(args@, results@, cur@).take(k + 1) =~= rewired_operands(
                args@,
                results@,
                cur@,
            ).take(k as int).push(x));
            assert(cur@.take(k + 1) =~= cur@.take(k as int).push(cur@[k as int]));
        }
        let ghost was = new_args@;
        let ghost was_changed = changed;
        if x != cur[k] {
            changed = true;
        }
        new_args.push(x);
        proof {
            if was_changed {
                let q = choose|q: int| 0 <= q < k && was[q] != cur@[q];
                assert(new_args@[q] != cur@[q]);
            } else if changed {
                assert(new_args@[k as int] != cur@[k as int]);
            }
        }
        k += 1;
    }
    proof {
        assert(rewired_operands(args@, results@, cur@).take(cur@.len() as int)
            =~= rewired_operands(args@, results@, cur@));
        assert(cur@.take(cur@.len() as int) =~= cur@);
        if changed {
            let q = choose|q: int| 0 <= q < k && new_args@[q] != cur@[q];
            assert(new_args@ != cur@);
        }
    }
    let ghost wanted = new_args@;
    if changed {
        let node = ctx.arena.node(inst_id);
        let next = node.next();
        let rewired = node.rewire(new_args, next);
        let ghost before = ctx.arena@;
        ctx.arena.set(inst_id, rewired);
        proof {
            assert forall|i: int, k: int|
                0 <= i < ctx.arena@.len() && 0 <= k < ctx.arena@[i].operands().len() implies (
            #[trigger] ctx.arena@[i].operands()[k]) < ctx.arena@.len() by {
                if i != inst_id {
                    assert(ctx.arena@[i] == before[i]);
                    assert(before[i].operands()[k] < before.len());
                }
            }
        }
    }
    proof {
        let z = selection(ctx.arena@, ctx.regs, replaced@);
        assert(rewired_state(s1, inst_id, wanted, z));
        assert(operands_selected(
            pats@,
            s1,
            inst_id,
            args@,
            args@.len() as int,
            results@,
            budget as nat,
            z,
            true,
        ));
    }
    true
}

/// Selects the node `id`: the replacement on record, if there is one;
/// otherwise the outcome of the first pattern that matches and asks for a
/// rewrite, selected again; otherwise `id` itself, with its operands
/// selected. Before a rewrite, every node that the match captured is
/// selected, but for `id` itself, and the capture is set to the result. A
/// replacement that differs from `id` is put on record.
///
/// `budget` bounds the depth of the selection; the result is `None` where it
/// ran out.
pub fn inst_select<G: Generate + Copy>(
    replaced: &mut ReplacedNodeMap,
    ctx: &mut MatchContext,
    id: NodeId,
    pats: &Vec<Pat<G>>,
    budget: usize,
) -> (r: Option<NodeId>)
    requires
        old(ctx).arena.wf(),
        id < old(ctx).arena@.len(),
        forall|k: int| 0 <= k < pats@.len() ==> pat_valid(#[trigger] pats@[k]),
        replacements_within(old(replaced)@, old(ctx).arena@.len()),
    ensures
        final(ctx).arena.wf(),
        old(ctx).arena@.len() <= final(ctx).arena@.len(),
        replacements_within(final(replaced)@, final(ctx).arena@.len()),
        old(replaced)@.submap_of(final(replaced)@),
        r is Some ==> r->0 < final(ctx).arena@.len(),
        old(replaced)@.contains_key(id) ==> r == Some(old(replaced)@[id]) && final(ctx).arena@
            == old(ctx).arena@ && final(ctx).regs == old(ctx).regs && final(replaced)@ == old(replaced)@,
        !old(replaced)@.contains_key(id) && budget == 0 ==> r is None,
        !old(replaced)@.contains_key(id) && unmatched(old(ctx).arena@, old(ctx).regs, pats@, id)
            ==> r is None || r == Some(id),
        settled(old(ctx).arena@, old(ctx).regs, pats@, old(replaced)@, id, budget as nat) ==> r
            == Some(id) && final(ctx).arena@ == old(ctx).arena@ && final(ctx).regs == old(ctx).regs && final(replaced)@ == old(replaced)@,
        selects(
            pats@,
            selection(old(ctx).arena@, old(ctx).regs, old(replaced)@),
            id,
            budget as nat,
            selection(final(ctx).arena@, final(ctx).regs, final(replaced)@),
            r,
        ),
    decreases budget, 1int,
{
    let ghost s0 = selection(ctx.arena@, ctx.regs, replaced@);
    match map_get(replaced, id) {
        Some(x) => {
            return Some(*x);
        },
        None => {},
    }
    if budget == 0 {
        return None;
    }
    let ghost quiet = settled(
        old(ctx).arena@,
        old(ctx).regs,
        pats@,
        old(replaced)@,
        id,
        budget as nat,
    );
    let ghost calm = unmatched(old(ctx).arena@, old(ctx).regs, pats@, id);
    let mut k: usize = 0;
    while k < pats.len()
        invariant
            s0 == selection(old(ctx).arena@, old(ctx).regs, old(replaced)@),
            forall|z: Selection, r: Option<NodeId>| #[trigger]
                tries(
                    pats@,
                    selection(ctx.arena@, ctx.regs, replaced@),
                    id,
                    budget as nat,
                    k as int,
                    z,
                    r,
                ) ==> selects(pats@, s0, id, budget as nat, z, r),
            ctx.arena.wf(),
            id < old(ctx).arena@.len(),
            old(ctx).arena@.len() <= ctx.arena@.len(),
            forall|j: int| 0 <= j < pats@.len() ==> pat_valid(#[trigger] pats@[j]),
            replacements_within(replaced@, ctx.arena@.len()),
            old(replaced)@.submap_of(replaced@),
            budget > 0,
            !old(replaced)@.contains_key(id),
            k <= pats@.len(),
            quiet == settled(
                old(ctx).arena@,
                old(ctx).regs,
                pats@,
                old(replaced)@,
                id,
                budget as nat,
            ),
            calm == unmatched(old(ctx).arena@, old(ctx).regs, pats@, id),
            calm ==> ctx.arena@ == old(ctx).arena@ && ctx.regs == old(ctx).regs && replaced@
                == old(replaced)@,
        decreases pats@.len() - k,
    {
        let mut map = NameMap::new();
        proof {
            assert(map@ =~= Seq::empty());
        }
        let found = crate::pat_match::matches(ctx, id, &pats[k], &mut map);
        let ghost sk = selection(ctx.arena@, ctx.regs, replaced@);
        let ghost m0 = map@;
        proof {
            if calm {
                assert(!fires(old(ctx).arena@, old(ctx).regs, id, pats@[k as int]));
            }
            lemma_match_binds_within(ctx.arena@, ctx.regs, id, pats@[k as int], Seq::empty());
            assert forall|i: int| 0 <= i < map@.len() implies (#[trigger] map@[i]).1
                < ctx.arena@.len() by {
                lemma_reachable_within(ctx.arena@, id, map@[i].1);
            }
        }
        match found {
            Some(Some(gen)) => {
                let mut j: usize = 0;
                while j < map.len()
                    invariant
                        s0 == selection(old(ctx).arena@, old(ctx).regs, old(replaced)@),
                        k < pats@.len(),
                        match_pat(sk.nodes, sk.regs, id, pats@[k as int], Seq::empty()) == (
                            Some(Some(gen)),
                            m0,
                        ),
                        forall|z: Selection, r: Option<NodeId>| #[trigger]
                            tries(pats@, sk, id, budget as nat, k as int, z, r) ==> selects(
                                pats@,
                                s0,
                                id,
                                budget as nat,
                                z,
                                r,
                            ),
                        forall|s1: Selection, m1: Captures, ok: bool| #[trigger]
                            captures_selected(
                                pats@,
                                selection(ctx.arena@, ctx.regs, replaced@),
                                id,
                                budget as nat,
                                map@,
                                j as int,
                                s1,
                                m1,
                                ok,
                            ) ==> captures_selected(
                                pats@,
                                sk,
                                id,
                                budget as nat,
                                m0,
                                0,
                                s1,
                                m1,
                                ok,
                            ),
                        ctx.arena.wf(),
                        id < old(ctx).arena@.len(),
                        old(ctx).arena@.len() <= ctx.arena@.len(),
                        forall|j: int| 0 <= j < pats@.len() ==> pat_valid(#[trigger] pats@[j]),
                        replacements_within(replaced@, ctx.arena@.len()),
                        old(replaced)@.submap_of(replaced@),
                        budget > 0,
                        !calm,
                        calm == unmatched(old(ctx).arena@, old(ctx).regs, pats@, id),
                        quiet == settled(
                            old(ctx).arena@,
                            old(ctx).regs,
                            pats@,
                            old(replaced)@,
                            id,
                            budget as nat,
                        ),
                        !old(replaced)@.contains_key(id),
                        map.wf(),
                        j <= map@.len(),
                        forall|i: int|
                            0 <= i < map@.len() ==> (#[trigger] map@[i]).1 < ctx.arena@.len(),
                    decreases map@.len() - j,
                {
                    let named_id = map.id_at(j);
                    let ghost la = selection(ctx.arena@, ctx.regs, replaced@);
                    let ghost ma = map@;
                    if named_id != id {
                        let ghost before = replaced@;
                        let selected = inst_select(
                            replaced,
                            ctx,
                            named_id,
                            pats,
                            (budget - 1) as usize,
                        );
                        let ghost lb = selection(ctx.arena@, ctx.regs, replaced@);
                        proof {
                            lemma_submap_trans(old(replaced)@, before, replaced@);
                            assert(selects(
                                pats@,
                                la,
                                ma[j as int].1,
                                (budget - 1) as nat,
                                lb,
                                selected,
                            ));
                            assert(outcome(lb, selected));
                        }
                        match selected {
                            Some(x) => {
                                map.set_id_at(j, x);
                                proof {
                                    assert forall|s1: Selection, m1: Captures, ok: bool| #[trigger]
                                        captures_selected(
                                            pats@,
                                            lb,
                                            id,
                                            budget as nat,
                                            map@,
                                            j + 1,
                                            s1,
                                            m1,
                                            ok,
                                        ) implies captures_selected(
                                        pats@,
                                        sk,
                                        id,
                                        budget as nat,
                                        m0,
                                        0,
                                        s1,
                                        m1,
                                        ok,
                                    ) by {
                                        assert(captures_selected(
                                            pats@,
                                            la,
                                            id,
                                            budget as nat,
                                            ma,
                                            j as int,
                                            s1,
                                            m1,
                                            ok,
                                        ));
                                    }
                                }
                            },
                            None => {
                                proof {
                                    assert(captures_selected(
                                        pats@,
                                        la,
                                        id,
                                        budget as nat,
                                        ma,
                                        j as int,
                                        lb,
                                        ma,
                                        false,
                                    ));
                                    assert(captures_selected(
                                        pats@,
                                        sk,
                                        id,
                                        budget as nat,
                                        m0,
                                        0,
                                        lb,
                                        ma,
                                        false,
                                    ));
                                    assert(captures_within(lb, ma, false));
                                    assert(rewritten(
                                        pats@,
                                        lb,
                                        ma,
                                        false,
                                        gen,
                                        id,
                                        budget as nat,
                                        k as int,
                                        lb,
                                        None,
                                    ));
                                    assert(tries(pats@, sk, id, budget as nat, k as int, lb, None));
                                }
                                return None;
                            },
                        }
                    } else {
                        proof {
                            assert forall|s1: Selection, m1: Captures, ok: bool| #[trigger]
                                captures_selected(
                                    pats@,
                                    la,
                                    id,
                                    budget as nat,
                                    ma,
                                    j + 1,
                                    s1,
                                    m1,
                                    ok,
                                ) implies captures_selected(
                                pats@,
                                sk,
                                id,
                                budget as nat,
                                m0,
                                0,
                                s1,
                                m1,
                                ok,
                            ) by {
                                assert(captures_selected(
                                    pats@,
                                    la,
                                    id,
                                    budget as nat,
                                    ma,
                                    j as int,
                                    s1,
                                    m1,
                                    ok,
                                ));
                            }
                        }
                    }
                    j += 1;
                }
                let ghost se = selection(ctx.arena@, ctx.regs, replaced@);
                let ghost me = map@;
                proof {
                    assert(captures_selected(
                        pats@,
                        se,
                        id,
                        budget as nat,
                        me,
                        me.len() as int,
                        se,
                        me,
                        true,
                    ));
                    assert(captures_selected(pats@, sk, id, budget as nat, m0, 0, se, me, true));
                    assert(captures_within(se, me, true));
                }
                let made = gen.generate(&map, ctx);
                let ghost nodes2 = ctx.arena@;
                let ghost regs2 = ctx.regs;
                proof {
                    assert(gen.produces(me, se.nodes, se.regs, nodes2, regs2, made));
                }
                match made {
                    Some(new_id) => {
                        if id != new_id {
                            map_insert(replaced, id, new_id);
                        }
                        let ghost before = replaced@;
                        let ghost sb = selection(ctx.arena@, ctx.regs, replaced@);
                        let r = inst_select(replaced, ctx, new_id, pats, (budget - 1) as usize);
                        proof {
                            assert(old(replaced)@.submap_of(before));
                            lemma_submap_trans(old(replaced)@, before, replaced@);
                            let z = selection(ctx.arena@, ctx.regs, replaced@);
                            assert(sb == Selection {
                                nodes: nodes2,
                                regs: regs2,
                                replaced: if new_id != id {
                                    se.replaced.insert(id, new_id)
                                } else {
                                    se.replaced
                                },
                            });
                            assert(selects(pats@, sb, new_id, (budget - 1) as nat, z, r));
                            assert(rewritten(
                                pats@,
                                se,
                                me,
                                true,
                                gen,
                                id,
                                budget as nat,
                                k as int,
                                z,
                                r,
                            ));
                            assert(tries(pats@, sk, id, budget as nat, k as int, z, r));
                        }
                        return r;
                    },
                    None => {
                        proof {
                            let cur = selection(ctx.arena@, ctx.regs, replaced@);
                            assert(cur == Selection {
                                nodes: nodes2,
                                regs: regs2,
                                replaced: se.replaced,
                            });
                            assert forall|z: Selection, r: Option<NodeId>| #[trigger]
                                tries(pats@, cur, id, budget as nat, k + 1, z, r) implies selects(
                                pats@,
                                s0,
                                id,
                                budget as nat,
                                z,
                                r,
                            ) by {
                                assert(rewritten(
                                    pats@,
                                    se,
                                    me,
                                    true,
                                    gen,
                                    id,
                                    budget as nat,
                                    k as int,
                                    z,
                                    r,
                                ));
                                assert(tries(pats@, sk, id, budget as nat, k as int, z, r));
                            }
                        }
                    },
                }
            },
            _ => {
                proof {
                    assert forall|z: Selection, r: Option<NodeId>| #[trigger]
                        tries(pats@, sk, id, budget as nat, k + 1, z, r) implies selects(
                        pats@,
                        s0,
                        id,
                        budget as nat,
                        z,
                        r,
                    ) by {
                        assert(tries(pats@, sk, id, budget as nat, k as int, z, r));
                    }
                }
            },
        }
        k += 1;
    }
    let ghost before = replaced@;
    let ghost sl = selection(ctx.arena@, ctx.regs, replaced@);
    let done = operand_select(replaced, ctx, id, pats, (budget - 1) as usize);
    proof {
        lemma_submap_trans(old(replaced)@, before, replaced@);
        let z = selection(ctx.arena@, ctx.regs, replaced@);
        let r = if done {
            Some(id)
        } else {
            None
        };
        assert(tries(pats@, sl, id, budget as nat, pats@.len() as int, z, r));
    }
    if done {
        Some(id)
    } else {
        None
    }
}

} // verus!
