use sericum::live_range::{LiveRange, LiveSegment};
use sericum::program_point::{ProgramPoint, ProgramPointBase, ProgramPoints};

fn points(places: &[(usize, usize)]) -> (ProgramPoints, Vec<ProgramPoint>) {
    let mut pps = ProgramPoints::new();
    let mut handles = vec![];
    for &(bb, idx) in places {
        handles.push(pps.new_program_point(ProgramPointBase::new(None, None, bb, idx)));
    }
    (pps, handles)
}

fn spans(pps: &ProgramPoints, r: &LiveRange) -> Vec<(usize, usize, usize, usize)> {
    r.segments
        .iter()
        .map(|s| (s.start.bb(pps), s.start.idx(pps), s.end.bb(pps), s.end.idx(pps)))
        .collect()
}

#[test]
fn touching_segments_coalesce_into_one() {
    let (pps, h) = points(&[(0, 0), (0, 4), (0, 10)]);
    let mut r = LiveRange::new_empty();
    r.add_segment(&pps, LiveSegment::new(h[0], h[1]));
    r.add_segment(&pps, LiveSegment::new(h[1], h[2]));
    assert_eq!(spans(&pps, &r), vec![(0, 0, 0, 10)]);
}

#[test]
fn touching_segments_do_not_interfere() {
    let (pps, h) = points(&[(0, 0), (0, 5), (0, 10)]);
    let a = LiveSegment::new(h[0], h[1]);
    let b = LiveSegment::new(h[1], h[2]);
    assert!(!a.interferes(&pps, &b));
    assert!(!b.interferes(&pps, &a));
}

#[test]
fn overlapping_segments_interfere() {
    let (pps, h) = points(&[(0, 0), (0, 6), (0, 5), (0, 10)]);
    let a = LiveSegment::new(h[0], h[1]);
    let b = LiveSegment::new(h[2], h[3]);
    assert!(a.interferes(&pps, &b));
    assert!(b.interferes(&pps, &a));
    let ra = LiveRange::new(vec![a]);
    let rb = LiveRange::new(vec![b]);
    assert!(ra.interferes(&pps, &rb));
}

#[test]
fn separate_segments_stay_sorted() {
    let (pps, h) = points(&[(0, 0), (0, 2), (0, 4), (0, 6), (1, 0), (1, 3)]);
    let mut r = LiveRange::new_empty();
    r.add_segment(&pps, LiveSegment::new(h[4], h[5]));
    r.add_segment(&pps, LiveSegment::new(h[0], h[1]));
    r.add_segment(&pps, LiveSegment::new(h[2], h[3]));
    assert_eq!(spans(&pps, &r), vec![(0, 0, 0, 2), (0, 4, 0, 6), (1, 0, 1, 3)]);
    r.add_segment(&pps, LiveSegment::new(h[1], h[4]));
    assert_eq!(spans(&pps, &r), vec![(0, 0, 1, 3)]);
}

#[test]
fn removal_splits_a_segment() {
    let (pps, h) = points(&[(0, 0), (0, 3), (0, 5), (0, 10)]);
    let mut r = LiveRange::new_empty();
    r.add_segment(&pps, LiveSegment::new(h[0], h[3]));
    r.remove_segment(&pps, &LiveSegment::new(h[1], h[2]));
    assert_eq!(spans(&pps, &r), vec![(0, 0, 0, 3), (0, 5, 0, 10)]);
}

#[test]
fn removal_spans_several_segments() {
    let (pps, h) = points(&[(0, 0), (0, 2), (0, 3), (0, 5), (0, 4), (0, 1), (0, 6), (0, 8), (0, 7)]);
    let mut r = LiveRange::new_empty();
    r.add_segment(&pps, LiveSegment::new(h[0], h[1]));
    r.add_segment(&pps, LiveSegment::new(h[2], h[3]));
    r.add_segment(&pps, LiveSegment::new(h[6], h[7]));
    r.remove_segment(&pps, &LiveSegment::new(h[5], h[8]));
    assert_eq!(spans(&pps, &r), vec![(0, 0, 0, 1), (0, 7, 0, 8)]);
    r.remove_segment(&pps, &LiveSegment::new(h[0], h[4]));
    assert_eq!(spans(&pps, &r), vec![(0, 7, 0, 8)]);
}

#[test]
fn unite_then_remove_restores_the_range() {
    let (pps, h) = points(&[(0, 0), (0, 5), (0, 10), (0, 12), (0, 20)]);
    let mut occupied = LiveRange::new_empty();
    occupied.add_segment(&pps, LiveSegment::new(h[0], h[1]));
    occupied.add_segment(&pps, LiveSegment::new(h[3], h[4]));
    let before = spans(&pps, &occupied);
    let v = LiveRange::new(vec![LiveSegment::new(h[1], h[2])]);
    occupied.unite_range(&pps, v.duplicate());
    assert_eq!(spans(&pps, &occupied), vec![(0, 0, 0, 10), (0, 12, 0, 20)]);
    occupied.remove_range(&pps, &v);
    assert_eq!(spans(&pps, &occupied), before);
}

#[test]
fn unused_range_lists_the_gaps() {
    let (pps, h) = points(&[(0, 0), (0, 4), (0, 8), (1, 0), (1, 16)]);
    let mut r = LiveRange::new_empty();
    r.add_segment(&pps, LiveSegment::new(h[1], h[2]));
    r.add_segment(&pps, LiveSegment::new(h[3], h[4]));
    let free = r.unused_range(&pps);
    assert_eq!(spans(&pps, &free), vec![(0, 0, 0, 4), (0, 8, 1, 0)]);
}

#[test]
fn start_and_end_points() {
    let (pps, h) = points(&[(0, 4), (0, 8), (1, 0), (1, 16)]);
    let mut r = LiveRange::new_empty();
    assert!(r.start_point(&pps).is_none());
    assert!(r.end_point(&pps).is_none());
    r.add_segment(&pps, LiveSegment::new(h[2], h[3]));
    r.add_segment(&pps, LiveSegment::new(h[0], h[1]));
    let s = r.start_point(&pps).unwrap();
    let e = r.end_point(&pps).unwrap();
    assert_eq!((s.bb(&pps), s.idx(&pps)), (0, 4));
    assert_eq!((e.bb(&pps), e.idx(&pps)), (1, 16));
    assert!(r.contains_point(&pps, &h[0]));
    assert!(!r.contains_point(&pps, &h[1]));
    r.adjust_end_to_start(&pps);
    assert_eq!(spans(&pps, &r), vec![(0, 4, 0, 4)]);
}
