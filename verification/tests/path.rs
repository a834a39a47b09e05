use std::cell::RefCell;

use patched_conics::path::{
    first_candidate, predict_path, step_crossing, walk_segment, Crossing, Segment, StepSample,
    MAX_SEGMENTS, STEPS,
};

fn sample(in_range: bool, outside_parent: bool, within: &[bool]) -> StepSample {
    StepSample { in_range, outside_parent, within: within.to_vec() }
}

fn quiet() -> StepSample {
    sample(true, false, &[false, false])
}

#[test]
fn constants_of_the_prediction() {
    assert_eq!(STEPS, 128);
    assert_eq!(MAX_SEGMENTS, 8);
}

#[test]
fn first_candidate_is_the_lowest_index_set() {
    assert_eq!(first_candidate(&vec![]), None);
    assert_eq!(first_candidate(&vec![false, false]), None);
    assert_eq!(first_candidate(&vec![true]), Some(0));
    assert_eq!(first_candidate(&vec![false, true, true]), Some(1));
    assert_eq!(first_candidate(&vec![false, false, false, true]), Some(3));
}

#[test]
fn increment_out_of_range_shows_no_crossing() {
    let s = sample(false, true, &[true, true]);
    assert_eq!(step_crossing(true, &s), None);
    assert_eq!(step_crossing(false, &s), None);
}

#[test]
fn captured_conic_shows_only_the_exit() {
    assert_eq!(step_crossing(true, &sample(true, true, &[true])), Some(Crossing::Exit));
    assert_eq!(step_crossing(true, &sample(true, false, &[true])), None);
}

#[test]
fn free_conic_shows_only_the_first_entry() {
    assert_eq!(
        step_crossing(false, &sample(true, true, &[false, true, true])),
        Some(Crossing::Entry { secondary: 1 })
    );
    assert_eq!(step_crossing(false, &sample(true, true, &[false, false])), None);
    assert_eq!(step_crossing(false, &sample(true, true, &[])), None);
}

#[test]
fn walk_without_crossing_covers_the_conic() {
    let probed = RefCell::new(Vec::new());
    let probe = |s: u8, n: usize| {
        probed.borrow_mut().push((s, n));
        quiet()
    };
    let seg = walk_segment(5u8, false, 0, &probe);
    assert_eq!(seg, Segment { state: 5, captured: false, depth: 0, steps: 128, end: None });
    let probed = probed.into_inner();
    assert_eq!(probed.len(), 128);
    for (n, p) in probed.iter().enumerate() {
        assert_eq!(*p, (5u8, n));
    }
}

#[test]
fn walk_stops_at_the_first_crossing() {
    let probed = RefCell::new(0usize);
    let probe = |_s: u8, n: usize| {
        *probed.borrow_mut() += 1;
        sample(true, false, &[n >= 40, n >= 17])
    };
    let seg = walk_segment(5u8, false, 3, &probe);
    assert_eq!(
        seg,
        Segment {
            state: 5,
            captured: false,
            depth: 3,
            steps: 18,
            end: Some(Crossing::Entry { secondary: 1 })
        }
    );
    assert_eq!(*probed.borrow(), 18);
}

#[test]
fn walk_passes_over_increments_out_of_range() {
    // the exit shows from increment 10 on, but increments below 30 are out of range
    let probe = |_s: u8, n: usize| sample(n >= 30, n >= 10, &[]);
    let seg = walk_segment(1u8, true, 0, &probe);
    assert_eq!(seg.steps, 31);
    assert_eq!(seg.end, Some(Crossing::Exit));
}

#[test]
fn walk_can_end_at_the_first_increment() {
    let probe = |_s: u8, _n: usize| sample(true, true, &[]);
    let seg = walk_segment(1u8, true, 0, &probe);
    assert_eq!(seg.steps, 1);
    assert_eq!(seg.end, Some(Crossing::Exit));
}

#[test]
fn quiet_conic_is_predicted_as_one_segment() {
    let path = predict_path(9u32, false, |_s: u32, _n: usize| quiet(), |s: u32, _n: usize, _c: Crossing| s + 1);
    assert_eq!(path, vec![Segment { state: 9, captured: false, depth: 0, steps: 128, end: None }]);
}

#[test]
fn prediction_follows_entry_and_exit() {
    // states: 0 is the conic about the planet, 1 the conic about the moon,
    // 2 the conic about the planet after the flyby
    let probe = |s: u32, n: usize| match s {
        0 => sample(true, false, &[false, n == 50]),
        1 => sample(true, n == 7, &[true, true]),
        _ => sample(true, true, &[false, false]),
    };
    let followed = RefCell::new(Vec::new());
    let follow = |s: u32, n: usize, c: Crossing| {
        followed.borrow_mut().push((s, n, c));
        s + 1
    };
    let path = predict_path(0u32, false, probe, follow);
    assert_eq!(
        path,
        vec![
            Segment { state: 0, captured: false, depth: 0, steps: 51, end: Some(Crossing::Entry { secondary: 1 }) },
            Segment { state: 1, captured: true, depth: 1, steps: 8, end: Some(Crossing::Exit) },
            Segment { state: 2, captured: false, depth: 2, steps: 128, end: None },
        ]
    );
    assert_eq!(
        followed.into_inner(),
        vec![(0, 50, Crossing::Entry { secondary: 1 }), (1, 7, Crossing::Exit)]
    );
}

#[test]
fn prediction_for_a_captured_body_starts_with_the_exit() {
    let probe = |s: u32, n: usize| match s {
        0 => sample(true, n == 3, &[true]),
        _ => sample(true, false, &[false]),
    };
    let path = predict_path(0u32, true, probe, |s: u32, _n: usize, _c: Crossing| s + 1);
    assert_eq!(path.len(), 2);
    assert_eq!(path[0], Segment { state: 0, captured: true, depth: 0, steps: 4, end: Some(Crossing::Exit) });
    assert_eq!(path[1], Segment { state: 1, captured: false, depth: 1, steps: 128, end: None });
}

#[test]
fn prediction_is_cut_at_the_segment_limit() {
    // every conic is left at its third increment
    let probe = |_s: u32, n: usize| sample(true, n == 2, &[n == 2]);
    let followed = RefCell::new(0usize);
    let follow = |s: u32, _n: usize, _c: Crossing| {
        *followed.borrow_mut() += 1;
        s + 10
    };
    let path = predict_path(0u32, false, probe, follow);
    assert_eq!(path.len(), 8);
    assert_eq!(*followed.borrow(), 7);
    for (i, seg) in path.iter().enumerate() {
        assert_eq!(seg.depth, i);
        assert_eq!(seg.state, 10 * i as u32);
        assert_eq!(seg.captured, i % 2 == 1);
        assert_eq!(seg.steps, 3);
        let expected = if i % 2 == 1 { Crossing::Exit } else { Crossing::Entry { secondary: 0 } };
        assert_eq!(seg.end, Some(expected));
    }
}

#[test]
fn segments_are_copied() {
    let seg = Segment { state: 1.5f64, captured: true, depth: 2, steps: 9, end: Some(Crossing::Exit) };
    let copy = seg;
    assert_eq!(seg.clone(), copy);
}
