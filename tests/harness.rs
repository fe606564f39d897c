use inference_bench::harness::{Action, Event, Harness, Summary};

fn run(entries: &[(bool, u64)]) -> (Vec<Action>, Harness) {
    let mut h = Harness::new();
    let mut actions = Vec::new();
    for &(is_file, elapsed) in entries {
        let a = h.step(Event::Entry { is_file });
        actions.push(a);
        if a == Action::Infer {
            actions.push(h.step(Event::Inferred { elapsed_nanos: elapsed }));
        }
    }
    actions.push(h.step(Event::Exhausted));
    (actions, h)
}

#[test]
fn empty_directory_reports_no_images() {
    let (actions, h) = run(&[]);
    assert_eq!(actions, vec![Action::Report(Summary::NoImages)]);
    assert_eq!(h.processed(), 0);
    assert_eq!(h.summary(), Summary::NoImages);
}

#[test]
fn each_regular_file_is_timed_once() {
    let (actions, h) = run(&[(true, 100), (false, 0), (true, 300)]);
    assert_eq!(
        actions,
        vec![
            Action::Infer,
            Action::Next,
            Action::Next,
            Action::Infer,
            Action::Next,
            Action::Report(Summary::Average { count: 2, mean_nanos: 200 }),
        ]
    );
    assert_eq!(h.processed(), 2);
}

#[test]
fn same_listing_gives_same_count_whatever_the_timings() {
    let (a, _) = run(&[(true, 5), (true, 7), (false, 0), (true, 9)]);
    let (b, _) = run(&[(true, 50_000), (true, 1), (false, 3), (true, 2)]);
    let count = |actions: &Vec<Action>| match actions.last() {
        Some(Action::Report(Summary::Average { count, .. })) => *count,
        _ => 0,
    };
    assert_eq!(count(&a), 3);
    assert_eq!(count(&b), 3);
    assert_eq!(a.iter().filter(|x| **x == Action::Infer).count(), 3);
}

#[test]
fn fixed_duration_gives_that_mean() {
    let d = 1_500_000_000u64;
    let (actions, _) = run(&[(true, d), (true, d), (true, d), (true, d), (true, d)]);
    assert_eq!(
        actions.last(),
        Some(&Action::Report(Summary::Average { count: 5, mean_nanos: d }))
    );
}

#[test]
fn mean_is_total_over_count_rounded_down() {
    let (actions, _) = run(&[(true, 1), (true, 2)]);
    assert_eq!(
        actions.last(),
        Some(&Action::Report(Summary::Average { count: 2, mean_nanos: 1 }))
    );
    let (actions, _) = run(&[(true, 10), (true, 20), (true, 33)]);
    assert_eq!(
        actions.last(),
        Some(&Action::Report(Summary::Average { count: 3, mean_nanos: 21 }))
    );
}

#[test]
fn largest_durations_do_not_overflow() {
    let (actions, _) = run(&[(true, u64::MAX), (true, u64::MAX), (true, u64::MAX)]);
    assert_eq!(
        actions.last(),
        Some(&Action::Report(Summary::Average { count: 3, mean_nanos: u64::MAX }))
    );
}

#[test]
fn non_file_entries_are_skipped() {
    let mut h = Harness::new();
    assert_eq!(h.step(Event::Entry { is_file: false }), Action::Next);
    assert_eq!(h.processed(), 0);
    assert_eq!(h.step(Event::Entry { is_file: true }), Action::Infer);
    assert_eq!(h.step(Event::Inferred { elapsed_nanos: 40 }), Action::Next);
    assert_eq!(h.step(Event::Entry { is_file: false }), Action::Next);
    assert_eq!(h.processed(), 1);
    assert_eq!(h.summary(), Summary::Average { count: 1, mean_nanos: 40 });
    let (only_dirs, _) = run(&[(false, 1), (false, 2)]);
    assert_eq!(
        only_dirs,
        vec![Action::Next, Action::Next, Action::Report(Summary::NoImages)]
    );
}
