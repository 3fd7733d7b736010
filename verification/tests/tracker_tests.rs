use pdrive::multipart::PartResult;
use pdrive::tracker::PartTracker;

fn pr(n: u32, tag: &str) -> PartResult {
    PartResult { part_number: n, etag: String::from(tag) }
}

#[test]
fn dispatch_is_bounded_and_in_file_order() {
    let mut t = PartTracker::new(3, 2);
    assert_eq!(t.start_next(), Some(1));
    assert_eq!(t.start_next(), Some(2));
    assert_eq!(t.start_next(), None);
    t.record(pr(1, "e1"));
    assert_eq!(t.start_next(), Some(3));
    assert_eq!(t.start_next(), None);
    assert!(!t.is_complete());
    t.record(pr(3, "e3"));
    t.record(pr(2, "e2"));
    assert!(t.is_complete());
}

#[test]
fn out_of_order_completion_keeps_part_numbers() {
    let mut t = PartTracker::new(3, 2);
    t.start_next();
    t.start_next();
    t.record(pr(2, "b"));
    t.start_next();
    t.record(pr(3, "c"));
    t.record(pr(1, "a"));
    assert!(t.is_complete());

    let collected: Vec<u32> = t.done.iter().map(|p| p.part_number).collect();
    assert_eq!(collected, vec![2, 3, 1]);

    let mut sorted: Vec<u32> = collected.clone();
    sorted.sort();
    assert_eq!(sorted, vec![1, 2, 3]);

    for p in &t.done {
        match p.part_number {
            1 => assert_eq!(p.etag, "a"),
            2 => assert_eq!(p.etag, "b"),
            3 => assert_eq!(p.etag, "c"),
            _ => panic!("part number out of range"),
        }
    }
}

#[test]
fn single_worker_runs_strictly_in_order() {
    let mut t = PartTracker::new(2, 1);
    assert_eq!(t.start_next(), Some(1));
    assert_eq!(t.start_next(), None);
    t.record(pr(1, "x"));
    assert_eq!(t.start_next(), Some(2));
    t.record(pr(2, "y"));
    assert!(t.is_complete());
    let collected: Vec<u32> = t.done.iter().map(|p| p.part_number).collect();
    assert_eq!(collected, vec![1, 2]);
}

#[test]
fn empty_transfer_is_complete_at_once() {
    let mut t = PartTracker::new(0, 2);
    assert_eq!(t.start_next(), None);
    assert!(t.is_complete());
    assert_eq!(t.done.len(), 0);
}
