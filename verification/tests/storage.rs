use nom_tracable::frames::FrameTable;
use nom_tracable::{CountTable, TracableStorage};

#[test]
fn registry_counts_names_from_zero() {
    let mut s = TracableStorage::new();
    assert_eq!(s.get_parser_index("expr"), 0);
    assert_eq!(s.get_parser_index("term"), 1);
    assert_eq!(s.get_parser_index("expr"), 0);
    assert_eq!(s.get_parser_index(""), 2);
    assert_eq!(s.get_parser_index("term"), 1);
}

#[test]
fn registry_outlives_a_run() {
    let mut s = TracableStorage::new();
    assert_eq!(s.get_parser_index("expr"), 0);
    s.record_forward("expr", 0);
    s.init();
    assert_eq!(s.get_parser_index("term"), 1);
    assert_eq!(s.get_parser_index("expr"), 0);
}

#[test]
fn new_storage_is_empty() {
    let s = TracableStorage::new();
    assert_eq!(s.get_forward_count(), 0);
    assert_eq!(s.get_backward_count(), 0);
    assert_eq!(s.histogram_table().len(), 0);
    assert_eq!(s.cumulative_histogram_table().len(), 0);
    assert_eq!(s.get_cumulative("expr", 0), None);
    assert!(s.can_record_forward());
    assert!(!s.can_record_backward("expr", 0));
}

#[test]
fn forward_counts_the_call_and_opens_a_frame() {
    let mut s = TracableStorage::new();
    assert_eq!(s.record_forward("expr", 0), 1);
    assert_eq!(s.get_forward_count(), 1);
    assert_eq!(s.get_backward_count(), 0);
    assert_eq!(s.histogram_table().get("expr"), 1);
    assert_eq!(s.get_cumulative("expr", 0), Some(1));
    assert_eq!(s.get_cumulative("expr", 1), None);
    assert_eq!(s.get_cumulative("term", 0), None);

    assert_eq!(s.record_forward("term", 1), 2);
    assert_eq!(s.get_cumulative("expr", 0), Some(2));
    assert_eq!(s.get_cumulative("term", 1), Some(1));
    assert_eq!(s.histogram_table().get("expr"), 1);
    assert_eq!(s.histogram_table().get("term"), 1);
    assert_eq!(s.cumulative_histogram_table().len(), 0);
}

#[test]
fn backward_closes_the_frame_and_adds_its_count() {
    let mut s = TracableStorage::new();
    s.record_forward("expr", 0);
    s.record_forward("term", 1);
    assert!(s.can_record_backward("term", 1));
    assert!(!s.can_record_backward("term", 0));
    assert_eq!(s.record_backward("term", 1), 1);
    assert_eq!(s.get_cumulative("term", 1), None);
    assert_eq!(s.cumulative_histogram_table().get("term"), 1);
    assert!(!s.can_record_backward("term", 1));

    s.record_forward("term", 1);
    assert_eq!(s.get_cumulative("expr", 0), Some(3));
    assert_eq!(s.record_backward("term", 1), 2);
    assert_eq!(s.cumulative_histogram_table().get("term"), 2);
    assert_eq!(s.record_backward("expr", 0), 3);
    assert_eq!(s.cumulative_histogram_table().get("expr"), 3);
    assert_eq!(s.histogram_table().get("expr"), 1);
    assert_eq!(s.histogram_table().get("term"), 2);
    assert_eq!(s.get_forward_count(), 3);
    assert_eq!(s.get_backward_count(), 3);
}

#[test]
fn counts_never_fall_and_backward_stays_behind_forward() {
    let mut s = TracableStorage::new();
    let steps: [(bool, &str, usize); 8] = [
        (true, "a", 0),
        (true, "b", 1),
        (false, "b", 1),
        (true, "b", 1),
        (true, "c", 2),
        (false, "c", 2),
        (false, "b", 1),
        (false, "a", 0),
    ];
    let mut last = (0, 0);
    for (forward, name, depth) in steps {
        if forward {
            s.record_forward(name, depth);
        } else {
            assert!(s.can_record_backward(name, depth));
            s.record_backward(name, depth);
        }
        let now = (s.get_forward_count(), s.get_backward_count());
        assert!(now.0 >= last.0 && now.1 >= last.1);
        assert!(now.1 <= now.0);
        last = now;
    }
    assert_eq!(last, (4, 4));
    for name in ["a", "b", "c"] {
        assert!(s.cumulative_histogram_table().get(name) >= s.histogram_table().get(name));
    }
    // a holds all four calls, the two calls of b hold one and two, c holds itself
    assert_eq!(s.cumulative_histogram_table().get("a"), 4);
    assert_eq!(s.cumulative_histogram_table().get("b"), 3);
    assert_eq!(s.cumulative_histogram_table().get("c"), 1);
}

#[test]
fn init_clears_the_statistics() {
    let mut s = TracableStorage::new();
    s.record_forward("expr", 0);
    s.record_forward("term", 1);
    s.record_backward("term", 1);
    s.init();
    assert_eq!(s.get_forward_count(), 0);
    assert_eq!(s.get_backward_count(), 0);
    assert_eq!(s.histogram_table().len(), 0);
    assert_eq!(s.cumulative_histogram_table().len(), 0);
    assert_eq!(s.get_cumulative("expr", 0), None);
}

#[test]
fn a_frame_that_is_opened_again_counts_from_its_own_call() {
    let mut s = TracableStorage::new();
    s.record_forward("expr", 0);
    s.record_forward("term", 1);
    s.record_forward("expr", 0);
    assert_eq!(s.get_cumulative("expr", 0), Some(1));
    assert_eq!(s.get_cumulative("term", 1), Some(2));
    assert_eq!(s.histogram_table().get("expr"), 2);
}

#[test]
fn count_table_keeps_the_order_of_first_appearance() {
    let mut t = CountTable::new();
    t.add("b", 2);
    t.add("a", 1);
    t.add("b", 3);
    t.add("c", 0);
    assert_eq!(t.len(), 3);
    assert_eq!(t.name_at(0), "b");
    assert_eq!(t.count_at(0), 5);
    assert_eq!(t.name_at(1), "a");
    assert_eq!(t.count_at(1), 1);
    assert_eq!(t.name_at(2), "c");
    assert_eq!(t.count_at(2), 0);
    assert_eq!(t.get("a"), 1);
    assert_eq!(t.get("b"), 5);
    assert_eq!(t.get("d"), 0);
    t.clear();
    assert_eq!(t.len(), 0);
    assert_eq!(t.get("b"), 0);
}

#[test]
fn frame_table_opens_bumps_and_closes() {
    let mut t = FrameTable::new();
    assert_eq!(t.close("a", 0), None);
    t.open("a", 0);
    t.open("a", 1);
    t.open("b", 1);
    assert_eq!(t.len(), 3);
    assert_eq!(t.get("a", 0), Some(0));
    t.bump();
    t.bump();
    t.open("a", 1);
    assert_eq!(t.len(), 3);
    t.bump();
    assert_eq!(t.get("a", 0), Some(3));
    assert_eq!(t.get("a", 1), Some(1));
    assert_eq!(t.get("b", 1), Some(3));
    assert_eq!(t.get("b", 0), None);
    assert_eq!(t.close("a", 0), Some(3));
    assert_eq!(t.close("a", 0), None);
    assert_eq!(t.len(), 2);
    assert_eq!(t.get("a", 1), Some(1));
    t.clear();
    assert_eq!(t.len(), 0);
}
