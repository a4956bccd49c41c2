use nom_tracable::info::FOLD_LIMIT;
use nom_tracable::{HasTracableInfo, TracableInfo, TracableStorage};

#[test]
fn new_info_shows_everything() {
    let info = TracableInfo::new();
    assert!(info.enabled);
    assert_eq!(info.depth, 0);
    assert!(info.forward && info.backward && info.custom && info.color);
    assert_eq!(info.count_width, 10);
    assert_eq!(info.parser_width, 96);
    assert_eq!(info.fragment_width, 96);
    assert_eq!(info.fold, 0);
    assert_eq!(TracableInfo::default(), info);
}

#[test]
fn setters_change_one_field() {
    let info = TracableInfo::new();
    assert_eq!(info.forward(false), TracableInfo { forward: false, ..info });
    assert_eq!(info.backward(false), TracableInfo { backward: false, ..info });
    assert_eq!(info.custom(false), TracableInfo { custom: false, ..info });
    assert_eq!(info.color(false), TracableInfo { color: false, ..info });
    assert_eq!(info.count_width(3), TracableInfo { count_width: 3, ..info });
    assert_eq!(info.parser_width(64), TracableInfo { parser_width: 64, ..info });
    assert_eq!(info.fragment_width(20), TracableInfo { fragment_width: 20, ..info });
    assert_eq!(info.depth(4), TracableInfo { depth: 4, ..info });
    assert_eq!(info.forward(false).forward(true), info);
}

#[test]
fn without_tracing_setters_do_nothing() {
    let mut storage = TracableStorage::new();
    let info = TracableInfo::disabled();
    assert!(!info.enabled);
    assert_eq!(info, TracableInfo { enabled: false, ..TracableInfo::new() });
    assert_eq!(info.forward(false), info);
    assert_eq!(info.backward(false), info);
    assert_eq!(info.custom(false), info);
    assert_eq!(info.color(false), info);
    assert_eq!(info.count_width(3), info);
    assert_eq!(info.parser_width(64), info);
    assert_eq!(info.fragment_width(20), info);
    assert_eq!(info.depth(4), info);
    assert_eq!(info.fold(&mut storage, "term"), info);
    assert!(!info.folded(&mut storage, "term"));
    // the registry was not touched
    assert_eq!(storage.get_parser_index("other"), 0);
    // not even a mask that has the bit makes a parser folded
    let masked = TracableInfo { fold: 1, ..info };
    assert!(!masked.folded(&mut storage, "other"));
}

#[test]
fn fold_sets_the_bit_of_the_index() {
    let mut storage = TracableStorage::new();
    let info = TracableInfo::new().fold(&mut storage, "term");
    assert_eq!(info.fold, 1);
    let info = info.fold(&mut storage, "expr");
    assert_eq!(info.fold, 3);
    assert_eq!(info.fold(&mut storage, "term"), info);
    assert!(info.folded(&mut storage, "term"));
    assert!(info.folded(&mut storage, "expr"));
    assert!(!info.folded(&mut storage, "other"));
    assert_eq!(storage.get_parser_index("other"), 2);
}

#[test]
fn asking_whether_a_parser_is_folded_registers_it() {
    let mut storage = TracableStorage::new();
    let info = TracableInfo::new();
    assert!(!info.folded(&mut storage, "a"));
    assert!(!info.folded(&mut storage, "b"));
    let info = info.fold(&mut storage, "c");
    assert_eq!(info.fold, 4);
}

#[test]
fn names_beyond_the_limit_are_never_folded() {
    assert_eq!(FOLD_LIMIT, 64);
    let mut storage = TracableStorage::new();
    let mut info = TracableInfo::new();
    for i in 0..64 {
        info = info.fold(&mut storage, &format!("name{}", i));
    }
    assert_eq!(info.fold, u64::MAX);
    assert!(info.folded(&mut storage, "name0"));
    assert!(info.folded(&mut storage, "name63"));
    let same = info.fold(&mut storage, "name64");
    assert_eq!(same, info);
    assert_eq!(storage.get_parser_index("name64"), 64);
    assert!(!info.folded(&mut storage, "name64"));
    assert!(!info.folded(&mut storage, "name65"));

    let mut storage = TracableStorage::new();
    for i in 0..64 {
        storage.get_parser_index(&format!("name{}", i));
    }
    let info = TracableInfo::new();
    assert_eq!(info.fold(&mut storage, "late"), info);
    assert_eq!(info.fold(&mut storage, "name63").fold, 1u64 << 63);
    assert_eq!(info.fold(&mut storage, "name5").fold, 1u64 << 5);
}

#[test]
fn an_info_carries_itself() {
    let info = TracableInfo::new();
    let other = TracableInfo::new().color(false).depth(3);
    assert_eq!(info.get_tracable_info(), info);
    assert_eq!(info.set_tracable_info(other), other);
}
