use hvm_lang::{DefId, DefNames, Name};

#[test]
fn insert_then_lookup_round_trip() {
    let mut names = DefNames::new();
    let a = names.insert(Name::new("a"));
    let b = names.insert(Name::new("b"));
    assert_eq!(a, DefId(0));
    assert_eq!(b, DefId(1));
    assert_eq!(names.def_id(&Name::new("a")), Some(a));
    assert_eq!(names.name(&a), Some(&Name::new("a")));
    assert_eq!(names.def_id(names.name(&b).unwrap()), Some(b));
    assert_eq!(names.name(&names.def_id(&Name::new("b")).unwrap()), Some(&Name::new("b")));
    assert!(names.contains_name(&Name::new("a")));
    assert!(names.contains_def_id(&b));
    assert!(!names.contains_name(&Name::new("c")));
    assert!(!names.contains_def_id(&DefId(2)));
}

#[test]
fn reinsert_shadows_older_handle() {
    let mut names = DefNames::new();
    let first = names.insert(Name::new("f"));
    let second = names.insert(Name::new("f"));
    assert_ne!(first, second);
    assert_eq!(names.def_id(&Name::new("f")), Some(second));
    assert_eq!(names.name(&first), Some(&Name::new("f")));
    assert_eq!(names.name(&second), Some(&Name::new("f")));
}

#[test]
fn remove_then_lookup_is_absent() {
    let mut names = DefNames::new();
    let a = names.insert(Name::new("a"));
    assert_eq!(names.remove(a), Some(Name::new("a")));
    assert_eq!(names.name(&a), None);
    assert_eq!(names.def_id(&Name::new("a")), None);
    assert_eq!(names.remove(a), None);
    assert_eq!(names.remove(DefId(7)), None);
}

#[test]
fn handles_are_never_reused() {
    let mut names = DefNames::new();
    let a = names.insert(Name::new("a"));
    names.remove(a);
    let b = names.insert(Name::new("a"));
    assert_eq!(b, DefId(1));
    assert_eq!(names.def_id(&Name::new("a")), Some(b));
}

#[test]
fn removing_stale_handle_drops_name_lookup() {
    let mut names = DefNames::new();
    let first = names.insert(Name::new("f"));
    let second = names.insert(Name::new("f"));
    assert_eq!(names.remove(first), Some(Name::new("f")));
    assert_eq!(names.def_id(&Name::new("f")), None);
    assert_eq!(names.name(&second), Some(&Name::new("f")));
}

#[test]
fn lists_names_and_ids() {
    let mut names = DefNames::new();
    let a = names.insert(Name::new("a"));
    let b = names.insert(Name::new("b"));
    let c = names.insert(Name::new("c"));
    names.remove(b);
    assert_eq!(names.def_ids(), vec![a, c]);
    let mut listed = names.names();
    listed.sort();
    assert_eq!(listed, vec![Name::new("a"), Name::new("c")]);
}

#[test]
fn entry_point_names() {
    assert_eq!(DefNames::ENTRY_POINT, "main");
    assert_eq!(DefNames::HVM1_ENTRY_POINT, "Main");
}
