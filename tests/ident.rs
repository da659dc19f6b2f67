use hvm_lang::{var_id_to_name, DefId, Name};

#[test]
fn transcode_round_trip() {
    for h in [0u32, 1, 2, 41, 1000, u32::MAX - 1] {
        let id = DefId(h);
        assert_eq!(id.to_internal(), h + 1);
        assert_eq!(DefId::from_internal(id.to_internal()), id);
    }
    assert_eq!(DefId::from_internal(1), DefId(0));
}

#[test]
fn index_names_are_base_26_least_significant_first() {
    assert_eq!(var_id_to_name(0), Name::new("a"));
    assert_eq!(var_id_to_name(25), Name::new("z"));
    assert_eq!(var_id_to_name(26), Name::new("ab"));
    assert_eq!(var_id_to_name(27), Name::new("bb"));
    assert_eq!(var_id_to_name(52), Name::new("ac"));
    assert_eq!(var_id_to_name(26 * 26), Name::new("aab"));
}

#[test]
fn name_text() {
    let n = Name::new("hello");
    assert_eq!(n.as_str(), "hello");
    assert_eq!(n.to_string(), "hello".to_string());
    assert!(n.same(&Name::new("hello")));
    assert!(!n.same(&Name::new("world")));
}
