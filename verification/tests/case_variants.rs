use reframe::param::{Param, ParamKind};

#[test]
fn expansion_yields_seven_variants() {
    let p = Param::new("a".to_string(), "Jumping Fox".to_string());
    let variants = p.expand_case_variants();
    assert_eq!(variants.len(), 7);
    let keys: Vec<&str> = variants.iter().map(|v| v.key.as_str()).collect();
    assert_eq!(
        keys,
        vec![
            "a_lower_case",
            "a_upper_case",
            "a_snake_case",
            "a_kebab_case",
            "a_camel_case",
            "a_pascal_case",
            "a_shout_snake_case"
        ]
    );
    let values: Vec<&str> = variants.iter().map(|v| v.value.as_deref().unwrap()).collect();
    assert_eq!(
        values,
        vec![
            "jumping fox",
            "JUMPING FOX",
            "jumping_fox",
            "jumping-fox",
            "jumpingFox",
            "JumpingFox",
            "JUMPING_FOX"
        ]
    );
    for v in &variants {
        assert!(v.derived);
        assert_eq!(v.kind, ParamKind::String);
        assert_eq!(v.default, None);
        assert_eq!(v.ifwith, None);
    }
}

#[test]
fn variant_with_given_texts() {
    let mut p = Param::new("db".to_string(), "x".to_string());
    p.ifwith = Some("with_db".to_string());
    p.ask = "Which?".to_string();
    p.options = vec!["x".to_string()];
    p.kind = ParamKind::Options;
    let v = p.variant_with(reframe::case::CaseStyle::Kebab, None, Some("given".to_string()));
    assert_eq!(v.key, "db_kebab_case");
    assert_eq!(v.value, Some("given".to_string()));
    assert_eq!(v.default, None);
    assert_eq!(v.ifwith, Some("with_db".to_string()));
    assert_eq!(v.ask, "");
    assert!(v.options.is_empty());
    assert_eq!(v.kind, ParamKind::String);
    assert!(v.derived);
}

#[test]
fn variants_keep_what_is_absent() {
    let mut p = Param::new("a".to_string(), "ignored".to_string());
    p.value = None;
    p.default = Some("Hello World".to_string());
    let v = p.derive_variant(reframe::case::CaseStyle::ShoutSnake);
    assert_eq!(v.value, None);
    assert_eq!(v.default, Some("HELLO_WORLD".to_string()));
}
