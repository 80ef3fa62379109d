use brief::shortcode::{ArgType, ArgValue, Registry, ShortKindOpt};

#[test]
fn ref_is_a_builtin_inline_shortcode() {
    let reg = Registry::with_builtins();
    let sc = reg.get("ref").expect("@ref must be a built-in");
    assert!(matches!(sc.kind, ShortKindOpt::Inline));
    let title = sc.arguments.get("title").expect("title arg");
    assert!(title.required);
    assert_eq!(title.position, Some(1));
    assert!(matches!(title.ty, ArgType::String));
}

#[test]
fn dl_is_a_builtin_block_shortcode() {
    let reg = Registry::with_builtins();
    let sc = reg.get("dl").expect("@dl must be a built-in");
    assert!(matches!(sc.kind, ShortKindOpt::Block));
    assert!(sc.arguments.is_empty(), "@dl takes no arguments in v0.3");
}

#[test]
fn arg_value_labels_and_text() {
    assert_eq!(ArgValue::Int(3).type_label(), "int");
    assert_eq!(ArgValue::Str("a".to_string()).type_label(), "string");
    assert_eq!(ArgValue::Ident("b".to_string()).as_str(), Some("b"));
    assert_eq!(ArgValue::Array(vec![]).as_str(), None);
}
