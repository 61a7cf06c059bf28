use eggviz::label::EggvizRewriteRuleLabel;

#[test]
fn label_texts() {
    assert_eq!(EggvizRewriteRuleLabel::Supplied("add_comm".to_string()).to_string(), "rwr:add_comm");
    assert_eq!(EggvizRewriteRuleLabel::Supplied(String::new()).to_string(), "rwr:");
    assert_eq!(EggvizRewriteRuleLabel::Indexed(0).to_string(), "rwr#0");
    assert_eq!(EggvizRewriteRuleLabel::Indexed(42).to_string(), "rwr#42");
}

#[test]
fn label_from_text() {
    assert!(EggvizRewriteRuleLabel::from_str("rwr:x").unwrap() == EggvizRewriteRuleLabel::Supplied("x".to_string()));
    assert!(EggvizRewriteRuleLabel::from_str("rwr:").unwrap() == EggvizRewriteRuleLabel::Supplied(String::new()));
    assert!(EggvizRewriteRuleLabel::from_str("rwr:#3").unwrap() == EggvizRewriteRuleLabel::Supplied("#3".to_string()));
    assert!(EggvizRewriteRuleLabel::from_str("rwr#3").unwrap() == EggvizRewriteRuleLabel::Indexed(3));
    assert!(EggvizRewriteRuleLabel::from_str("rwr#+3").unwrap() == EggvizRewriteRuleLabel::Indexed(3));
    assert!(EggvizRewriteRuleLabel::from_str("rwr#003").unwrap() == EggvizRewriteRuleLabel::Indexed(3));
}

#[test]
fn texts_that_are_no_label() {
    for s in ["", "rwr", "rwr#", "rwr#x", "rwr#-1", "rwr#1 ", "nonexistent", "rwr;x", "RWR:x", " rwr:x", "rwr#99999999999999999999999999"] {
        assert!(EggvizRewriteRuleLabel::from_str(s).is_err(), "{}", s);
    }
}

#[test]
fn label_round_trip() {
    let labels = vec![
        EggvizRewriteRuleLabel::Supplied("a b".to_string()),
        EggvizRewriteRuleLabel::Supplied("rwr#1".to_string()),
        EggvizRewriteRuleLabel::Indexed(0),
        EggvizRewriteRuleLabel::Indexed(usize::MAX),
    ];
    for l in labels {
        assert!(EggvizRewriteRuleLabel::from_str(&l.to_string()).unwrap() == l);
    }
}

#[test]
fn label_equality_and_clone() {
    let a = EggvizRewriteRuleLabel::Supplied("1".to_string());
    let b = EggvizRewriteRuleLabel::Indexed(1);
    assert!(a != b);
    assert!(a.clone() == a);
    assert!(b.clone() == b);
    assert!(EggvizRewriteRuleLabel::Indexed(2) != b);
}
