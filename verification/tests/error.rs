use eggviz::error::{EggvizProgramParseContext, EggvizProgramParseError, EggvizRuntimeError, ParseError};
use eggviz::label::EggvizRewriteRuleLabel;

#[test]
fn parse_error_without_context() {
    let e = EggvizProgramParseError::context_less("Empty expression.");
    assert_eq!(e.msg, "Empty expression.");
    assert!(e.context.is_none());
    assert_eq!(e.to_string(), "Empty expression.");
    let e = EggvizProgramParseError::context_less_owned("x".to_string());
    assert_eq!(e.msg, "x");
    assert!(e.context.is_none());
    let c = e.clone();
    assert_eq!(c.msg, "x");
}

#[test]
fn parse_error_clone_keeps_the_context() {
    let e = EggvizProgramParseError {
        msg: "m".to_string(),
        context: Some(EggvizProgramParseContext::RewriteRule {
            label: EggvizRewriteRuleLabel::Indexed(3),
            offset: 7,
        }),
    };
    match e.clone().context {
        Some(EggvizProgramParseContext::RewriteRule { label, offset }) => {
            assert!(label == EggvizRewriteRuleLabel::Indexed(3));
            assert_eq!(offset, 7);
        }
        _ => panic!("context lost"),
    }
    let p = EggvizProgramParseContext::Program { offset: 2 };
    assert!(matches!(p.clone(), EggvizProgramParseContext::Program { offset: 2 }));
}

#[test]
fn runtime_error_texts() {
    let e = EggvizRuntimeError::ParseError(EggvizProgramParseError::context_less("Empty expression."));
    assert_eq!(e.to_string(), "Parsing Error: Empty expression.");
    let e = EggvizRuntimeError::DuplicateRewriteRuleLabel(EggvizRewriteRuleLabel::Supplied("r".to_string()));
    assert_eq!(e.to_string(), "Error: Rewrite rule `rwr:r` was duplicated.");
    let e = EggvizRuntimeError::DuplicateRewriteRuleLabel(EggvizRewriteRuleLabel::Indexed(2));
    assert_eq!(e.to_string(), "Error: Rewrite rule `rwr#2` was duplicated.");
    let e = EggvizRuntimeError::UnknownRewriteRuleLabel(EggvizRewriteRuleLabel::Indexed(2));
    assert_eq!(e.to_string(), "Error: Rewrite rule `rwr#2` is not defined.");
    let e = EggvizRuntimeError::ExtractionCycle(12);
    assert_eq!(e.to_string(), "Error: Class 12 contains itself.");
    let e = EggvizRuntimeError::InternalError("boom".to_string());
    assert_eq!(e.to_string(), "Internal Error: boom");
    assert_eq!(e.clone().to_string(), "Internal Error: boom");
}

#[test]
fn a_plain_parse_error_is_its_message() {
    assert_eq!(ParseError::new("Empty expression.").to_string(), "Empty expression.");
    assert_eq!(ParseError::new_owned(String::from("Unmatched '(' token.")).to_string(), "Unmatched '(' token.");
    assert_eq!(ParseError::new("").to_string(), "");
}
