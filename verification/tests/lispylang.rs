use eggviz::error::EggvizProgramParseError;
use eggviz::label::EggvizRewriteRuleLabel;
use eggviz::lispylang::{ArityChecker, Function, Parser, Program, RewriteRule, Term, Variable};
use eggviz::runtime::{EggvizProgram, EggvizRewriteRule};

fn parse(input: &str, program: bool) -> Result<Term, EggvizProgramParseError> {
    let mut checker = ArityChecker::new();
    Parser::parse(input, program, &mut checker)
}

fn message(input: &str, program: bool) -> String {
    match parse(input, program) {
        Ok(t) => panic!("parsed: {}", t.to_egg()),
        Err(e) => {
            assert!(e.context.is_none());
            e.msg
        }
    }
}

#[test]
fn variables_print_as_their_names() {
    assert_eq!(Variable::Concrete("x".to_string()).to_egg(), "x");
    assert_eq!(Variable::Generic("pa".to_string()).to_egg(), "?pa");
}

#[test]
fn terms_print_with_parentheses() {
    let x = || Term::Singleton(Variable::Concrete("x".to_string()));
    let p = Term::Singleton(Variable::Generic("p".to_string()));
    assert_eq!(x().to_egg(), "x");
    let inner = Term::Invocation(Function::new("g".to_string(), 0), vec![]);
    assert_eq!(inner.to_egg(), "(g)");
    let t = Term::Invocation(Function::new("f".to_string(), 3), vec![x(), inner, p]);
    assert_eq!(t.to_egg(), "(f x (g) ?p)");
}

#[test]
fn function_keeps_name_and_arity() {
    let f = Function::new("add".to_string(), 2);
    assert_eq!(f.name(), "add");
    assert_eq!(f.arity(), 2);
}

#[test]
fn parse_reads_terms() {
    assert_eq!(parse("x", true).unwrap().to_egg(), "x");
    assert_eq!(parse("  x\n", true).unwrap().to_egg(), "x");
    assert_eq!(parse("(add x (add y z))", true).unwrap().to_egg(), "(add x (add y z))");
    assert_eq!(parse("( add\tx(add y z) )", true).unwrap().to_egg(), "(add x (add y z))");
    assert_eq!(parse("(f)", true).unwrap().to_egg(), "(f)");
    assert_eq!(parse("(f(g)(h))", true).unwrap().to_egg(), "(f (g) (h))");
    assert_eq!(parse("(add pa pb)", false).unwrap().to_egg(), "(add ?pa ?pb)");
    assert_eq!(parse("p", false).unwrap().to_egg(), "?p");
}

#[test]
fn parse_gives_the_structure() {
    match parse("(f x py)", false).unwrap() {
        Term::Invocation(f, args) => {
            assert_eq!(f.name(), "f");
            assert_eq!(f.arity(), 2);
            assert_eq!(args.len(), 2);
            assert!(matches!(&args[0], Term::Singleton(Variable::Concrete(n)) if n == "x"));
            assert!(matches!(&args[1], Term::Singleton(Variable::Generic(n)) if n == "py"));
        }
        _ => panic!("no invocation"),
    }
}

#[test]
fn a_function_may_have_a_generic_name() {
    assert_eq!(parse("(plus x y)", true).unwrap().to_egg(), "(plus x y)");
}

#[test]
fn parse_errors() {
    assert_eq!(message("", true), "Empty expression.");
    assert_eq!(message("   ", true), "Empty expression.");
    assert_eq!(message("x y", true), "Unexpected token at end of expression.");
    assert_eq!(message("(f x))", true), "Unexpected token at end of expression.");
    assert_eq!(
        message("px", true),
        "Unexpected generic variable in program. Variables beginning with 'p' are reserved for generic variables in rewrite rules."
    );
    assert_eq!(
        message("(f px)", true),
        "Unexpected generic variable in program. Variables beginning with 'p' are reserved for generic variables in rewrite rules."
    );
    assert_eq!(message(")", true), "Expected function term or variable name. Got ')'.");
    assert_eq!(message("(f x", true), "Unmatched '(' token.");
    assert_eq!(message("(f (g x)", true), "Unmatched '(' token.");
    assert_eq!(message("((f) x)", true), "Cannot have two '(' tokens in a row.");
    assert_eq!(message("()", true), "Empty function body.");
    assert_eq!(message("(f ())", true), "Empty function body.");
    assert_eq!(message("(", true), "Unexpected end of input.");
    assert_eq!(message("(f (", true), "Unexpected end of input.");
}

#[test]
fn arity_is_checked_within_a_term() {
    assert_eq!(
        message("(f (f x) y)", true),
        "Cannot instantiate function with symbol 'f' with an arity of 2, because it was already declared with an arity of 1."
    );
    assert_eq!(parse("(f (f x y) z)", true).unwrap().to_egg(), "(f (f x y) z)");
}

#[test]
fn arity_checker_records_and_compares() {
    let mut c = ArityChecker::new();
    assert_eq!(c.declared_arity("f"), None);
    assert!(c.check_new_arity("f", 2).is_ok());
    assert_eq!(c.declared_arity("f"), Some(2));
    assert!(c.check_new_arity("f", 2).is_ok());
    assert!(c.check_new_arity("g", 0).is_ok());
    let e = c.check_new_arity("f", 10).unwrap_err();
    assert_eq!(
        e.msg,
        "Cannot instantiate function with symbol 'f' with an arity of 10, because it was already declared with an arity of 2."
    );
    assert!(e.context.is_none());
    assert_eq!(c.declared_arity("f"), Some(2));
    assert_eq!(c.declared_arity("g"), Some(0));
    let d = c.clone();
    assert_eq!(d.declared_arity("f"), Some(2));
    assert_eq!(d.declared_arity("h"), None);
}

#[test]
fn arities_are_kept_up_to_the_failure() {
    let mut c = ArityChecker::new();
    assert!(Parser::parse("(f (g x) (h", true, &mut c).is_err());
    assert_eq!(c.declared_arity("g"), Some(1));
    assert_eq!(c.declared_arity("f"), None);
    assert_eq!(c.declared_arity("h"), None);
}

#[test]
fn program_and_rules_share_arities() {
    let mut c = ArityChecker::new();
    let p = Program::from_str("(add x (add y z))", &mut c).unwrap();
    assert_eq!(p.to_egg(), "(add x (add y z))");
    assert_eq!(p.root().to_egg(), "(add x (add y z))");
    let r = RewriteRule::from_str("(add pa pb)", "(add pb pa)", &mut c).unwrap();
    assert_eq!(r.left_to_egg(), "(add ?pa ?pb)");
    assert_eq!(r.right_to_egg(), "(add ?pb ?pa)");
    let e = match RewriteRule::from_str("(add pa)", "pa", &mut c) {
        Err(e) => e,
        Ok(_) => panic!("arity not checked"),
    };
    assert_eq!(
        e.msg,
        "Cannot instantiate function with symbol 'add' with an arity of 1, because it was already declared with an arity of 2."
    );
    assert!(Program::from_str("px", &mut c).is_err());
}

#[test]
fn the_right_side_is_not_read_after_a_bad_left_side() {
    let mut c = ArityChecker::new();
    assert!(RewriteRule::from_str("(f", "(g x)", &mut c).is_err());
    assert_eq!(c.declared_arity("g"), None);
    assert!(RewriteRule::from_str("(f x)", "(g", &mut c).is_err());
    assert_eq!(c.declared_arity("f"), Some(1));
}

#[test]
fn program_through_the_interface() {
    let (p, mut state) = <Program as EggvizProgram>::parse_str("(f x)").unwrap();
    assert_eq!(EggvizProgram::to_egg(&p), "(f x)");
    let label = EggvizRewriteRuleLabel::Indexed(0);
    let rule = p.parse_rewrite_rule(&mut state, &label, "(f pa)", "pa").unwrap();
    assert_eq!(EggvizRewriteRule::left_to_egg(&rule), "(f ?pa)");
    assert_eq!(EggvizRewriteRule::right_to_egg(&rule), "?pa");
    assert!(p.parse_rewrite_rule(&mut state, &label, "(f pa pb)", "pa").is_err());
    assert!(<Program as EggvizProgram>::parse_str("(f").is_err());
}
