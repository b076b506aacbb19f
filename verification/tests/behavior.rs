//! Behavior of the typed layer: documents, the order ambiguities, the
//! directive fold, YAML capture, and every error the library can raise.

use tapconsooomer::{
    BailOut, Directive, Document, Key, Node, Plan, PlanField, Pragma, Preamble, Rule, Statement,
    Subtest, TapError, Test,
};

fn token(rule: Rule, text: &str) -> Node {
    Node { rule, text: text.to_string(), children: Vec::new() }
}

fn parent(rule: Rule, children: Vec<Node>) -> Node {
    Node { rule, text: String::new(), children }
}

#[test]
fn document_simple() {
    let doc = Document::parse_from_str("TAP version 14\n1..1\nok 1 - foo()\n")
        .expect("Parser error");
    assert_eq!(doc.preamble.version, "14");
    assert_eq!(doc.plan.first, 1);
    assert_eq!(doc.plan.last, 1);
    assert_eq!(doc.plan.reason, None);
    assert_eq!(doc.body.len(), 1);
    match &doc.body[0] {
        Statement::Test(t) => {
            assert!(t.result);
            assert_eq!(t.number, Some(1));
            assert_eq!(t.description.as_deref(), Some("foo()"));
            assert!(t.directive.is_none());
            assert_eq!(t.yaml.len(), 0);
        },
        other => panic!("expected a test, got {:?}", other),
    }
}

#[test]
fn document_body_before_plan() {
    let a = Document::parse_from_str("TAP version 14\n1..2\nok 1 - foo()\nok 2 - bar()\n")
        .expect("Parser error");
    let b = Document::parse_from_str("TAP version 14\nok 1 - foo()\nok 2 - bar()\n1..2\n")
        .expect("Parser error");
    assert_eq!(a, b);
    assert_eq!(b.body.len(), 2);
    assert_eq!(b.plan.first, 1);
    assert_eq!(b.plan.last, 2);
}

#[test]
fn document_plan_only() {
    let doc = Document::parse_from_str("TAP version 14\n1..0 # no tests\n").expect("Parser error");
    assert_eq!(doc.plan.first, 1);
    assert_eq!(doc.plan.last, 0);
    assert_eq!(doc.plan.reason.as_deref(), Some("no tests"));
    assert_eq!(doc.body.len(), 0);
}

#[test]
fn standalone_test_skip_directive() {
    let t = Test::parse_from_str("ok # skip").expect("Parser error");
    assert!(t.result);
    assert_eq!(t.number, None);
    assert_eq!(t.description, None);
    let d = t.directive.expect("directive");
    assert!(matches!(d.key, Key::Skip));
    assert_eq!(d.reason, None);
}

#[test]
fn standalone_bail_out_with_reason() {
    let b = BailOut::parse_from_str("bail out! disk full").expect("Parser error");
    assert_eq!(b.reason.as_deref(), Some("disk full"));
}

#[test]
fn standalone_pragma_enable() {
    let p = Pragma::parse_from_str("pragma +strict").expect("Parser error");
    assert_eq!(p.flag, Some(true));
    assert_eq!(p.option, "strict");
}

#[test]
fn subtest_plan_position_is_irrelevant() {
    let a = Subtest::parse_from_str("    ok 1 - x\n    1..1\n").expect("Parser error");
    let b = Subtest::parse_from_str("    1..1\n    ok 1 - x\n").expect("Parser error");
    assert_eq!(a, b);
    assert_eq!(a.plan.first, 1);
    assert_eq!(a.plan.last, 1);
    assert_eq!(a.body.len(), 1);
    match &a.body[0] {
        Statement::Test(t) => assert_eq!(t.description.as_deref(), Some("x")),
        other => panic!("expected a test, got {:?}", other),
    }
}

#[test]
fn subtest_plan_interleaved() {
    let a = Subtest::parse_from_str("  ok 1 - x\n  1..2\n  ok 2 - y\n").expect("Parser error");
    let b = Subtest::parse_from_str("  1..2\n  ok 1 - x\n  ok 2 - y\n").expect("Parser error");
    let c = Subtest::parse_from_str("  ok 1 - x\n  ok 2 - y\n  1..2\n").expect("Parser error");
    assert_eq!(a, b);
    assert_eq!(b, c);
    assert_eq!(a.body.len(), 2);
}

#[test]
fn subtest_last_plan_wins() {
    let s = Subtest::parse_from_str("  1..1\n  ok 1 - x\n  1..7\n").expect("Parser error");
    assert_eq!(s.plan.first, 1);
    assert_eq!(s.plan.last, 7);
    assert_eq!(s.body.len(), 1);
}

#[test]
fn nested_subtests() {
    let doc = Document::parse_from_str("TAP version 14\n1..1\n# Subtest: outer\n  1..2\n  ok 1 - shallow\n    1..1\n    ok 1 - deep\n  ok 2 - after\nok 1 - outer\n")
    .expect("Parser error");
    assert_eq!(doc.body.len(), 2);
    match &doc.body[0] {
        Statement::Subtest(outer) => {
            assert_eq!(outer.name.as_deref(), Some("outer"));
            assert_eq!(outer.plan.last, 2);
            assert_eq!(outer.body.len(), 3);
            match &outer.body[1] {
                Statement::Subtest(inner) => {
                    assert_eq!(inner.name, None);
                    assert_eq!(inner.plan.last, 1);
                    assert_eq!(inner.body.len(), 1);
                },
                other => panic!("expected the nested subtest, got {:?}", other),
            }
        },
        other => panic!("expected a subtest, got {:?}", other),
    }
}

#[test]
fn directive_key_folds_case() {
    for spelling in ["SKIP", "skip", "Skip"] {
        let d = Directive::parse_from_str(&format!("# {} why not", spelling))
            .expect("Parser error");
        assert!(matches!(d.key, Key::Skip));
        assert_eq!(d.reason.as_deref(), Some("why not"));
    }
    let d = Directive::parse_from_str("# TODO").expect("Parser error");
    assert!(matches!(d.key, Key::Todo));
    assert_eq!(d.reason, None);
}

#[test]
fn yaml_block_strips_shared_indent() {
    let t = Test::parse_from_str("ok 1 - x\n  ---\n  a: 1\n  ...\n").expect("Parser error");
    assert_eq!(t.yaml, ["a: 1"]);
}

#[test]
fn yaml_blocks_concatenate_in_order() {
    let t = Test::parse_from_str("ok 1 - x\n  ---\n  first: 1\n  ...\n  ---\n  second: 2\n  third: 3\n  ...\n")
    .expect("Parser error");
    assert_eq!(t.yaml, ["first: 1", "second: 2", "third: 3"]);
}

#[test]
fn yaml_keeps_blank_lines() {
    // A whitespace-only line inside a block is content like any other:
    // captured with the shared indentation stripped.
    let t = Test::parse_from_str("ok\n  ---\n  a: 1\n    \n  b: 2\n  ...\n")
        .expect("Parser error");
    assert_eq!(t.yaml, ["a: 1", "  ", "b: 2"]);
}

#[test]
fn error_grammar_empty_line_inside_yaml() {
    // An empty line has no indentation at all, so it falls outside the
    // block and leaves it unterminated.
    match Test::parse_from_str("ok\n  ---\n  a: 1\n\n  ...\n") {
        Err(TapError::Grammar { line, .. }) => assert_eq!(line, 3),
        other => panic!("expected a grammar error, got {:?}", other),
    }
}

#[test]
fn error_bad_directive_key_on_forged_node() {
    // The scanner only ever yields skip/todo keys, but the builders check
    // for themselves: a forged directive child with another key raises
    // the semantic error, named by its folded text.
    let forged = parent(
        Rule::Test,
        vec![
            token(Rule::ResultWord, "ok"),
            parent(Rule::Directive, vec![token(Rule::Key, "LaTeR")]),
        ],
    );
    match Statement::parse(&forged) {
        Err(TapError::BadDirectiveKey { key }) => assert_eq!(key, "later"),
        other => panic!("expected a bad-key error, got {:?}", other),
    }
}

#[test]
fn yaml_keeps_extra_indent() {
    let t = Test::parse_from_str("ok\n  ---\n  a:\n    b: 1\n  ...\n").expect("Parser error");
    assert_eq!(t.yaml, ["a:", "  b: 1"]);
}

#[test]
fn anything_line_kept_verbatim() {
    let doc = Document::parse_from_str("TAP version 14\n1..0\nfree-form diagnostics here\n")
        .expect("Parser error");
    assert_eq!(doc.body.len(), 1);
    match &doc.body[0] {
        Statement::Anything(s) => assert_eq!(s, "free-form diagnostics here"),
        other => panic!("expected a catch-all line, got {:?}", other),
    }
}

#[test]
fn preamble_semantic_version() {
    let p = Preamble::parse_from_str("TAP version 13.1").expect("Parser error");
    assert_eq!(p.version, "13.1");
}

#[test]
fn plan_negative_bounds() {
    let p = Plan::parse_from_str("-3..-1").expect("Parser error");
    assert_eq!(p.first, -3);
    assert_eq!(p.last, -1);
}

#[test]
fn error_bad_plan_bound() {
    match Plan::parse_from_str("99999999999..1") {
        Err(TapError::BadPlanBound { field, text }) => {
            assert!(matches!(field, PlanField::First));
            assert_eq!(text, "99999999999");
        },
        other => panic!("expected a bad-bound error, got {:?}", other),
    }
    match Plan::parse_from_str("1..99999999999") {
        Err(TapError::BadPlanBound { field, text }) => {
            assert!(matches!(field, PlanField::Last));
            assert_eq!(text, "99999999999");
        },
        other => panic!("expected a bad-bound error, got {:?}", other),
    }
}

#[test]
fn error_missing_plan_in_subtest() {
    match Subtest::parse_from_str("    ok 1 - x\n") {
        Err(TapError::MissingPlan) => {},
        other => panic!("expected a missing-plan error, got {:?}", other),
    }
}

#[test]
fn error_missing_plan_in_document() {
    match Document::parse_from_str("TAP version 14\nok 1 - x\n") {
        Err(TapError::MissingPlan) => {},
        other => panic!("expected a missing-plan error, got {:?}", other),
    }
}

#[test]
fn error_duplicate_plan_in_document() {
    match Document::parse_from_str("TAP version 14\n1..1\n1..2\n") {
        Err(TapError::DuplicateBlock) => {},
        other => panic!("expected a duplicate-region error, got {:?}", other),
    }
}

#[test]
fn error_grammar_without_preamble() {
    match Document::parse_from_str("1..1\nok 1\n") {
        Err(TapError::Grammar { line, text }) => {
            assert_eq!(line, 0);
            assert_eq!(text, "1..1");
        },
        other => panic!("expected a grammar error, got {:?}", other),
    }
}

#[test]
fn error_grammar_unterminated_yaml() {
    match Test::parse_from_str("ok 1\n  ---\n  a: 1\n") {
        Err(TapError::Grammar { .. }) => {},
        other => panic!("expected a grammar error, got {:?}", other),
    }
}

#[test]
fn error_bad_result_word_on_forged_node() {
    let forged = parent(Rule::Test, vec![token(Rule::ResultWord, "maybe")]);
    match Statement::parse(&forged) {
        Err(TapError::BadResultWord { word }) => assert_eq!(word, "maybe"),
        other => panic!("expected a bad-result error, got {:?}", other),
    }
}

#[test]
fn error_malformed_node() {
    let stray = token(Rule::Version, "14");
    match Statement::parse(&stray) {
        Err(TapError::Malformed) => {},
        other => panic!("expected the malformed-node error, got {:?}", other),
    }
}

#[test]
fn unrecognized_directive_key_line_is_anything() {
    // `# later` is no directive, so the line matches no test production
    // and falls to the catch-all.
    let s = Statement::parse_from_str("ok 1 # later").expect("Parser error");
    assert!(matches!(s, Statement::Anything(_)));
}

#[test]
fn bail_out_bang_must_follow_out() {
    // The grammar has no room between `out` and `!`; such a line is no
    // bail-out and falls to the catch-all.
    let s = Statement::parse_from_str("bail out !").expect("Parser error");
    assert!(matches!(s, Statement::Anything(_)));
}

#[test]
fn pragma_option_must_follow_flag() {
    // The grammar has no room between the flag and the option; such a
    // line is no pragma and falls to the catch-all.
    let s = Statement::parse_from_str("pragma + strict").expect("Parser error");
    assert!(matches!(s, Statement::Anything(_)));
}

#[test]
fn statement_dispatch() {
    assert!(matches!(
        Statement::parse_from_str("ok 1 - foo::bar()").expect("Parser error"),
        Statement::Test(..)
    ));
    assert!(matches!(
        Statement::parse_from_str("hello world").expect("Parser error"),
        Statement::Anything(..)
    ));
    assert!(matches!(
        Statement::parse_from_str("Bail Out!").expect("Parser error"),
        Statement::BailOut(..)
    ));
    assert!(matches!(
        Statement::parse_from_str("pragma -strict").expect("Parser error"),
        Statement::Pragma(..)
    ));
    assert!(matches!(
        Statement::parse_from_str("# Subtest: foo\n    1..0 # skipped\n")
            .expect("Parser error"),
        Statement::Subtest(..)
    ));
}

#[test]
fn crlf_line_endings() {
    let doc = Document::parse_from_str("TAP version 14\r\n1..1\r\nok 1 - foo\r\n")
        .expect("Parser error");
    assert_eq!(doc.preamble.version, "14");
    assert_eq!(doc.body.len(), 1);
}

#[test]
fn blank_lines_are_skipped() {
    let doc = Document::parse_from_str("TAP version 14\n\n1..1\n\nok 1\n\n")
        .expect("Parser error");
    assert_eq!(doc.plan.last, 1);
    assert_eq!(doc.body.len(), 1);
}

#[test]
fn document_assembled_from_forged_nodes() {
    // The assembler resolves regions by kind whatever their order, and
    // refuses two of one kind.
    let pre = parent(Rule::Preamble, vec![token(Rule::Version, "14")]);
    let plan = parent(
        Rule::Plan,
        vec![token(Rule::First, "1"), token(Rule::Last, "1")],
    );
    let body = parent(Rule::Body, vec![token(Rule::Anything, "x")]);
    let doc = Document::parse(&vec![pre, plan, body]).expect("assembly failed");
    assert_eq!(doc.plan.last, 1);
    assert_eq!(doc.body.len(), 1);

    let pre2 = parent(Rule::Preamble, vec![token(Rule::Version, "14")]);
    let plan2 = parent(
        Rule::Plan,
        vec![token(Rule::First, "1"), token(Rule::Last, "1")],
    );
    let plan3 = parent(
        Rule::Plan,
        vec![token(Rule::First, "1"), token(Rule::Last, "2")],
    );
    match Document::parse(&vec![pre2, plan2, plan3]) {
        Err(TapError::DuplicateBlock) => {},
        other => panic!("expected a duplicate-region error, got {:?}", other),
    }
}
