//! Line-grammar coverage: each construct recognized with the tokens it
//! should yield, checked through the untyped parse tree.

use tapconsooomer::{Node, Rule, TAPParser};

fn parse(rule: Rule, input: &str) -> Node {
    TAPParser::parse(rule, input).expect("Parser error")
}

#[test]
fn test_version() {
    let n = parse(Rule::Preamble, "TAP version 14");
    assert!(matches!(n.rule, Rule::Preamble));
    assert_eq!(n.children.len(), 1);
    assert!(matches!(n.children[0].rule, Rule::Version));
    assert_eq!(n.children[0].text, "14");
}

#[test]
fn test_version_mixed_case() {
    let n = parse(Rule::Preamble, "tAp VeRsIoN 123");
    assert_eq!(n.children.len(), 1);
    assert_eq!(n.children[0].text, "123");
}

#[test]
fn test_plan() {
    let n = parse(Rule::Plan, "1..2");
    assert!(matches!(n.rule, Rule::Plan));
    assert_eq!(n.children.len(), 2);
    assert!(matches!(n.children[0].rule, Rule::First));
    assert_eq!(n.children[0].text, "1");
    assert!(matches!(n.children[1].rule, Rule::Last));
    assert_eq!(n.children[1].text, "2");
}

#[test]
fn test_plan_with_reason() {
    let n = parse(Rule::Plan, "1..20 # generated");
    assert_eq!(n.children.len(), 3);
    assert_eq!(n.children[0].text, "1");
    assert_eq!(n.children[1].text, "20");
    assert!(matches!(n.children[2].rule, Rule::Reason));
    assert_eq!(n.children[2].text, "generated");
}

#[test]
fn test_ok_plain() {
    let n = parse(Rule::Test, "ok");
    assert!(matches!(n.rule, Rule::Test));
    assert_eq!(n.children.len(), 1);
    assert!(matches!(n.children[0].rule, Rule::ResultWord));
    assert_eq!(n.children[0].text, "ok");
}

#[test]
fn test_not_ok_plain() {
    let n = parse(Rule::Test, "not ok");
    assert_eq!(n.children.len(), 1);
    assert_eq!(n.children[0].text, "not ok");
}

#[test]
fn test_not_ok_plain_mixed_case() {
    let n = parse(Rule::Test, "nOt Ok");
    assert_eq!(n.children.len(), 1);
    assert_eq!(n.children[0].text, "nOt Ok");
}

#[test]
fn test_ok_with_number() {
    let n = parse(Rule::Test, "ok 123");
    assert_eq!(n.children.len(), 2);
    assert_eq!(n.children[0].text, "ok");
    assert!(matches!(n.children[1].rule, Rule::Number));
    assert_eq!(n.children[1].text, "123");
}

#[test]
fn test_ok_with_description() {
    let n = parse(Rule::Test, "ok - hello world");
    assert_eq!(n.children.len(), 2);
    assert_eq!(n.children[0].text, "ok");
    assert!(matches!(n.children[1].rule, Rule::Description));
    assert_eq!(n.children[1].text, "hello world");
}

#[test]
fn test_not_ok_with_description() {
    let n = parse(Rule::Test, "not ok - hello world");
    assert_eq!(n.children.len(), 2);
    assert_eq!(n.children[0].text, "not ok");
    assert_eq!(n.children[1].text, "hello world");
}

#[test]
fn test_ok_with_description_no_dash() {
    let n = parse(Rule::Test, "ok hello world");
    assert_eq!(n.children.len(), 2);
    assert_eq!(n.children[0].text, "ok");
    assert_eq!(n.children[1].text, "hello world");
}

#[test]
fn test_ok_with_directive_skip() {
    let n = parse(Rule::Test, "ok # skip");
    assert_eq!(n.children.len(), 2);
    assert_eq!(n.children[0].text, "ok");
    let d = &n.children[1];
    assert!(matches!(d.rule, Rule::Directive));
    assert_eq!(d.children.len(), 1);
    assert!(matches!(d.children[0].rule, Rule::Key));
    assert_eq!(d.children[0].text, "skip");
}

#[test]
fn test_not_ok_with_directive_todo_reason() {
    let n = parse(Rule::Test, "not ok # todo this is a reason");
    assert_eq!(n.children.len(), 2);
    assert_eq!(n.children[0].text, "not ok");
    let d = &n.children[1];
    assert_eq!(d.children.len(), 2);
    assert_eq!(d.children[0].text, "todo");
    assert!(matches!(d.children[1].rule, Rule::Reason));
    assert_eq!(d.children[1].text, "this is a reason");
}

#[test]
fn test_not_ok_with_number_directive_skip_reason() {
    let n = parse(Rule::Test, "not ok 42 # todo this is a reason");
    assert_eq!(n.children.len(), 3);
    assert_eq!(n.children[0].text, "not ok");
    assert_eq!(n.children[1].text, "42");
    let d = &n.children[2];
    assert_eq!(d.children[0].text, "todo");
    assert_eq!(d.children[1].text, "this is a reason");
}

#[test]
fn test_ok_with_number_description_directive_skip_reason() {
    let n = parse(Rule::Test, "ok 1 - hello world # skip this is a reason");
    assert_eq!(n.children.len(), 4);
    assert_eq!(n.children[0].text, "ok");
    assert_eq!(n.children[1].text, "1");
    assert_eq!(n.children[2].text, "hello world ");
    let d = &n.children[3];
    assert_eq!(d.children[0].text, "skip");
    assert_eq!(d.children[1].text, "this is a reason");
}

#[test]
fn test_bail_out() {
    let n = parse(Rule::BailOut, "bail out!");
    assert!(matches!(n.rule, Rule::BailOut));
    assert_eq!(n.children.len(), 0);
}

#[test]
fn test_bail_out_mixed_case() {
    let n = parse(Rule::BailOut, "BaIl OuT!");
    assert_eq!(n.children.len(), 0);
}

#[test]
fn test_bail_out_with_reason() {
    let n = parse(Rule::BailOut, "bail out! something went terribly wrong");
    assert_eq!(n.children.len(), 1);
    assert!(matches!(n.children[0].rule, Rule::Reason));
    assert_eq!(n.children[0].text, "something went terribly wrong");
}

#[test]
fn test_pragma() {
    let n = parse(Rule::Pragma, "pragma -strict");
    assert!(matches!(n.rule, Rule::Pragma));
    assert_eq!(n.children.len(), 2);
    assert!(matches!(n.children[0].rule, Rule::Flag));
    assert_eq!(n.children[0].text, "-");
    assert!(matches!(n.children[1].rule, Rule::OptionName));
    assert_eq!(n.children[1].text, "strict");
}

#[test]
fn test_pragma_mixed_case() {
    let n = parse(Rule::Pragma, "pRaGmA +strict");
    assert_eq!(n.children.len(), 2);
    assert_eq!(n.children[0].text, "+");
    assert_eq!(n.children[1].text, "strict");
}

#[test]
fn test_pragma_no_flag() {
    let n = parse(Rule::Pragma, "pragma allow_anything");
    assert_eq!(n.children.len(), 1);
    assert!(matches!(n.children[0].rule, Rule::OptionName));
    assert_eq!(n.children[0].text, "allow_anything");
}

#[test]
fn test_subtest_with_empty_declaration() {
    let n = parse(Rule::Subtest, "# subtest\n        1..20");
    assert!(matches!(n.rule, Rule::Subtest));
    assert_eq!(n.children.len(), 1);
    let p = &n.children[0];
    assert!(matches!(p.rule, Rule::Plan));
    assert_eq!(p.children[0].text, "1");
    assert_eq!(p.children[1].text, "20");
}

#[test]
fn test_subtest_with_declaration() {
    let n = parse(
        Rule::Subtest,
        "# Subtest: This is a subtest\n    1..20",
    );
    assert_eq!(n.children.len(), 2);
    assert!(matches!(n.children[0].rule, Rule::Name));
    assert_eq!(n.children[0].text, "This is a subtest");
    let p = &n.children[1];
    assert!(matches!(p.rule, Rule::Plan));
    assert_eq!(p.children[0].text, "1");
    assert_eq!(p.children[1].text, "20");
}

#[test]
fn test_subtest_without_declaration() {
    let n = parse(Rule::Subtest, "    1..20");
    assert_eq!(n.children.len(), 1);
    let p = &n.children[0];
    assert!(matches!(p.rule, Rule::Plan));
    assert_eq!(p.children[0].text, "1");
    assert_eq!(p.children[1].text, "20");
}

#[test]
fn test_subtest_with_plan_body() {
    let n = parse(Rule::Subtest, "    1..21\n    ok 1 - hello world\n");
    assert_eq!(n.children.len(), 2);
    let p = &n.children[0];
    assert!(matches!(p.rule, Rule::Plan));
    assert_eq!(p.children[0].text, "1");
    assert_eq!(p.children[1].text, "21");
    let t = &n.children[1];
    assert!(matches!(t.rule, Rule::Test));
    assert_eq!(t.children[0].text, "ok");
    assert_eq!(t.children[1].text, "1");
    assert_eq!(t.children[2].text, "hello world");
}

#[test]
fn test_subtest_with_body_plan() {
    let n = parse(Rule::Subtest, "    ok 1 - hello world\n    1..21\n");
    assert_eq!(n.children.len(), 2);
    let t = &n.children[0];
    assert!(matches!(t.rule, Rule::Test));
    assert_eq!(t.children[0].text, "ok");
    assert_eq!(t.children[1].text, "1");
    assert_eq!(t.children[2].text, "hello world");
    let p = &n.children[1];
    assert!(matches!(p.rule, Rule::Plan));
    assert_eq!(p.children[0].text, "1");
    assert_eq!(p.children[1].text, "21");
}

#[test]
fn test_comment() {
    // A comment is consumed and yields nothing: alone it makes no
    // statement, and inside a document it leaves no trace.
    assert!(TAPParser::parse(Rule::Statement, "# this is a comment").is_err());
    let doc = tapconsooomer::Document::parse_from_str(
        "TAP version 14\n1..0\n# this is a comment\n",
    )
    .expect("Parser error");
    assert_eq!(doc.body.len(), 0);
}

#[test]
fn test_yaml_block() {
    let input = "ok\n  ---\n  YAML line 1\n  YAML line 2\n  YAML line 3\n  ok 1 - this is considered YAML\n        \r\n  0..1 # even this is YAML\n  ...\n";
    let n = parse(Rule::Test, input);
    assert_eq!(n.children.len(), 2);
    let y = &n.children[1];
    assert!(matches!(y.rule, Rule::YamlBlock));
    let lines: Vec<&str> = y.children.iter().map(|c| c.text.as_str()).collect();
    // The whitespace-only line sits at indentation 8, inside the block, so
    // it is captured like any other line, its first two columns stripped
    // (the carriage return belongs to the line break and is not part of
    // the line).
    assert_eq!(
        lines,
        [
            "YAML line 1",
            "YAML line 2",
            "YAML line 3",
            "ok 1 - this is considered YAML",
            "      ",
            "0..1 # even this is YAML",
        ]
    );
}
