//! Statements the library proves about itself.
//!
//! The format leaves room in two places — where a plan stands relative to
//! the body around it, at document scope and inside a subtest — and the
//! builders resolve both.  The proof functions here pin the resolutions
//! down: region order at document scope does not matter, a subtest's plan
//! may stand anywhere among its statements, a duplicated plan is settled
//! by the last one, directive keys fold case-insensitively, and YAML
//! blocks concatenate in order.

use vstd::prelude::*;

use crate::ast::{DocumentV, Key, StatementV, SubtestV, TapErrorV, TestV};
use crate::builders::{
    document_of_text, last_plan, sb_contents, sb_document, sb_content_block, sb_key, sb_plan,
    sb_statement, sb_subtest, sb_test, sb_test_fold, sb_test_step, stmts_of, texts_of, ContentV,
};
use crate::node::{NodeV, Rule};
use crate::scan::{preamble_node, sp_preamble};
use crate::syntax::{skip_light, sp_blocks, sp_document, sp_lines, sp_rule, BlockV};
use crate::text::{lower, lower_seq};

verus! {

/// A document's plan and body may stand in either order: assembling the
/// preamble with two well-formed regions yields the same document — or
/// the same duplicate-region error — whichever region comes first.
pub proof fn lemma_document_region_order(pre: NodeV, b1: NodeV, b2: NodeV)
    requires
        sb_content_block(b1) is Ok,
        sb_content_block(b2) is Ok,
    ensures
        sb_document(seq![pre, b1, b2]) == sb_document(seq![pre, b2, b1]),
{
    let s1 = seq![pre, b1, b2];
    let s2 = seq![pre, b2, b1];
    assert(s1[0] == pre && s1[1] == b1 && s1[2] == b2);
    assert(s2[0] == pre && s2[1] == b2 && s2[2] == b1);
}

/// The statement contents of a run of statement nodes that all build:
/// each dispatched in place.
pub open spec fn stmt_results(ss: Seq<NodeV>) -> Seq<ContentV> {
    Seq::new(ss.len(), |i: int| ContentV::Stmt(sb_statement(ss[i])->Ok_0))
}

/// A run without plan nodes, each statement well formed, classifies to
/// its dispatched statements.
proof fn lemma_contents_all_stmts(ss: Seq<NodeV>)
    requires
        forall|i: int|
            0 <= i < ss.len() ==> !((#[trigger] ss[i]).rule is Plan) && sb_statement(
                ss[i],
            ) is Ok,
    ensures
        sb_contents(ss) == Ok::<Seq<ContentV>, TapErrorV>(stmt_results(ss)),
    decreases ss.len(),
{
    if ss.len() == 0 {
        assert(stmt_results(ss) =~= Seq::<ContentV>::empty());
    } else {
        lemma_contents_all_stmts(ss.drop_last());
        assert(ss.last() == ss[ss.len() - 1]);
        assert(stmt_results(ss) =~= stmt_results(ss.drop_last()).push(
            ContentV::Stmt(sb_statement(ss.last())->Ok_0),
        ));
    }
}

/// Classifying a run with one plan node inserted yields the dispatched
/// statements with one plan candidate inserted at the same place.
proof fn lemma_contents_insert_plan(ss: Seq<NodeV>, p: NodeV, k: int)
    requires
        forall|i: int|
            0 <= i < ss.len() ==> !((#[trigger] ss[i]).rule is Plan) && sb_statement(
                ss[i],
            ) is Ok,
        p.rule is Plan,
        sb_plan(p.children) is Ok,
        0 <= k <= ss.len(),
    ensures
        sb_contents(ss.insert(k, p)) == Ok::<Seq<ContentV>, TapErrorV>(
            stmt_results(ss).insert(k, ContentV::Plan(sb_plan(p.children)->Ok_0)),
        ),
    decreases ss.len(),
{
    let t = ss.insert(k, p);
    let pv = ContentV::Plan(sb_plan(p.children)->Ok_0);
    if k == ss.len() {
        assert(t.drop_last() =~= ss);
        assert(t.last() == p);
        lemma_contents_all_stmts(ss);
        assert(stmt_results(ss).insert(k, pv) =~= stmt_results(ss).push(pv));
    } else {
        assert(t.drop_last() =~= ss.drop_last().insert(k, p));
        assert(t.last() == ss.last());
        lemma_contents_insert_plan(ss.drop_last(), p, k);
        assert(stmt_results(ss).insert(k, pv) =~= stmt_results(ss.drop_last()).insert(
            k,
            pv,
        ).push(ContentV::Stmt(sb_statement(ss.last())->Ok_0)));
    }
}

/// Among statement contents, an inserted plan candidate is the last plan,
/// wherever it was inserted.
proof fn lemma_last_plan_of_insert(cs: Seq<ContentV>, pv: ContentV, k: int)
    requires
        forall|i: int| 0 <= i < cs.len() ==> (#[trigger] cs[i]) is Stmt,
        pv is Plan,
        0 <= k <= cs.len(),
    ensures
        last_plan(cs.insert(k, pv)) == Some(pv->Plan_0),
    decreases cs.len(),
{
    let t = cs.insert(k, pv);
    if k == cs.len() {
        assert(t.last() == pv);
    } else {
        assert(t.last() == cs.last());
        assert(t.drop_last() =~= cs.drop_last().insert(k, pv));
        lemma_last_plan_of_insert(cs.drop_last(), pv, k);
    }
}

/// Removing the plan candidates ignores an inserted plan, wherever it was
/// inserted.
proof fn lemma_stmts_of_insert_plan(cs: Seq<ContentV>, pv: ContentV, k: int)
    requires
        pv is Plan,
        0 <= k <= cs.len(),
    ensures
        stmts_of(cs.insert(k, pv)) == stmts_of(cs),
    decreases cs.len(),
{
    let t = cs.insert(k, pv);
    if k == cs.len() {
        assert(t.drop_last() =~= cs);
        assert(t.last() == pv);
    } else {
        assert(t.last() == cs.last());
        assert(t.drop_last() =~= cs.drop_last().insert(k, pv));
        lemma_stmts_of_insert_plan(cs.drop_last(), pv, k);
    }
}

/// A subtest's plan may stand before, after, or anywhere among its body
/// statements: resolving the children with the plan node inserted at one
/// position or another yields the same subtest.
pub proof fn lemma_subtest_plan_interleave(ss: Seq<NodeV>, p: NodeV, k1: int, k2: int)
    requires
        forall|i: int|
            0 <= i < ss.len() ==> !((#[trigger] ss[i]).rule is Plan) && !(ss[i].rule is Name)
                && sb_statement(ss[i]) is Ok,
        p.rule is Plan,
        sb_plan(p.children) is Ok,
        0 <= k1 <= ss.len(),
        0 <= k2 <= ss.len(),
    ensures
        sb_subtest(ss.insert(k1, p)) == sb_subtest(ss.insert(k2, p)),
        sb_subtest(ss.insert(k1, p)) == Ok::<SubtestV, TapErrorV>(
            SubtestV {
                name: None,
                plan: sb_plan(p.children)->Ok_0,
                body: stmts_of(stmt_results(ss)),
            },
        ),
{
    lemma_subtest_one_insert(ss, p, k1);
    lemma_subtest_one_insert(ss, p, k2);
}

/// Resolving statements with one plan inserted anywhere: the plan is the
/// inserted one and the body is the statements in order.
proof fn lemma_subtest_one_insert(ss: Seq<NodeV>, p: NodeV, k: int)
    requires
        forall|i: int|
            0 <= i < ss.len() ==> !((#[trigger] ss[i]).rule is Plan) && !(ss[i].rule is Name)
                && sb_statement(ss[i]) is Ok,
        p.rule is Plan,
        sb_plan(p.children) is Ok,
        0 <= k <= ss.len(),
    ensures
        sb_subtest(ss.insert(k, p)) == Ok::<SubtestV, TapErrorV>(
            SubtestV {
                name: None,
                plan: sb_plan(p.children)->Ok_0,
                body: stmts_of(stmt_results(ss)),
            },
        ),
{
    let t = ss.insert(k, p);
    let pv = ContentV::Plan(sb_plan(p.children)->Ok_0);
    assert(t.len() > 0);
    assert(!(t[0].rule is Name)) by {
        if k == 0 {
            assert(t[0] == p);
        } else {
            assert(t[0] == ss[0]);
        }
    }
    lemma_contents_insert_plan(ss, p, k);
    assert(forall|i: int| 0 <= i < stmt_results(ss).len() ==> (#[trigger] stmt_results(ss)[i])
        is Stmt);
    lemma_last_plan_of_insert(stmt_results(ss), pv, k);
    lemma_stmts_of_insert_plan(stmt_results(ss), pv, k);
}

/// When several plans stand among a subtest's children, the last one
/// wins: a further plan node at the end replaces the plan and leaves the
/// body as it was.
pub proof fn lemma_subtest_last_plan_wins(ch: Seq<NodeV>, p: NodeV)
    requires
        sb_subtest(ch) is Ok,
        p.rule is Plan,
        sb_plan(p.children) is Ok,
    ensures
        sb_subtest(ch.push(p)) == Ok::<SubtestV, TapErrorV>(
            SubtestV { plan: sb_plan(p.children)->Ok_0, ..sb_subtest(ch)->Ok_0 },
        ),
{
    assert(ch.len() > 0 ==> ch.push(p)[0] == ch[0]);
    let has_name = ch.len() > 0 && ch[0].rule is Name;
    let rest = if has_name {
        ch.drop_first()
    } else {
        ch
    };
    let t = ch.push(p);
    let rest2 = if has_name {
        t.drop_first()
    } else {
        t
    };
    assert(rest2 =~= rest.push(p));
    let cs = sb_contents(rest)->Ok_0;
    assert(rest.push(p).drop_last() =~= rest);
    assert(rest.push(p).last() == p);
    assert(sb_contents(rest.push(p)) == Ok::<Seq<ContentV>, TapErrorV>(
        cs.push(ContentV::Plan(sb_plan(p.children)->Ok_0)),
    ));
    assert(cs.push(ContentV::Plan(sb_plan(p.children)->Ok_0)).drop_last() =~= cs);
    assert(stmts_of(cs.push(ContentV::Plan(sb_plan(p.children)->Ok_0))) =~= stmts_of(cs));
}

/// Directive keys classify case-insensitively: any spelling that folds to
/// `skip` or `todo` yields that key, and classification sees only the
/// folded text.
pub proof fn lemma_directive_key_case_insensitive(key: Seq<char>)
    ensures
        lower_seq(key) == "skip"@ ==> sb_key(key) == Ok::<Key, TapErrorV>(Key::Skip),
        lower_seq(key) == "todo"@ ==> sb_key(key) == Ok::<Key, TapErrorV>(Key::Todo),
        sb_key(key) == sb_key(lower_seq(key)),
{
    reveal_strlit("skip");
    reveal_strlit("todo");
    assert("skip"@ != "todo"@) by {
        assert("skip"@[0] == 's' && "todo"@[0] == 't');
    }
    assert(lower_seq(key).len() == key.len());
    assert(lower_seq(lower_seq(key)) =~= lower_seq(key)) by {
        assert forall|i: int| 0 <= i < key.len() implies lower(#[trigger] lower_seq(key)[i])
            == lower_seq(key)[i] by {
            assert(lower_seq(key)[i] == lower(key[i]));
        }
    }
    if lower_seq(key) == "todo"@ {
        assert(sb_key(key) == Ok::<Key, TapErrorV>(Key::Todo));
    }
}

/// Appending a test's child nodes one step beyond a well-formed list
/// refines the fold.
proof fn lemma_test_fold_push(ch: Seq<NodeV>, x: NodeV, i: int, acc: TestV)
    requires
        0 <= i <= ch.len(),
    ensures
        sb_test_fold(ch.push(x), i, acc) == (match sb_test_fold(ch, i, acc) {
            Ok(a) => sb_test_step(a, x),
            Err(e) => Err(e),
        }),
    decreases ch.len() - i,
{
    let t = ch.push(x);
    if i == ch.len() {
        assert(t[i] == x);
        assert(sb_test_fold(ch, i, acc) == Ok::<TestV, TapErrorV>(acc));
        match sb_test_step(acc, x) {
            Ok(acc2) => {
                assert(sb_test_fold(t, i + 1, acc2) == Ok::<TestV, TapErrorV>(acc2));
            },
            Err(_) => {
            },
        }
    } else {
        assert(t[i] == ch[i]);
        match sb_test_step(acc, ch[i]) {
            Ok(acc2) => {
                lemma_test_fold_push(ch, x, i + 1, acc2);
            },
            Err(_) => {
            },
        }
    }
}

/// YAML blocks attached to one test concatenate, in source order: one
/// more block node appends exactly its captured lines, and changes
/// nothing else about the test.
pub proof fn lemma_test_yaml_concatenates(ch: Seq<NodeV>, yb: NodeV)
    requires
        sb_test(ch) is Ok,
        yb.rule is YamlBlock,
    ensures
        sb_test(ch.push(yb)) == Ok::<TestV, TapErrorV>(
            TestV { yaml: sb_test(ch)->Ok_0.yaml + texts_of(yb.children), ..sb_test(ch)->Ok_0 },
        ),
{
    assert(ch.len() >= 1 && ch[0].rule is ResultWord);
    assert(ch.push(yb)[0] == ch[0]);
    let acc0 = TestV {
        result: crate::builders::sb_result_word(ch[0].text)->Ok_0,
        number: None,
        description: None,
        directive: None,
        yaml: Seq::empty(),
    };
    lemma_test_fold_push(ch, yb, 1, acc0);
}


/// The YAML lines a test's child nodes carry from position `i` on: the
/// captured lines of each block child, concatenated in source order.
pub open spec fn yaml_texts_from(ch: Seq<NodeV>, i: int) -> Seq<Seq<char>>
    decreases ch.len() - i,
{
    if i < 0 || i >= ch.len() {
        Seq::empty()
    } else {
        (if ch[i].rule is YamlBlock {
            texts_of(ch[i].children)
        } else {
            Seq::<Seq<char>>::empty()
        }) + yaml_texts_from(ch, i + 1)
    }
}

/// The fold accumulates exactly the block children's lines onto whatever
/// it started with.
proof fn lemma_test_fold_yaml(ch: Seq<NodeV>, i: int, acc: TestV)
    requires
        0 <= i <= ch.len(),
        sb_test_fold(ch, i, acc) is Ok,
    ensures
        sb_test_fold(ch, i, acc)->Ok_0.yaml == acc.yaml + yaml_texts_from(ch, i),
    decreases ch.len() - i,
{
    if i == ch.len() {
        assert(acc.yaml + yaml_texts_from(ch, i) =~= acc.yaml);
    } else {
        match sb_test_step(acc, ch[i]) {
            Ok(acc2) => {
                lemma_test_fold_yaml(ch, i + 1, acc2);
                if ch[i].rule is YamlBlock {
                    assert((acc.yaml + texts_of(ch[i].children)) + yaml_texts_from(ch, i + 1)
                        =~= acc.yaml + (texts_of(ch[i].children) + yaml_texts_from(ch, i + 1)));
                } else {
                    assert(acc2.yaml == acc.yaml);
                    assert(acc.yaml + (Seq::<Seq<char>>::empty() + yaml_texts_from(ch, i + 1))
                        =~= acc.yaml + yaml_texts_from(ch, i + 1));
                }
            },
            Err(_) => {
            },
        }
    }
}

/// Every YAML block of a test, in general: a test node builds with
/// exactly the captured lines of its block children, first block to last,
/// nothing dropped, nothing added, nothing reinterpreted.
pub proof fn lemma_test_yaml_lines(ch: Seq<NodeV>)
    requires
        sb_test(ch) is Ok,
    ensures
        sb_test(ch)->Ok_0.yaml == yaml_texts_from(ch, 0),
{
    assert(ch.len() >= 1 && ch[0].rule is ResultWord);
    let acc0 = TestV {
        result: crate::builders::sb_result_word(ch[0].text)->Ok_0,
        number: None,
        description: None,
        directive: None,
        yaml: Seq::empty(),
    };
    lemma_test_fold_yaml(ch, 1, acc0);
    assert(acc0.yaml + yaml_texts_from(ch, 1) =~= yaml_texts_from(ch, 1));
    assert(yaml_texts_from(ch, 0) =~= Seq::<Seq<char>>::empty() + yaml_texts_from(ch, 1));
    assert(Seq::<Seq<char>>::empty() + yaml_texts_from(ch, 1) =~= yaml_texts_from(ch, 1));
}

/// A document's plan may precede or follow its body in the source text:
/// two texts whose first significant lines declare the same version, and
/// whose remaining lines scan to the same plan region and the same
/// statement region in either order, parse to the same document — and
/// parsing succeeds.
pub proof fn lemma_document_text_order(t1: Seq<char>, t2: Seq<char>, bp: BlockV, bb: BlockV, bp2: BlockV, bb2: BlockV)
    requires
        skip_light(sp_lines(t1, 0), 0) < sp_lines(t1, 0).len(),
        skip_light(sp_lines(t2, 0), 0) < sp_lines(t2, 0).len(),
        sp_preamble(sp_lines(t1, 0)[skip_light(sp_lines(t1, 0), 0)], 0) is Some,
        sp_preamble(sp_lines(t2, 0)[skip_light(sp_lines(t2, 0), 0)], 0) == sp_preamble(
            sp_lines(t1, 0)[skip_light(sp_lines(t1, 0), 0)],
            0,
        ),
        sp_blocks(sp_lines(t1, 0), skip_light(sp_lines(t1, 0), 0) + 1) == Ok::<
            Seq<BlockV>,
            TapErrorV,
        >(seq![bp, bb]),
        sp_blocks(sp_lines(t2, 0), skip_light(sp_lines(t2, 0), 0) + 1) == Ok::<
            Seq<BlockV>,
            TapErrorV,
        >(seq![bb2, bp2]),
        bp2.node == bp.node,
        bb2.node == bb.node,
        bp.node.rule is Plan,
        bb.node.rule is Body,
        sb_content_block(bp.node) is Ok,
        sb_content_block(bb.node) is Ok,
    ensures
        document_of_text(t1) is Ok,
        document_of_text(t1) == document_of_text(t2),
{
    let ls1 = sp_lines(t1, 0);
    let ls2 = sp_lines(t2, 0);
    let i1 = skip_light(ls1, 0);
    let i2 = skip_light(ls2, 0);
    let v = sp_preamble(ls1[i1], 0)->0;
    let pre = preamble_node(v);
    assert(seq![bp, bb][0] == bp && seq![bp, bb][1] == bb);
    assert(seq![bb2, bp2][0] == bb2 && seq![bb2, bp2][1] == bp2);
    assert(sp_document(ls1) == Ok::<NodeV, TapErrorV>(
        crate::node::par_v(Rule::Document, seq![pre, bp.node, bb.node]),
    ));
    assert(sp_document(ls2) == Ok::<NodeV, TapErrorV>(
        crate::node::par_v(Rule::Document, seq![pre, bb.node, bp.node]),
    ));
    assert(sp_rule(Rule::Document, t1) == sp_document(ls1));
    assert(sp_rule(Rule::Document, t2) == sp_document(ls2));
    lemma_document_region_order(pre, bp.node, bb.node);
    let ch = seq![pre, bp.node, bb.node];
    assert(ch[0] == pre && ch[1] == bp.node && ch[2] == bb.node);
    assert(pre.children == seq![crate::node::tok_v(Rule::Version, v)]);
    assert(pre.children[0] == crate::node::tok_v(Rule::Version, v));
    assert(sb_document(ch) is Ok);
}

} // verus!
