//! From parse nodes to the typed tree.
//!
//! Each builder takes the untyped node a production yielded and produces
//! the typed value, or the semantic error the content calls for: a plan
//! bound no `i32` holds, a directive key other than `skip`/`todo`, a
//! subtest or document without a plan, a document whose two regions are of
//! one kind.  The subtest resolver untangles the one real ambiguity: its
//! plan may stand anywhere among its statements, and when several plans
//! stand there, the last one wins — a recorded tie-break, not an error.
//!
//! A builder handed a node shape the grammar never yields answers with the
//! malformed-node error rather than trusting the shape.

use vstd::prelude::*;

use crate::ast::{
    BailOut, BailOutV, Directive, DirectiveV, Document, DocumentV, Key, Plan, PlanField, PlanV,
    Pragma, PragmaV, Preamble, PreambleV, Statement, StatementV, Subtest, SubtestV, TapError,
    TapErrorV, Test, TestV,
};
use crate::node::{nodes_view, Node, NodeV, Rule};
use crate::text::{lower_seq, parse_i32};

verus! {

/// Classifies a directive key, case-insensitively; any other key is the
/// semantic error, named by its folded text.
pub open spec fn sb_key(key: Seq<char>) -> Result<Key, TapErrorV> {
    if lower_seq(key) == "skip"@ {
        Ok(Key::Skip)
    } else if lower_seq(key) == "todo"@ {
        Ok(Key::Todo)
    } else {
        Err(TapErrorV::BadDirectiveKey { key: lower_seq(key) })
    }
}

/// Classifies a result word, case-insensitively.
pub open spec fn sb_result_word(w: Seq<char>) -> Result<bool, TapErrorV> {
    if lower_seq(w) == "ok"@ {
        Ok(true)
    } else if lower_seq(w) == "not ok"@ {
        Ok(false)
    } else {
        Err(TapErrorV::BadResultWord { word: w })
    }
}

/// What building a preamble from its node's children yields.
pub open spec fn sb_preamble(ch: Seq<NodeV>) -> Result<PreambleV, TapErrorV> {
    if ch.len() == 1 && ch[0].rule is Version {
        Ok(PreambleV { version: ch[0].text })
    } else {
        Err(TapErrorV::Malformed)
    }
}

/// What building a plan yields: each bound token read as an `i32`, a
/// failing bound named together with its raw text.
pub open spec fn sb_plan(ch: Seq<NodeV>) -> Result<PlanV, TapErrorV> {
    if !(ch.len() == 2 && ch[0].rule is First && ch[1].rule is Last || ch.len() == 3
        && ch[0].rule is First && ch[1].rule is Last && ch[2].rule is Reason) {
        Err(TapErrorV::Malformed)
    } else {
        match parse_i32(ch[0].text) {
            None => Err(TapErrorV::BadPlanBound { field: PlanField::First, text: ch[0].text }),
            Some(f) => match parse_i32(ch[1].text) {
                None => Err(TapErrorV::BadPlanBound { field: PlanField::Last, text: ch[1].text }),
                Some(l) => Ok(
                    PlanV {
                        first: f,
                        last: l,
                        reason: if ch.len() == 3 {
                            Some(ch[2].text)
                        } else {
                            None
                        },
                    },
                ),
            },
        }
    }
}

/// What building a directive yields.
pub open spec fn sb_directive(ch: Seq<NodeV>) -> Result<DirectiveV, TapErrorV> {
    if !(ch.len() == 1 && ch[0].rule is Key || ch.len() == 2 && ch[0].rule is Key
        && ch[1].rule is Reason) {
        Err(TapErrorV::Malformed)
    } else {
        match sb_key(ch[0].text) {
            Err(e) => Err(e),
            Ok(k) => Ok(
                DirectiveV {
                    key: k,
                    reason: if ch.len() == 2 {
                        Some(ch[1].text)
                    } else {
                        None
                    },
                },
            ),
        }
    }
}

/// What building a bail-out yields.
pub open spec fn sb_bail(ch: Seq<NodeV>) -> Result<BailOutV, TapErrorV> {
    if ch.len() == 0 {
        Ok(BailOutV { reason: None })
    } else if ch.len() == 1 && ch[0].rule is Reason {
        Ok(BailOutV { reason: Some(ch[0].text) })
    } else {
        Err(TapErrorV::Malformed)
    }
}

/// What building a pragma yields: a `+` flag enables, a `-` flag disables,
/// no flag leaves the option unspecified.
pub open spec fn sb_pragma(ch: Seq<NodeV>) -> Result<PragmaV, TapErrorV> {
    if ch.len() == 1 && ch[0].rule is OptionName {
        Ok(PragmaV { flag: None, option: ch[0].text })
    } else if ch.len() == 2 && ch[0].rule is Flag && ch[1].rule is OptionName {
        if ch[0].text == "+"@ {
            Ok(PragmaV { flag: Some(true), option: ch[1].text })
        } else if ch[0].text == "-"@ {
            Ok(PragmaV { flag: Some(false), option: ch[1].text })
        } else {
            Err(TapErrorV::Malformed)
        }
    } else {
        Err(TapErrorV::Malformed)
    }
}

/// The texts of a sequence of token nodes: the captured lines of a YAML
/// block.
pub open spec fn texts_of(ch: Seq<NodeV>) -> Seq<Seq<char>> {
    Seq::new(ch.len(), |i: int| ch[i].text)
}

/// One step of reading a test's child nodes, in order.  A later number,
/// description or directive silently replaces an earlier one — recorded
/// behavior for a shape the grammar never yields twice.  A number token
/// beyond `i32` leaves the optional number empty; a directive whose own
/// build fails raises that semantic error.  Each YAML block appends its
/// lines.
pub open spec fn sb_test_step(acc: TestV, c: NodeV) -> Result<TestV, TapErrorV> {
    if c.rule is Number {
        Ok(TestV { number: parse_i32(c.text), ..acc })
    } else if c.rule is Description {
        Ok(TestV { description: Some(c.text), ..acc })
    } else if c.rule is Directive {
        match sb_directive(c.children) {
            Ok(d) => Ok(TestV { directive: Some(d), ..acc }),
            Err(e) => Err(e),
        }
    } else if c.rule is YamlBlock {
        Ok(TestV { yaml: acc.yaml + texts_of(c.children), ..acc })
    } else {
        Err(TapErrorV::Malformed)
    }
}

/// Folds the test's child nodes from position `i` on.
pub open spec fn sb_test_fold(ch: Seq<NodeV>, i: int, acc: TestV) -> Result<TestV, TapErrorV>
    decreases ch.len() - i,
{
    if i < 0 || i >= ch.len() {
        Ok(acc)
    } else {
        match sb_test_step(acc, ch[i]) {
            Err(e) => Err(e),
            Ok(acc2) => sb_test_fold(ch, i + 1, acc2),
        }
    }
}

/// What building a test yields: the result word classified, then the
/// remaining children folded in order.
pub open spec fn sb_test(ch: Seq<NodeV>) -> Result<TestV, TapErrorV> {
    if !(ch.len() >= 1 && ch[0].rule is ResultWord) {
        Err(TapErrorV::Malformed)
    } else {
        match sb_result_word(ch[0].text) {
            Err(e) => Err(e),
            Ok(b) => sb_test_fold(
                ch,
                1,
                TestV {
                    result: b,
                    number: None,
                    description: None,
                    directive: None,
                    yaml: Seq::empty(),
                },
            ),
        }
    }
}

/// One classified child of a subtest: a plan candidate, or a statement.
#[verifier::ext_equal]
pub enum ContentV {
    Plan(PlanV),
    Stmt(StatementV),
}

/// What dispatching one node as a statement yields.
pub open spec fn sb_statement(n: NodeV) -> Result<StatementV, TapErrorV>
    decreases n, 0int,
{
    match n.rule {
        Rule::Test => match sb_test(n.children) {
            Err(e) => Err(e),
            Ok(t) => Ok(StatementV::Test(t)),
        },
        Rule::BailOut => match sb_bail(n.children) {
            Err(e) => Err(e),
            Ok(b) => Ok(StatementV::BailOut(b)),
        },
        Rule::Pragma => match sb_pragma(n.children) {
            Err(e) => Err(e),
            Ok(p) => Ok(StatementV::Pragma(p)),
        },
        Rule::Subtest => match sb_subtest(n.children) {
            Err(e) => Err(e),
            Ok(s) => Ok(StatementV::Subtest(s)),
        },
        Rule::Anything => Ok(StatementV::Anything(n.text)),
        _ => Err(TapErrorV::Malformed),
    }
}

/// Classifies a subtest's children after the name, left to right: a plan
/// node becomes a plan candidate, anything else is dispatched as a
/// statement; the first failure is the result.
pub open spec fn sb_contents(rest: Seq<NodeV>) -> Result<Seq<ContentV>, TapErrorV>
    decreases rest, 0int,
{
    if rest.len() == 0 {
        Ok(Seq::empty())
    } else {
        match sb_contents(rest.drop_last()) {
            Err(e) => Err(e),
            Ok(cs) => {
                let c = rest.last();
                if c.rule is Plan {
                    match sb_plan(c.children) {
                        Err(e) => Err(e),
                        Ok(p) => Ok(cs.push(ContentV::Plan(p))),
                    }
                } else {
                    match sb_statement(c) {
                        Err(e) => Err(e),
                        Ok(s) => Ok(cs.push(ContentV::Stmt(s))),
                    }
                }
            },
        }
    }
}

/// The last plan candidate among the classified children, if any: the one
/// that wins the tie-break.
pub open spec fn last_plan(cs: Seq<ContentV>) -> Option<PlanV>
    decreases cs,
{
    if cs.len() == 0 {
        None
    } else {
        match cs.last() {
            ContentV::Plan(p) => Some(p),
            ContentV::Stmt(_) => last_plan(cs.drop_last()),
        }
    }
}

/// The statements among the classified children, kept in source order,
/// every plan candidate removed.
pub open spec fn stmts_of(cs: Seq<ContentV>) -> Seq<StatementV>
    decreases cs,
{
    if cs.len() == 0 {
        Seq::empty()
    } else {
        stmts_of(cs.drop_last()) + (match cs.last() {
            ContentV::Plan(_) => Seq::<StatementV>::empty(),
            ContentV::Stmt(s) => seq![s],
        })
    }
}

/// What resolving a subtest yields: the name token when one leads the
/// children, then the interleaving untangled — the last plan wins, the
/// statements keep their order, and no plan at all is the missing-plan
/// error.
pub open spec fn sb_subtest(ch: Seq<NodeV>) -> Result<SubtestV, TapErrorV>
    decreases ch, 1int,
{
    let has_name = ch.len() > 0 && ch[0].rule is Name;
    let name = if has_name {
        Some(ch[0].text)
    } else {
        None
    };
    let rest = if has_name {
        ch.drop_first()
    } else {
        ch
    };
    match sb_contents(rest) {
        Err(e) => Err(e),
        Ok(cs) => match last_plan(cs) {
            None => Err(TapErrorV::MissingPlan),
            Some(p) => Ok(SubtestV { name, plan: p, body: stmts_of(cs) }),
        },
    }
}

/// One resolved top-level region.
#[verifier::ext_equal]
pub enum DocContentV {
    Plan(PlanV),
    Body(Seq<StatementV>),
}

/// Dispatches a run of statement nodes, in order; the first failure is
/// the result.
pub open spec fn sb_stmt_seq(ch: Seq<NodeV>) -> Result<Seq<StatementV>, TapErrorV>
    decreases ch,
{
    if ch.len() == 0 {
        Ok(Seq::empty())
    } else {
        match sb_stmt_seq(ch.drop_last()) {
            Err(e) => Err(e),
            Ok(ss) => match sb_statement(ch.last()) {
                Err(e) => Err(e),
                Ok(s) => Ok(ss.push(s)),
            },
        }
    }
}

/// What building one top-level region yields.
pub open spec fn sb_content_block(n: NodeV) -> Result<DocContentV, TapErrorV> {
    if n.rule is Plan {
        match sb_plan(n.children) {
            Err(e) => Err(e),
            Ok(p) => Ok(DocContentV::Plan(p)),
        }
    } else if n.rule is Body {
        match sb_stmt_seq(n.children) {
            Err(e) => Err(e),
            Ok(ss) => Ok(DocContentV::Body(ss)),
        }
    } else {
        Err(TapErrorV::Malformed)
    }
}

/// What assembling a document yields: the preamble, then the two regions
/// resolved by kind — one plan and one body in either order succeed; two
/// regions of one kind are the duplicate-region error.
pub open spec fn sb_document(ch: Seq<NodeV>) -> Result<DocumentV, TapErrorV> {
    if !(ch.len() == 3 && ch[0].rule is Preamble) {
        Err(TapErrorV::Malformed)
    } else {
        match sb_preamble(ch[0].children) {
            Err(e) => Err(e),
            Ok(pre) => match sb_content_block(ch[1]) {
                Err(e) => Err(e),
                Ok(c1) => match sb_content_block(ch[2]) {
                    Err(e) => Err(e),
                    Ok(c2) => match (c1, c2) {
                        (DocContentV::Plan(p), DocContentV::Body(b)) => Ok(
                            DocumentV { preamble: pre, plan: p, body: b },
                        ),
                        (DocContentV::Body(b), DocContentV::Plan(p)) => Ok(
                            DocumentV { preamble: pre, plan: p, body: b },
                        ),
                        _ => Err(TapErrorV::DuplicateBlock),
                    },
                },
            },
        }
    }
}

} // verus!

verus! {

use crate::node::{lemma_nodes_view_index, lemma_nodes_view_len};
use crate::syntax::strs_view;
use crate::text::{lower_str, parse_i32_str, str_lower_is};

impl Preamble {
    /// Builds a preamble from its node's children.
    fn parse(children: &Vec<Node>) -> (r: Result<Preamble, TapError>)
        ensures
            match r {
                Ok(p) => sb_preamble(nodes_view(children@)) == Ok::<PreambleV, TapErrorV>(p@),
                Err(e) => sb_preamble(nodes_view(children@)) == Err::<PreambleV, TapErrorV>(e@),
            },
    {
        proof {
            lemma_nodes_view_len(children@);
        }
        if children.len() == 1 {
            proof {
                lemma_nodes_view_index(children@, 0);
            }
            let c = &children[0];
            if matches!(c.rule, Rule::Version) {
                return Ok(Preamble { version: c.text.clone() });
            }
        }
        Err(TapError::Malformed)
    }
}

impl Plan {
    /// Builds a plan from its node's children, reading each bound as an
    /// `i32`.
    fn parse(children: &Vec<Node>) -> (r: Result<Plan, TapError>)
        ensures
            match r {
                Ok(p) => sb_plan(nodes_view(children@)) == Ok::<PlanV, TapErrorV>(p@),
                Err(e) => sb_plan(nodes_view(children@)) == Err::<PlanV, TapErrorV>(e@),
            },
    {
        proof {
            lemma_nodes_view_len(children@);
        }
        let shape_ok = if children.len() == 2 || children.len() == 3 {
            proof {
                lemma_nodes_view_index(children@, 0);
                lemma_nodes_view_index(children@, 1);
                if children@.len() == 3 {
                    lemma_nodes_view_index(children@, 2);
                }
            }
            matches!(children[0].rule, Rule::First) && matches!(children[1].rule, Rule::Last) && (
            children.len() == 2 || matches!(children[2].rule, Rule::Reason))
        } else {
            false
        };
        if !shape_ok {
            return Err(TapError::Malformed);
        }
        let first = match parse_i32_str(children[0].text.as_str()) {
            Some(v) => v,
            None => {
                return Err(
                    TapError::BadPlanBound {
                        field: PlanField::First,
                        text: children[0].text.clone(),
                    },
                );
            },
        };
        let last = match parse_i32_str(children[1].text.as_str()) {
            Some(v) => v,
            None => {
                return Err(
                    TapError::BadPlanBound {
                        field: PlanField::Last,
                        text: children[1].text.clone(),
                    },
                );
            },
        };
        let reason: Option<String> = if children.len() == 3 {
            Some(children[2].text.clone())
        } else {
            None
        };
        Ok(Plan { first, last, reason })
    }
}

impl Directive {
    /// Builds a directive from its node's children, classifying the key
    /// case-insensitively.
    fn parse(children: &Vec<Node>) -> (r: Result<Directive, TapError>)
        ensures
            match r {
                Ok(d) => sb_directive(nodes_view(children@)) == Ok::<DirectiveV, TapErrorV>(d@),
                Err(e) => sb_directive(nodes_view(children@)) == Err::<DirectiveV, TapErrorV>(
                    e@,
                ),
            },
    {
        proof {
            lemma_nodes_view_len(children@);
        }
        let shape_ok = if children.len() == 1 || children.len() == 2 {
            proof {
                lemma_nodes_view_index(children@, 0);
                if children@.len() == 2 {
                    lemma_nodes_view_index(children@, 1);
                }
            }
            matches!(children[0].rule, Rule::Key) && (children.len() == 1 || matches!(
                children[1].rule,
                Rule::Reason,
            ))
        } else {
            false
        };
        if !shape_ok {
            return Err(TapError::Malformed);
        }
        let key = if str_lower_is(children[0].text.as_str(), "skip") {
            Key::Skip
        } else if str_lower_is(children[0].text.as_str(), "todo") {
            Key::Todo
        } else {
            return Err(TapError::BadDirectiveKey { key: lower_str(children[0].text.as_str()) });
        };
        let reason: Option<String> = if children.len() == 2 {
            Some(children[1].text.clone())
        } else {
            None
        };
        Ok(Directive { key, reason })
    }
}

impl BailOut {
    /// Builds a bail-out from its node's children.
    fn parse(children: &Vec<Node>) -> (r: Result<BailOut, TapError>)
        ensures
            match r {
                Ok(b) => sb_bail(nodes_view(children@)) == Ok::<BailOutV, TapErrorV>(b@),
                Err(e) => sb_bail(nodes_view(children@)) == Err::<BailOutV, TapErrorV>(e@),
            },
    {
        proof {
            lemma_nodes_view_len(children@);
        }
        if children.len() == 0 {
            return Ok(BailOut { reason: None });
        }
        if children.len() == 1 {
            proof {
                lemma_nodes_view_index(children@, 0);
            }
            if matches!(children[0].rule, Rule::Reason) {
                return Ok(BailOut { reason: Some(children[0].text.clone()) });
            }
        }
        Err(TapError::Malformed)
    }
}

impl Pragma {
    /// Builds a pragma from its node's children.
    pub fn parse(children: &Vec<Node>) -> (r: Result<Pragma, TapError>)
        ensures
            match r {
                Ok(p) => sb_pragma(nodes_view(children@)) == Ok::<PragmaV, TapErrorV>(p@),
                Err(e) => sb_pragma(nodes_view(children@)) == Err::<PragmaV, TapErrorV>(e@),
            },
    {
        proof {
            lemma_nodes_view_len(children@);
            reveal_strlit("+");
            reveal_strlit("-");
        }
        if children.len() == 1 {
            proof {
                lemma_nodes_view_index(children@, 0);
            }
            if matches!(children[0].rule, Rule::OptionName) {
                return Ok(Pragma { flag: None, option: children[0].text.clone() });
            }
            return Err(TapError::Malformed);
        }
        if children.len() == 2 {
            proof {
                lemma_nodes_view_index(children@, 0);
                lemma_nodes_view_index(children@, 1);
            }
            if matches!(children[0].rule, Rule::Flag) && matches!(
                children[1].rule,
                Rule::OptionName,
            ) {
                let f = &children[0].text;
                let flag = if f.as_str().unicode_len() == 1 && f.as_str().get_char(0) == '+' {
                    proof {
                        assert(f@ =~= "+"@);
                    }
                    Some(true)
                } else if f.as_str().unicode_len() == 1 && f.as_str().get_char(0) == '-' {
                    proof {
                        assert(f@ =~= "-"@);
                    }
                    Some(false)
                } else {
                    proof {
                        assert(f@ != "+"@ && f@ != "-"@);
                    }
                    return Err(TapError::Malformed);
                };
                return Ok(Pragma { flag, option: children[1].text.clone() });
            }
        }
        Err(TapError::Malformed)
    }
}

} // verus!

verus! {

/// A failing prefix settles the whole classification.
proof fn lemma_contents_prefix_err(s: Seq<NodeV>, q: int, e: TapErrorV)
    requires
        0 <= q <= s.len(),
        sb_contents(s.take(q)) == Err::<Seq<ContentV>, TapErrorV>(e),
    ensures
        sb_contents(s) == Err::<Seq<ContentV>, TapErrorV>(e),
    decreases s.len() - q,
{
    if q < s.len() {
        assert(s.take(q + 1).drop_last() =~= s.take(q));
        assert(s.take(q + 1).len() == q + 1);
        lemma_contents_prefix_err(s, q + 1, e);
    } else {
        assert(s.take(q) =~= s);
    }
}

/// A failing prefix settles the whole dispatch of a statement run.
proof fn lemma_stmt_seq_prefix_err(s: Seq<NodeV>, q: int, e: TapErrorV)
    requires
        0 <= q <= s.len(),
        sb_stmt_seq(s.take(q)) == Err::<Seq<StatementV>, TapErrorV>(e),
    ensures
        sb_stmt_seq(s) == Err::<Seq<StatementV>, TapErrorV>(e),
    decreases s.len() - q,
{
    if q < s.len() {
        assert(s.take(q + 1).drop_last() =~= s.take(q));
        assert(s.take(q + 1).len() == q + 1);
        lemma_stmt_seq_prefix_err(s, q + 1, e);
    } else {
        assert(s.take(q) =~= s);
    }
}

impl Test {
    /// Builds a test from its node's children: the result word first, then
    /// number, description, directive and YAML blocks in whatever order
    /// they stand.
    fn parse(children: &Vec<Node>) -> (r: Result<Test, TapError>)
        ensures
            match r {
                Ok(t) => sb_test(nodes_view(children@)) == Ok::<TestV, TapErrorV>(t@),
                Err(e) => sb_test(nodes_view(children@)) == Err::<TestV, TapErrorV>(e@),
            },
    {
        proof {
            lemma_nodes_view_len(children@);
            reveal_strlit("ok");
            reveal_strlit("not ok");
        }
        let ghost chv = nodes_view(children@);
        if children.len() < 1 {
            return Err(TapError::Malformed);
        }
        proof {
            lemma_nodes_view_index(children@, 0);
        }
        let c0 = &children[0];
        if !matches!(c0.rule, Rule::ResultWord) {
            return Err(TapError::Malformed);
        }
        let result = if str_lower_is(c0.text.as_str(), "ok") {
            true
        } else if str_lower_is(c0.text.as_str(), "not ok") {
            false
        } else {
            return Err(TapError::BadResultWord { word: c0.text.clone() });
        };
        let mut number: Option<i32> = None;
        let mut description: Option<String> = None;
        let mut directive: Option<Directive> = None;
        let mut yaml: Vec<String> = Vec::new();
        proof {
            assert(strs_view(yaml@) =~= Seq::<Seq<char>>::empty());
        }
        let mut k: usize = 1;
        while k < children.len()
            invariant
                1 <= k <= children@.len(),
                chv == nodes_view(children@),
                chv.len() == children@.len(),
                sb_test(chv) == sb_test_fold(
                    chv,
                    k as int,
                    TestV {
                        result,
                        number,
                        description: description.deep_view(),
                        directive: (match directive {
                            Some(d) => Some(d@),
                            None => None,
                        }),
                        yaml: strs_view(yaml@),
                    },
                ),
            decreases children@.len() - k,
        {
            proof {
                lemma_nodes_view_index(children@, k as int);
            }
            let ghost acc_pre = TestV {
                result,
                number,
                description: description.deep_view(),
                directive: (match directive {
                    Some(ref d) => Some(d@),
                    None => None,
                }),
                yaml: strs_view(yaml@),
            };
            let c = &children[k];
            match c.rule {
                Rule::Number => {
                    number = parse_i32_str(c.text.as_str());
                },
                Rule::Description => {
                    description = Some(c.text.clone());
                },
                Rule::Directive => {
                    directive = match Directive::parse(&c.children) {
                        Ok(d) => Some(d),
                        Err(e) => {
                            return Err(e);
                        },
                    };
                },
                Rule::YamlBlock => {
                    let cc = &c.children;
                    proof {
                        lemma_nodes_view_len(cc@);
                    }
                    let mut ys: Vec<String> = Vec::new();
                    proof {
                        assert(strs_view(ys@) =~= texts_of(nodes_view(cc@)).take(0));
                    }
                    let mut q: usize = 0;
                    while q < cc.len()
                        invariant
                            q <= cc@.len(),
                            nodes_view(cc@).len() == cc@.len(),
                            strs_view(ys@) == texts_of(nodes_view(cc@)).take(q as int),
                        decreases cc@.len() - q,
                    {
                        proof {
                            lemma_nodes_view_index(cc@, q as int);
                        }
                        let ghost yprev = ys@;
                        ys.push(cc[q].text.clone());
                        q = q + 1;
                        proof {
                            let tv = texts_of(nodes_view(cc@));
                            assert(strs_view(yprev).len() == yprev.len());
                            assert(tv.take(q - 1).len() == q - 1);
                            assert(yprev.len() == q - 1);
                            assert(ys@.len() == q);
                            assert(ys@[q - 1]@ == tv[q - 1]);
                            assert forall|p: int| 0 <= p < q implies strs_view(ys@)[p]
                                == tv.take(q as int)[p] by {
                                assert(strs_view(ys@)[p] == ys@[p]@);
                                if p < q - 1 {
                                    assert(ys@[p] == yprev[p]);
                                    assert(strs_view(yprev)[p] == yprev[p]@);
                                    assert(strs_view(yprev)[p] == tv.take(q - 1)[p]);
                                }
                            }
                            assert(strs_view(ys@) =~= tv.take(q as int));
                        }
                    }
                    proof {
                        assert(texts_of(nodes_view(cc@)).take(cc@.len() as int) =~= texts_of(
                            nodes_view(cc@),
                        ));
                        assert(strs_view(yaml@ + ys@) =~= strs_view(yaml@) + strs_view(ys@));
                    }
                    yaml.append(&mut ys);
                },
                _ => {
                    return Err(TapError::Malformed);
                },
            }
            k = k + 1;
            proof {
                let acc_post = TestV {
                    result,
                    number,
                    description: description.deep_view(),
                    directive: (match directive {
                        Some(ref d) => Some(d@),
                        None => None,
                    }),
                    yaml: strs_view(yaml@),
                };
                assert(sb_test_step(acc_pre, chv[k - 1]) == Ok::<TestV, TapErrorV>(acc_post));
            }
        }
        let t = Test { result, number, description, directive, yaml };
        proof {
            assert(t.yaml.deep_view() =~= strs_view(t.yaml@));
            assert(t@ =~= TestV {
                result,
                number,
                description: t.description.deep_view(),
                directive: (match t.directive {
                    Some(ref d) => Some(d@),
                    None => None,
                }),
                yaml: strs_view(t.yaml@),
            });
        }
        Ok(t)
    }
}

impl Statement {
    /// Dispatches one node to the statement variant its tag names.
    pub fn parse(n: &Node) -> (r: Result<Statement, TapError>)
        ensures
            match r {
                Ok(s) => sb_statement(n@) == Ok::<StatementV, TapErrorV>(s@),
                Err(e) => sb_statement(n@) == Err::<StatementV, TapErrorV>(e@),
            },
        decreases n, 0int,
    {
        match n.rule {
            Rule::Test => match Test::parse(&n.children) {
                Ok(t) => Ok(Statement::Test(t)),
                Err(e) => Err(e),
            },
            Rule::BailOut => match BailOut::parse(&n.children) {
                Ok(b) => Ok(Statement::BailOut(b)),
                Err(e) => Err(e),
            },
            Rule::Pragma => match Pragma::parse(&n.children) {
                Ok(p) => Ok(Statement::Pragma(p)),
                Err(e) => Err(e),
            },
            Rule::Subtest => match Subtest::parse(&n.children) {
                Ok(s) => Ok(Statement::Subtest(s)),
                Err(e) => Err(e),
            },
            Rule::Anything => Ok(Statement::Anything(n.text.clone())),
            _ => Err(TapError::Malformed),
        }
    }
}

impl Subtest {
    /// Resolves a subtest's children: the optional name, then one pass
    /// over the interleaving — plan candidates aside (the last one wins),
    /// statements in order; no plan at all is the missing-plan error.
    pub fn parse(children: &Vec<Node>) -> (r: Result<Subtest, TapError>)
        ensures
            match r {
                Ok(s) => sb_subtest(nodes_view(children@)) == Ok::<SubtestV, TapErrorV>(s@),
                Err(e) => sb_subtest(nodes_view(children@)) == Err::<SubtestV, TapErrorV>(e@),
            },
        decreases children, 1int,
    {
        proof {
            lemma_nodes_view_len(children@);
        }
        let ghost chv = nodes_view(children@);
        let mut name: Option<String> = None;
        let mut start: usize = 0;
        if children.len() > 0 {
            proof {
                lemma_nodes_view_index(children@, 0);
            }
            let c0 = &children[0];
            if matches!(c0.rule, Rule::Name) {
                name = Some(c0.text.clone());
                start = 1;
            }
        }
        let ghost rest = if start == 1 {
            chv.drop_first()
        } else {
            chv
        };
        let mut plan: Option<Plan> = None;
        let mut body: Vec<Statement> = Vec::new();
        let ghost mut cs: Seq<ContentV> = Seq::empty();
        proof {
            assert(rest.take(0) =~= Seq::<NodeV>::empty());
            assert(crate::ast::stmts_view(body@) =~= Seq::<StatementV>::empty());
        }
        let mut k: usize = start;
        while k < children.len()
            invariant
                start <= k <= children@.len(),
                start == 0 || start == 1,
                (start == 1) == (chv.len() > 0 && chv[0].rule is Name),
                name.deep_view() == (if start == 1 {
                    Some(chv[0].text)
                } else {
                    None::<Seq<char>>
                }),
                chv == nodes_view(children@),
                chv.len() == children@.len(),
                rest == (if start == 1 {
                    chv.drop_first()
                } else {
                    chv
                }),
                rest.len() == chv.len() - start,
                sb_contents(rest.take(k - start)) == Ok::<Seq<ContentV>, TapErrorV>(cs),
                last_plan(cs) == (match plan {
                    Some(p) => Some(p@),
                    None => None,
                }),
                stmts_of(cs) == crate::ast::stmts_view(body@),
            decreases children@.len() - k,
        {
            proof {
                lemma_nodes_view_index(children@, k as int);
                assert(rest[k - start] == chv[k as int]);
                assert(rest.take(k + 1 - start).drop_last() =~= rest.take(k - start));
                assert(rest.take(k + 1 - start).last() == rest[k - start]);
            }
            let c = &children[k];
            if matches!(c.rule, Rule::Plan) {
                match Plan::parse(&c.children) {
                    Err(e) => {
                        proof {
                            lemma_contents_prefix_err(rest, k + 1 - start, e@);
                        }
                        return Err(e);
                    },
                    Ok(p) => {
                        proof {
                            let prev = cs;
                            cs = cs.push(ContentV::Plan(p@));
                            assert(cs.drop_last() =~= prev);
                            assert(cs.last() == ContentV::Plan(p@));
                            assert(stmts_of(cs) =~= crate::ast::stmts_view(body@));
                        }
                        plan = Some(p);
                    },
                }
            } else {
                match Statement::parse(c) {
                    Err(e) => {
                        proof {
                            lemma_contents_prefix_err(rest, k + 1 - start, e@);
                        }
                        return Err(e);
                    },
                    Ok(s) => {
                        proof {
                            let prev = cs;
                            cs = cs.push(ContentV::Stmt(crate::ast::stmt_view(s)));
                            assert(cs.drop_last() =~= prev);
                            assert(cs.last() == ContentV::Stmt(crate::ast::stmt_view(s)));
                            crate::ast::lemma_stmts_view_push(body@, s);
                            assert(stmts_of(cs) =~= crate::ast::stmts_view(body@).push(
                                crate::ast::stmt_view(s),
                            ));
                        }
                        body.push(s);
                    },
                }
            }
            k = k + 1;
        }
        proof {
            assert(rest.take(k - start) =~= rest);
        }
        match plan {
            None => Err(TapError::MissingPlan),
            Some(p) => {
                let st = Subtest { name, plan: p, body };
                proof {
                    assert(st@ =~= SubtestV {
                        name: st.name.deep_view(),
                        plan: st.plan@,
                        body: crate::ast::stmts_view(st.body@),
                    });
                }
                Ok(st)
            },
        }
    }
}

} // verus!

verus! {

use crate::node::Rule as R;
use crate::syntax::{sp_rule, TAPParser};

/// One resolved top-level region, typed.
enum DocumentContent {
    Plan(Plan),
    Body(Vec<Statement>),
}

/// Model of a [`DocumentContent`].
spec fn doc_content_view(d: DocumentContent) -> DocContentV {
    match d {
        DocumentContent::Plan(p) => DocContentV::Plan(p@),
        DocumentContent::Body(b) => DocContentV::Body(crate::ast::stmts_view(b@)),
    }
}

impl DocumentContent {
    /// Builds one top-level region from its node.
    fn parse(n: &Node) -> (r: Result<DocumentContent, TapError>)
        ensures
            match r {
                Ok(d) => sb_content_block(n@) == Ok::<DocContentV, TapErrorV>(
                    doc_content_view(d),
                ),
                Err(e) => sb_content_block(n@) == Err::<DocContentV, TapErrorV>(e@),
            },
    {
        match n.rule {
            Rule::Plan => match Plan::parse(&n.children) {
                Ok(p) => Ok(DocumentContent::Plan(p)),
                Err(e) => Err(e),
            },
            Rule::Body => {
                let cc = &n.children;
                proof {
                    lemma_nodes_view_len(cc@);
                }
                let mut out: Vec<Statement> = Vec::new();
                proof {
                    assert(crate::ast::stmts_view(out@) =~= Seq::<StatementV>::empty());
                    assert(nodes_view(cc@).take(0) =~= Seq::<NodeV>::empty());
                }
                let mut k: usize = 0;
                while k < cc.len()
                    invariant
                        k <= cc@.len(),
                        n@.rule is Body,
                        cc@ == n.children@,
                        nodes_view(cc@).len() == cc@.len(),
                        sb_stmt_seq(nodes_view(cc@).take(k as int)) == Ok::<
                            Seq<StatementV>,
                            TapErrorV,
                        >(crate::ast::stmts_view(out@)),
                    decreases cc@.len() - k,
                {
                    proof {
                        lemma_nodes_view_index(cc@, k as int);
                        assert(nodes_view(cc@).take(k + 1).drop_last() =~= nodes_view(
                            cc@,
                        ).take(k as int));
                        assert(nodes_view(cc@).take(k + 1).last() == nodes_view(cc@)[k as int]);
                    }
                    match Statement::parse(&cc[k]) {
                        Err(e) => {
                            proof {
                                lemma_stmt_seq_prefix_err(nodes_view(cc@), k + 1, e@);
                            }
                            return Err(e);
                        },
                        Ok(st) => {
                            proof {
                                crate::ast::lemma_stmts_view_push(out@, st);
                            }
                            out.push(st);
                        },
                    }
                    k = k + 1;
                }
                proof {
                    assert(nodes_view(cc@).take(cc@.len() as int) =~= nodes_view(cc@));
                }
                Ok(DocumentContent::Body(out))
            },
            _ => Err(TapError::Malformed),
        }
    }
}

impl Document {
    /// Assembles a document from its node's children: the preamble and two
    /// regions, resolved by kind.
    pub fn parse(children: &Vec<Node>) -> (r: Result<Document, TapError>)
        ensures
            match r {
                Ok(d) => sb_document(nodes_view(children@)) == Ok::<DocumentV, TapErrorV>(d@),
                Err(e) => sb_document(nodes_view(children@)) == Err::<DocumentV, TapErrorV>(e@),
            },
    {
        proof {
            lemma_nodes_view_len(children@);
        }
        if children.len() != 3 {
            return Err(TapError::Malformed);
        }
        proof {
            lemma_nodes_view_index(children@, 0);
            lemma_nodes_view_index(children@, 1);
            lemma_nodes_view_index(children@, 2);
        }
        if !matches!(children[0].rule, Rule::Preamble) {
            return Err(TapError::Malformed);
        }
        let preamble = match Preamble::parse(&children[0].children) {
            Ok(p) => p,
            Err(e) => {
                return Err(e);
            },
        };
        let c1 = match DocumentContent::parse(&children[1]) {
            Ok(c) => c,
            Err(e) => {
                return Err(e);
            },
        };
        let c2 = match DocumentContent::parse(&children[2]) {
            Ok(c) => c,
            Err(e) => {
                return Err(e);
            },
        };
        match (c1, c2) {
            (DocumentContent::Plan(plan), DocumentContent::Body(body)) => Ok(
                Document { preamble, plan, body },
            ),
            (DocumentContent::Body(body), DocumentContent::Plan(plan)) => Ok(
                Document { preamble, plan, body },
            ),
            _ => Err(TapError::DuplicateBlock),
        }
    }
}

// --- parsing from text: the contracts each entry point satisfies ---

/// What `Preamble::parse_from_str` yields on any text.
pub open spec fn preamble_of_text(t: Seq<char>) -> Result<PreambleV, TapErrorV> {
    match sp_rule(R::Preamble, t) {
        Err(e) => Err(e),
        Ok(n) => sb_preamble(n.children),
    }
}

/// What `Plan::parse_from_str` yields on any text.
pub open spec fn plan_of_text(t: Seq<char>) -> Result<PlanV, TapErrorV> {
    match sp_rule(R::Plan, t) {
        Err(e) => Err(e),
        Ok(n) => sb_plan(n.children),
    }
}

/// What `Directive::parse_from_str` yields on any text.
pub open spec fn directive_of_text(t: Seq<char>) -> Result<DirectiveV, TapErrorV> {
    match sp_rule(R::Directive, t) {
        Err(e) => Err(e),
        Ok(n) => sb_directive(n.children),
    }
}

/// What `Test::parse_from_str` yields on any text.
pub open spec fn test_of_text(t: Seq<char>) -> Result<TestV, TapErrorV> {
    match sp_rule(R::Test, t) {
        Err(e) => Err(e),
        Ok(n) => sb_test(n.children),
    }
}

/// What `BailOut::parse_from_str` yields on any text.
pub open spec fn bail_out_of_text(t: Seq<char>) -> Result<BailOutV, TapErrorV> {
    match sp_rule(R::BailOut, t) {
        Err(e) => Err(e),
        Ok(n) => sb_bail(n.children),
    }
}

/// What `Pragma::parse_from_str` yields on any text.
pub open spec fn pragma_of_text(t: Seq<char>) -> Result<PragmaV, TapErrorV> {
    match sp_rule(R::Pragma, t) {
        Err(e) => Err(e),
        Ok(n) => sb_pragma(n.children),
    }
}

/// What `Subtest::parse_from_str` yields on any text.
pub open spec fn subtest_of_text(t: Seq<char>) -> Result<SubtestV, TapErrorV> {
    match sp_rule(R::Subtest, t) {
        Err(e) => Err(e),
        Ok(n) => sb_subtest(n.children),
    }
}

/// What `Statement::parse_from_str` yields on any text.
pub open spec fn statement_of_text(t: Seq<char>) -> Result<StatementV, TapErrorV> {
    match sp_rule(R::Statement, t) {
        Err(e) => Err(e),
        Ok(n) => sb_statement(n),
    }
}

/// What `Document::parse_from_str` yields on any text: the headline
/// contract of the crate.
pub open spec fn document_of_text(t: Seq<char>) -> Result<DocumentV, TapErrorV> {
    match sp_rule(R::Document, t) {
        Err(e) => Err(e),
        Ok(n) => sb_document(n.children),
    }
}

impl Preamble {
    /// Reads a preamble from text.
    pub fn parse_from_str(content: &str) -> (r: Result<Preamble, TapError>)
        ensures
            match r {
                Ok(p) => preamble_of_text(content@) == Ok::<PreambleV, TapErrorV>(p@),
                Err(e) => preamble_of_text(content@) == Err::<PreambleV, TapErrorV>(e@),
            },
    {
        match TAPParser::parse(R::Preamble, content) {
            Err(e) => Err(e),
            Ok(n) => Preamble::parse(&n.children),
        }
    }
}

impl Plan {
    /// Reads a plan from text.
    pub fn parse_from_str(content: &str) -> (r: Result<Plan, TapError>)
        ensures
            match r {
                Ok(p) => plan_of_text(content@) == Ok::<PlanV, TapErrorV>(p@),
                Err(e) => plan_of_text(content@) == Err::<PlanV, TapErrorV>(e@),
            },
    {
        match TAPParser::parse(R::Plan, content) {
            Err(e) => Err(e),
            Ok(n) => Plan::parse(&n.children),
        }
    }
}

impl Directive {
    /// Reads a directive from text.
    pub fn parse_from_str(content: &str) -> (r: Result<Directive, TapError>)
        ensures
            match r {
                Ok(d) => directive_of_text(content@) == Ok::<DirectiveV, TapErrorV>(d@),
                Err(e) => directive_of_text(content@) == Err::<DirectiveV, TapErrorV>(e@),
            },
    {
        match TAPParser::parse(R::Directive, content) {
            Err(e) => Err(e),
            Ok(n) => Directive::parse(&n.children),
        }
    }
}

impl Test {
    /// Reads a test point, with any attached YAML blocks, from text.
    pub fn parse_from_str(content: &str) -> (r: Result<Test, TapError>)
        ensures
            match r {
                Ok(t) => test_of_text(content@) == Ok::<TestV, TapErrorV>(t@),
                Err(e) => test_of_text(content@) == Err::<TestV, TapErrorV>(e@),
            },
    {
        match TAPParser::parse(R::Test, content) {
            Err(e) => Err(e),
            Ok(n) => Test::parse(&n.children),
        }
    }
}

impl BailOut {
    /// Reads a bail-out from text.
    pub fn parse_from_str(content: &str) -> (r: Result<BailOut, TapError>)
        ensures
            match r {
                Ok(b) => bail_out_of_text(content@) == Ok::<BailOutV, TapErrorV>(b@),
                Err(e) => bail_out_of_text(content@) == Err::<BailOutV, TapErrorV>(e@),
            },
    {
        match TAPParser::parse(R::BailOut, content) {
            Err(e) => Err(e),
            Ok(n) => BailOut::parse(&n.children),
        }
    }
}

impl Pragma {
    /// Reads a pragma from text.
    pub fn parse_from_str(content: &str) -> (r: Result<Pragma, TapError>)
        ensures
            match r {
                Ok(p) => pragma_of_text(content@) == Ok::<PragmaV, TapErrorV>(p@),
                Err(e) => pragma_of_text(content@) == Err::<PragmaV, TapErrorV>(e@),
            },
    {
        match TAPParser::parse(R::Pragma, content) {
            Err(e) => Err(e),
            Ok(n) => Pragma::parse(&n.children),
        }
    }
}

impl Subtest {
    /// Reads a subtest from text.
    pub fn parse_from_str(content: &str) -> (r: Result<Subtest, TapError>)
        ensures
            match r {
                Ok(s) => subtest_of_text(content@) == Ok::<SubtestV, TapErrorV>(s@),
                Err(e) => subtest_of_text(content@) == Err::<SubtestV, TapErrorV>(e@),
            },
    {
        match TAPParser::parse(R::Subtest, content) {
            Err(e) => Err(e),
            Ok(n) => Subtest::parse(&n.children),
        }
    }
}

impl Statement {
    /// Reads one statement of any kind from text.
    pub fn parse_from_str(content: &str) -> (r: Result<Statement, TapError>)
        ensures
            match r {
                Ok(s) => statement_of_text(content@) == Ok::<StatementV, TapErrorV>(s@),
                Err(e) => statement_of_text(content@) == Err::<StatementV, TapErrorV>(e@),
            },
    {
        match TAPParser::parse(R::Statement, content) {
            Err(e) => Err(e),
            Ok(n) => Statement::parse(&n),
        }
    }
}

impl Document {
    /// Reads a whole TAP document from text.
    pub fn parse_from_str(content: &str) -> (r: Result<Document, TapError>)
        ensures
            match r {
                Ok(d) => document_of_text(content@) == Ok::<DocumentV, TapErrorV>(d@),
                Err(e) => document_of_text(content@) == Err::<DocumentV, TapErrorV>(e@),
            },
    {
        match TAPParser::parse(R::Document, content) {
            Err(e) => Err(e),
            Ok(n) => Document::parse(&n.children),
        }
    }
}

} // verus!
