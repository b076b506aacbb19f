//! The typed document tree and its mathematical models.
//!
//! These are the values a parsed TAP14 stream becomes: a [`Document`] holding
//! a [`Preamble`], a [`Plan`] and a body of [`Statement`]s, where statements
//! may nest further streams as [`Subtest`]s.  Each type has a ghost model
//! (`…V`) over sequences and mathematical values; every contract in the crate
//! speaks of those models.

use vstd::prelude::*;

verus! {

/// The preamble opening a TAP document: its version declaration.
#[derive(Debug, Clone, PartialEq, Eq)]
pub struct Preamble {
    /// Version token, taken verbatim; no semantic-version validation is done.
    pub version: String,
}

/// A plan: the declared range of test identifiers, with an optional reason.
#[derive(Debug, Clone, PartialEq, Eq)]
pub struct Plan {
    /// Identifier of the first planned test.
    pub first: i32,
    /// Identifier of the last planned test.
    pub last: i32,
    /// Optional explanation, taken verbatim.  No relation between `first`
    /// and `last` is enforced.
    pub reason: Option<String>,
}

/// The body of a TAP document: its statements in order.
#[derive(Debug, PartialEq, Eq)]
pub struct Body {
    /// The statements, in source order.
    pub statements: Vec<Statement>,
}

/// A pragma: a hint to the consumer of a stream.  Pragmas are recorded and
/// have no effect on parsing.
#[derive(Debug, Clone, PartialEq, Eq)]
pub struct Pragma {
    /// Whether the option is switched on (`+`), off (`-`), or unspecified.
    pub flag: Option<bool>,
    /// The option's identifier.
    pub option: String,
}

/// An emergency end of the test run.
#[derive(Debug, Clone, PartialEq, Eq)]
pub struct BailOut {
    /// Optional reason for bailing out.
    pub reason: Option<String>,
}

/// The keys a test directive can carry.
#[derive(Debug, Clone, Copy, PartialEq, Eq, Structural)]
pub enum Key {
    /// The test was skipped.
    Skip,
    /// The test is yet to be done.
    Todo,
}

/// A directive attached to a test point.
#[derive(Debug, Clone, PartialEq, Eq)]
pub struct Directive {
    /// The directive's key; the key token is classified case-insensitively.
    pub key: Key,
    /// Optional reason, taken verbatim.
    pub reason: Option<String>,
}

/// One test point.
#[derive(Debug, Clone, PartialEq, Eq)]
pub struct Test {
    /// `true` for `ok`, `false` for `not ok`.
    pub result: bool,
    /// The test point's number, when one is given and fits an `i32`.
    pub number: Option<i32>,
    /// Free-text description of the test point.
    pub description: Option<String>,
    /// Directive attached on the same line, if any.
    pub directive: Option<Directive>,
    /// Lines of the YAML diagnostic blocks attached to this test, in order,
    /// with the blocks' indentation stripped.  Several blocks concatenate.
    pub yaml: Vec<String>,
}

/// A nested TAP stream: an optional name, its own plan, and a body.
#[derive(Debug, PartialEq, Eq)]
pub struct Subtest {
    /// Name from the introducing comment, when present.
    pub name: Option<String>,
    /// The subtest's plan, wherever it stood among the statements.
    pub plan: Plan,
    /// The subtest's statements in source order, the plan excluded.
    pub body: Vec<Statement>,
}

/// One element of a body.
#[derive(Debug, PartialEq, Eq)]
pub enum Statement {
    /// A line no other construct claims, kept verbatim.
    Anything(String),
    /// A bail-out line.
    BailOut(BailOut),
    /// A pragma line.
    Pragma(Pragma),
    /// A nested stream.
    Subtest(Subtest),
    /// A test point.
    Test(Test),
}

/// A whole TAP document.
#[derive(Debug, PartialEq, Eq)]
pub struct Document {
    /// The version declaration.
    pub preamble: Preamble,
    /// The top-level plan, whether it stood before or after the body.
    pub plan: Plan,
    /// The top-level statements in source order.
    pub body: Vec<Statement>,
}

/// Which bound of a plan a semantic error names.
#[derive(Debug, Clone, Copy, PartialEq, Eq, Structural)]
pub enum PlanField {
    /// The bound before `..`.
    First,
    /// The bound after `..`.
    Last,
}

/// Everything that can go wrong while reading a stream.
#[derive(Debug, Clone, PartialEq, Eq)]
pub enum TapError {
    /// The text matches no production: no construct starts at the offending
    /// line, or a region (such as a YAML block) is left unterminated.
    Grammar {
        /// Index of the offending line, counted from zero.
        line: usize,
        /// The offending line, verbatim.
        text: String,
    },
    /// A plan bound is not a number an `i32` can hold.
    BadPlanBound { field: PlanField, text: String },
    /// A directive key other than `skip` or `todo`.
    BadDirectiveKey { key: String },
    /// A test result word other than `ok` or `not ok`.
    BadResultWord { word: String },
    /// A subtest, or the document, declares no plan.
    MissingPlan,
    /// The document's two top-level regions are two plans or two bodies.
    DuplicateBlock,
    /// A parse node handed to a builder has a shape the grammar never
    /// produces.
    Malformed,
}

// --- ghost models ---

/// Model of a [`Preamble`].
#[verifier::ext_equal]
pub struct PreambleV {
    pub version: Seq<char>,
}

/// Model of a [`Plan`].
#[verifier::ext_equal]
pub struct PlanV {
    pub first: i32,
    pub last: i32,
    pub reason: Option<Seq<char>>,
}

/// Model of a [`Pragma`].
#[verifier::ext_equal]
pub struct PragmaV {
    pub flag: Option<bool>,
    pub option: Seq<char>,
}

/// Model of a [`BailOut`].
#[verifier::ext_equal]
pub struct BailOutV {
    pub reason: Option<Seq<char>>,
}

/// Model of a [`Directive`].
#[verifier::ext_equal]
pub struct DirectiveV {
    pub key: Key,
    pub reason: Option<Seq<char>>,
}

/// Model of a [`Test`].
#[verifier::ext_equal]
pub struct TestV {
    pub result: bool,
    pub number: Option<i32>,
    pub description: Option<Seq<char>>,
    pub directive: Option<DirectiveV>,
    pub yaml: Seq<Seq<char>>,
}

/// Model of a [`Subtest`].
#[verifier::ext_equal]
pub struct SubtestV {
    pub name: Option<Seq<char>>,
    pub plan: PlanV,
    pub body: Seq<StatementV>,
}

/// Model of a [`Statement`].
#[verifier::ext_equal]
pub enum StatementV {
    Anything(Seq<char>),
    BailOut(BailOutV),
    Pragma(PragmaV),
    Subtest(SubtestV),
    Test(TestV),
}

/// Model of a [`Document`].
#[verifier::ext_equal]
pub struct DocumentV {
    pub preamble: PreambleV,
    pub plan: PlanV,
    pub body: Seq<StatementV>,
}

/// Model of a [`Body`].
#[verifier::ext_equal]
pub struct BodyV {
    pub statements: Seq<StatementV>,
}

/// Model of a [`TapError`].
#[verifier::ext_equal]
pub enum TapErrorV {
    Grammar { line: int, text: Seq<char> },
    BadPlanBound { field: PlanField, text: Seq<char> },
    BadDirectiveKey { key: Seq<char> },
    BadResultWord { word: Seq<char> },
    MissingPlan,
    DuplicateBlock,
    Malformed,
}

impl View for Preamble {
    type V = PreambleV;

    open spec fn view(&self) -> PreambleV {
        PreambleV { version: self.version@ }
    }
}

impl View for Plan {
    type V = PlanV;

    open spec fn view(&self) -> PlanV {
        PlanV { first: self.first, last: self.last, reason: self.reason.deep_view() }
    }
}

impl View for Pragma {
    type V = PragmaV;

    open spec fn view(&self) -> PragmaV {
        PragmaV { flag: self.flag, option: self.option@ }
    }
}

impl View for BailOut {
    type V = BailOutV;

    open spec fn view(&self) -> BailOutV {
        BailOutV { reason: self.reason.deep_view() }
    }
}

impl View for Directive {
    type V = DirectiveV;

    open spec fn view(&self) -> DirectiveV {
        DirectiveV { key: self.key, reason: self.reason.deep_view() }
    }
}

impl View for Test {
    type V = TestV;

    open spec fn view(&self) -> TestV {
        TestV {
            result: self.result,
            number: self.number,
            description: self.description.deep_view(),
            directive: match self.directive {
                Some(d) => Some(d@),
                None => None,
            },
            yaml: self.yaml.deep_view(),
        }
    }
}

/// Model of one statement.
pub open spec fn stmt_view(s: Statement) -> StatementV
    decreases s,
{
    match s {
        Statement::Anything(t) => StatementV::Anything(t@),
        Statement::BailOut(b) => StatementV::BailOut(b@),
        Statement::Pragma(p) => StatementV::Pragma(p@),
        Statement::Test(t) => StatementV::Test(t@),
        Statement::Subtest(st) => StatementV::Subtest(SubtestV {
            name: st.name.deep_view(),
            plan: st.plan@,
            body: stmts_view(st.body@),
        }),
    }
}

/// Model of a sequence of statements, elementwise.
pub open spec fn stmts_view(body: Seq<Statement>) -> Seq<StatementV>
    decreases body,
{
    if body.len() == 0 {
        Seq::empty()
    } else {
        seq![stmt_view(body[0])] + stmts_view(body.drop_first())
    }
}

impl View for Statement {
    type V = StatementV;

    open spec fn view(&self) -> StatementV {
        stmt_view(*self)
    }
}

impl View for Subtest {
    type V = SubtestV;

    open spec fn view(&self) -> SubtestV {
        SubtestV { name: self.name.deep_view(), plan: self.plan@, body: stmts_view(self.body@) }
    }
}

impl View for Document {
    type V = DocumentV;

    open spec fn view(&self) -> DocumentV {
        DocumentV { preamble: self.preamble@, plan: self.plan@, body: stmts_view(self.body@) }
    }
}

impl View for Body {
    type V = BodyV;

    open spec fn view(&self) -> BodyV {
        BodyV { statements: stmts_view(self.statements@) }
    }
}

impl View for TapError {
    type V = TapErrorV;

    open spec fn view(&self) -> TapErrorV {
        match self {
            TapError::Grammar { line, text } => TapErrorV::Grammar {
                line: *line as int,
                text: text@,
            },
            TapError::BadPlanBound { field, text } => TapErrorV::BadPlanBound {
                field: *field,
                text: text@,
            },
            TapError::BadDirectiveKey { key } => TapErrorV::BadDirectiveKey { key: key@ },
            TapError::BadResultWord { word } => TapErrorV::BadResultWord { word: word@ },
            TapError::MissingPlan => TapErrorV::MissingPlan,
            TapError::DuplicateBlock => TapErrorV::DuplicateBlock,
            TapError::Malformed => TapErrorV::Malformed,
        }
    }
}

pub proof fn lemma_stmts_view_len(v: Seq<Statement>)
    ensures
        stmts_view(v).len() == v.len(),
    decreases v,
{
    if v.len() > 0 {
        lemma_stmts_view_len(v.drop_first());
    }
}

pub proof fn lemma_stmts_view_push(v: Seq<Statement>, x: Statement)
    ensures
        stmts_view(v.push(x)) == stmts_view(v).push(stmt_view(x)),
    decreases v,
{
    lemma_stmts_view_len(v);
    let vpx = v.push(x);
    if v.len() == 0 {
        assert(vpx[0] == x);
        assert(vpx.drop_first() =~= Seq::<Statement>::empty());
        assert(stmts_view(Seq::<Statement>::empty()) =~= Seq::<StatementV>::empty());
        assert(stmts_view(vpx) == seq![stmt_view(x)] + stmts_view(Seq::<Statement>::empty()));
        assert(stmts_view(vpx) =~= stmts_view(v).push(stmt_view(x)));
    } else {
        lemma_stmts_view_push(v.drop_first(), x);
        assert(vpx.drop_first() =~= v.drop_first().push(x));
        assert(vpx[0] == v[0]);
        assert(stmts_view(vpx) == seq![stmt_view(v[0])] + stmts_view(v.drop_first()).push(
            stmt_view(x),
        ));
        assert(stmts_view(v) == seq![stmt_view(v[0])] + stmts_view(v.drop_first()));
        assert(stmts_view(vpx) =~= stmts_view(v).push(stmt_view(x)));
    }
}

} // verus!
