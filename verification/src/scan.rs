//! The line grammar.
//!
//! TAP14 is line-oriented: each construct is recognized on one line (YAML
//! blocks and subtests group several lines; that grouping lives in the
//! syntax module).  For each production this module gives a spec function
//! that says exactly which lines match and which tokens they yield, and an
//! executable scanner proved to return precisely that.
//!
//! Keywords — `TAP`, `version`, `ok`, `not ok`, `bail out!`, `pragma`,
//! `skip`, `todo` — are matched case-insensitively; everything else is
//! case-sensitive.  A production must account for its whole line: trailing
//! text no production allows keeps the line from matching, and the line
//! then falls to the catch-all.

use vstd::prelude::*;

use crate::node::{tok_v, par_v, Node, NodeV, Rule, nodes_view};
use crate::node::{lemma_nodes_view_push, token, parent, no_children, push_child};
use crate::text::{find_hash, is_ws, kw_at, lit_at, rtrim, skip_digits, skip_ident, skip_ws};
use crate::text::{
    find_hash_x, is_ws_x, kw_at_x, lit_at_x, rtrim_x, skip_digits_x, skip_ident_x, skip_ws_x,
    sub_string,
};

verus! {

/// Tokens of a plan line: the two bounds, raw, and an optional reason.
#[verifier::ext_equal]
pub struct PlanTok {
    pub first: Seq<char>,
    pub last: Seq<char>,
    pub reason: Option<Seq<char>>,
}

/// Tokens of a directive: the key, raw, and an optional reason.
#[verifier::ext_equal]
pub struct DirTok {
    pub key: Seq<char>,
    pub reason: Option<Seq<char>>,
}

/// Tokens of a test line.
#[verifier::ext_equal]
pub struct TestTok {
    pub result: Seq<char>,
    pub number: Option<Seq<char>>,
    pub description: Option<Seq<char>>,
    pub directive: Option<DirTok>,
}

/// Tokens of a pragma line: the raw `+`/`-` flag, if any, and the option.
#[verifier::ext_equal]
pub struct PragmaTok {
    pub flag: Option<Seq<char>>,
    pub option: Seq<char>,
}

/// `preamble = "TAP" SP "version" SP version-token`, the token being one
/// whitespace-free word reaching the end of the line (trailing whitespace
/// aside).  Yields the version token.
pub open spec fn sp_preamble(s: Seq<char>, off: int) -> Option<Seq<char>> {
    if !kw_at(s, off, "tap"@) {
        None
    } else {
        let a = off + 3;
        if !(a < s.len() && is_ws(s[a])) {
            None
        } else {
            let b = skip_ws(s, a);
            if !kw_at(s, b, "version"@) {
                None
            } else {
                let c = b + 7;
                if !(c < s.len() && is_ws(s[c])) {
                    None
                } else {
                    let d = skip_ws(s, c);
                    let e = rtrim(s, d);
                    if d < e && (forall|k: int| d <= k < e ==> !is_ws(#[trigger] s[k])) {
                        Some(s.subrange(d, e))
                    } else {
                        None
                    }
                }
            }
        }
    }
}

/// `plan = integer ".." integer [ "#" reason ]`.  The bound tokens are kept
/// raw, sign included; the reason runs verbatim to the end of the line.
pub open spec fn sp_plan(s: Seq<char>, off: int) -> Option<PlanTok> {
    let f1 = if off < s.len() && s[off] == '-' {
        off + 1
    } else {
        off
    };
    let fe = skip_digits(s, f1);
    if fe == f1 || !(fe + 2 <= s.len() && s[fe] == '.' && s[fe + 1] == '.') {
        None
    } else {
        let l0 = fe + 2;
        let l1 = if l0 < s.len() && s[l0] == '-' {
            l0 + 1
        } else {
            l0
        };
        let le = skip_digits(s, l1);
        if le == l1 {
            None
        } else {
            let first = s.subrange(off, fe);
            let last = s.subrange(l0, le);
            let j = skip_ws(s, le);
            if j == s.len() {
                Some(PlanTok { first, last, reason: None })
            } else if s[j] == '#' {
                let r0 = skip_ws(s, j + 1);
                if r0 == s.len() {
                    Some(PlanTok { first, last, reason: None })
                } else {
                    Some(PlanTok { first, last, reason: Some(s.subrange(r0, s.len() as int)) })
                }
            } else {
                None
            }
        }
    }
}

/// `directive = "#" ( "skip" | "todo" ) [ reason ]`, the key compared
/// case-insensitively and kept raw, the reason running verbatim to the end
/// of the line.  `h` must point at the `#`.
pub open spec fn sp_directive(s: Seq<char>, h: int) -> Option<DirTok> {
    if !(0 <= h && h < s.len() && s[h] == '#') {
        None
    } else {
        let k0 = skip_ws(s, h + 1);
        let ke = k0 + 4;
        if !(kw_at(s, k0, "skip"@) || kw_at(s, k0, "todo"@)) {
            None
        } else if !(ke == s.len() || is_ws(s[ke])) {
            None
        } else {
            let key = s.subrange(k0, ke);
            let r0 = skip_ws(s, ke);
            if r0 == s.len() {
                Some(DirTok { key, reason: None })
            } else {
                Some(DirTok { key, reason: Some(s.subrange(r0, s.len() as int)) })
            }
        }
    }
}

/// `result = "not ok" | "ok"`, the words separated by a single space and
/// ending at a word boundary.  Yields the position just after the result
/// word.
pub open spec fn sp_result(s: Seq<char>, off: int) -> Option<int> {
    if kw_at(s, off, "not ok"@) && (off + 6 == s.len() || is_ws(s[off + 6])) {
        Some(off + 6)
    } else if kw_at(s, off, "ok"@) && (off + 2 == s.len() || is_ws(s[off + 2])) {
        Some(off + 2)
    } else {
        None
    }
}

/// `test = result [ number ] [ ( "-" SP description | description ) ]
/// [ directive ]`.  The number token must end at a word boundary or at the
/// directive's `#`; the description runs up to the `#` (kept verbatim,
/// trailing whitespace included) and may not be empty; a `#` must begin a
/// well-formed directive or the line is no test line.
pub open spec fn sp_test(s: Seq<char>, off: int) -> Option<TestTok> {
    match sp_result(s, off) {
        None => None,
        Some(p) => {
            let result = s.subrange(off, p);
            let p2 = skip_ws(s, p);
            if p2 == s.len() {
                Some(TestTok { result, number: None, description: None, directive: None })
            } else {
                let ne = skip_digits(s, p2);
                let has_num = ne > p2 && (ne == s.len() || is_ws(s[ne]) || s[ne] == '#');
                let number = if has_num {
                    Some(s.subrange(p2, ne))
                } else {
                    None
                };
                let q = if has_num {
                    skip_ws(s, ne)
                } else {
                    p2
                };
                if q == s.len() {
                    Some(TestTok { result, number, description: None, directive: None })
                } else if s[q] == '#' {
                    match sp_directive(s, q) {
                        Some(d) => Some(
                            TestTok { result, number, description: None, directive: Some(d) },
                        ),
                        None => None,
                    }
                } else {
                    let d0 = if s[q] == '-' && q + 1 < s.len() && is_ws(s[q + 1]) {
                        skip_ws(s, q + 1)
                    } else {
                        q
                    };
                    let h = find_hash(s, d0);
                    let description = if d0 == h {
                        None
                    } else {
                        Some(s.subrange(d0, h))
                    };
                    if h == s.len() {
                        Some(TestTok { result, number, description, directive: None })
                    } else {
                        match sp_directive(s, h) {
                            Some(d) => Some(
                                TestTok { result, number, description, directive: Some(d) },
                            ),
                            None => None,
                        }
                    }
                }
            }
        },
    }
}

/// `bail_out = "bail" SP "out" "!" [ reason ]`, keywords case-insensitive,
/// the `!` standing directly after `out`, the reason running verbatim to
/// the end of the line.
pub open spec fn sp_bail(s: Seq<char>, off: int) -> Option<Option<Seq<char>>> {
    if !kw_at(s, off, "bail"@) {
        None
    } else {
        let a = off + 4;
        if !(a < s.len() && is_ws(s[a])) {
            None
        } else {
            let b = skip_ws(s, a);
            if !kw_at(s, b, "out"@) {
                None
            } else {
                let c = b + 3;
                if !(c < s.len() && s[c] == '!') {
                    None
                } else {
                    let r0 = skip_ws(s, c + 1);
                    if r0 == s.len() {
                        Some(None)
                    } else {
                        Some(Some(s.subrange(r0, s.len() as int)))
                    }
                }
            }
        }
    }
}

/// `pragma = "pragma" SP [ "+" | "-" ] identifier`, the keyword
/// case-insensitive, the identifier made of letters, digits and `_` and
/// standing directly after the flag when one is given, reaching the end
/// of the line (trailing whitespace aside).
pub open spec fn sp_pragma(s: Seq<char>, off: int) -> Option<PragmaTok> {
    if !kw_at(s, off, "pragma"@) {
        None
    } else {
        let a = off + 6;
        if !(a < s.len() && is_ws(s[a])) {
            None
        } else {
            let b = skip_ws(s, a);
            let has_flag = b < s.len() && (s[b] == '+' || s[b] == '-');
            let flag = if has_flag {
                Some(s.subrange(b, b + 1))
            } else {
                None
            };
            let o0 = if has_flag {
                b + 1
            } else {
                b
            };
            let oe = skip_ident(s, o0);
            if oe == o0 || skip_ws(s, oe) != s.len() {
                None
            } else {
                Some(PragmaTok { flag, option: s.subrange(o0, oe) })
            }
        }
    }
}

/// A comment line: the first character after the indentation is `#`.
pub open spec fn is_comment(s: Seq<char>, off: int) -> bool {
    0 <= off && off < s.len() && s[off] == '#'
}

/// The comment form `# Subtest: name` that may introduce a named subtest.
/// `Subtest:` is matched case-sensitively; the name runs verbatim to the
/// end of the line and may not be empty.
pub open spec fn sp_subtest_name(s: Seq<char>, off: int) -> Option<Seq<char>> {
    if !is_comment(s, off) {
        None
    } else {
        let a = skip_ws(s, off + 1);
        if !lit_at(s, a, "Subtest:"@) {
            None
        } else {
            let n0 = skip_ws(s, a + 8);
            if n0 == s.len() {
                None
            } else {
                Some(s.subrange(n0, s.len() as int))
            }
        }
    }
}

// --- the node each production yields ---

/// The preamble node: one version token.
pub open spec fn preamble_node(v: Seq<char>) -> NodeV {
    par_v(Rule::Preamble, seq![tok_v(Rule::Version, v)])
}

/// The plan node: first and last bound tokens, then the reason if present.
pub open spec fn plan_node(t: PlanTok) -> NodeV {
    par_v(
        Rule::Plan,
        seq![tok_v(Rule::First, t.first), tok_v(Rule::Last, t.last)] + match t.reason {
            Some(r) => seq![tok_v(Rule::Reason, r)],
            None => Seq::empty(),
        },
    )
}

/// The directive node: the key token, then the reason if present.
pub open spec fn dir_node(d: DirTok) -> NodeV {
    par_v(
        Rule::Directive,
        seq![tok_v(Rule::Key, d.key)] + match d.reason {
            Some(r) => seq![tok_v(Rule::Reason, r)],
            None => Seq::empty(),
        },
    )
}

/// The children a test line yields, before any YAML block is attached.
pub open spec fn test_children(t: TestTok) -> Seq<NodeV> {
    seq![tok_v(Rule::ResultWord, t.result)] + (match t.number {
        Some(n) => seq![tok_v(Rule::Number, n)],
        None => Seq::empty(),
    }) + (match t.description {
        Some(d) => seq![tok_v(Rule::Description, d)],
        None => Seq::empty(),
    }) + (match t.directive {
        Some(d) => seq![dir_node(d)],
        None => Seq::empty(),
    })
}

/// The test node: the line's tokens, then its YAML blocks in order.
pub open spec fn test_node(t: TestTok, yaml: Seq<NodeV>) -> NodeV {
    par_v(Rule::Test, test_children(t) + yaml)
}

/// The bail-out node: the reason token if present.
pub open spec fn bail_node(reason: Option<Seq<char>>) -> NodeV {
    par_v(
        Rule::BailOut,
        match reason {
            Some(r) => seq![tok_v(Rule::Reason, r)],
            None => Seq::empty(),
        },
    )
}

/// The pragma node: the flag token if present, then the option token.
pub open spec fn pragma_node(t: PragmaTok) -> NodeV {
    par_v(
        Rule::Pragma,
        (match t.flag {
            Some(f) => seq![tok_v(Rule::Flag, f)],
            None => Seq::empty(),
        }) + seq![tok_v(Rule::OptionName, t.option)],
    )
}

/// The catch-all node: the line kept verbatim.
pub open spec fn anything_node(text: Seq<char>) -> NodeV {
    tok_v(Rule::Anything, text)
}

/// The YAML block node: one token per captured line.
pub open spec fn yaml_block_node(ls: Seq<Seq<char>>) -> NodeV {
    par_v(Rule::YamlBlock, Seq::new(ls.len(), |i: int| tok_v(Rule::YamlLine, ls[i])))
}

/// The subtest node: the name token if present, then the child nodes in
/// source order.
pub open spec fn subtest_node(name: Option<Seq<char>>, children: Seq<NodeV>) -> NodeV {
    par_v(
        Rule::Subtest,
        (match name {
            Some(n) => seq![tok_v(Rule::Name, n)],
            None => Seq::empty(),
        }) + children,
    )
}

} // verus!

verus! {

/// Scans a preamble line.
#[verifier::loop_isolation(false)]
pub fn scan_preamble(s: &Vec<char>, off: usize) -> (r: Option<Node>)
    requires
        off <= s@.len(),
    ensures
        match r {
            Some(n) => sp_preamble(s@, off as int) is Some && n@ == preamble_node(
                sp_preamble(s@, off as int)->0,
            ),
            None => sp_preamble(s@, off as int) is None,
        },
{
    proof {
        reveal_strlit("tap");
        reveal_strlit("version");
    }
    let len = s.len();
    if !kw_at_x(s, off, "tap") {
        return None;
    }
    let a = off + 3;
    if !(a < len && is_ws_x(s[a])) {
        return None;
    }
    let b = skip_ws_x(s, a);
    if !kw_at_x(s, b, "version") {
        return None;
    }
    let c = b + 7;
    if !(c < len && is_ws_x(s[c])) {
        return None;
    }
    let d = skip_ws_x(s, c);
    let e = rtrim_x(s, d);
    if d >= e {
        return None;
    }
    let mut k = d;
    while k < e
        invariant
            d <= k <= e <= s@.len(),
            forall|j: int| d <= j < k ==> !is_ws(#[trigger] s@[j]),
        decreases e - k,
    {
        if is_ws_x(s[k]) {
            return None;
        }
        k = k + 1;
    }
    let mut ch = no_children();
    push_child(&mut ch, token(Rule::Version, sub_string(s, d, e)));
    proof {
        assert(nodes_view(ch@) =~= seq![tok_v(Rule::Version, s@.subrange(d as int, e as int))]);
    }
    Some(parent(Rule::Preamble, ch))
}

/// Scans a plan line.
pub fn scan_plan(s: &Vec<char>, off: usize) -> (r: Option<Node>)
    requires
        off <= s@.len(),
    ensures
        match r {
            Some(n) => sp_plan(s@, off as int) is Some && n@ == plan_node(
                sp_plan(s@, off as int)->0,
            ),
            None => sp_plan(s@, off as int) is None,
        },
{
    let len = s.len();
    let f1 = if off < len && s[off] == '-' {
        off + 1
    } else {
        off
    };
    let fe = skip_digits_x(s, f1);
    if fe == f1 {
        return None;
    }
    if !(fe < len && fe + 1 < len && s[fe] == '.' && s[fe + 1] == '.') {
        return None;
    }
    let l0 = fe + 2;
    let l1 = if l0 < len && s[l0] == '-' {
        l0 + 1
    } else {
        l0
    };
    let le = skip_digits_x(s, l1);
    if le == l1 {
        return None;
    }
    let j = skip_ws_x(s, le);
    let reason: Option<String> = if j == len {
        None
    } else if s[j] == '#' {
        let r0 = skip_ws_x(s, j + 1);
        if r0 == len {
            None
        } else {
            Some(sub_string(s, r0, len))
        }
    } else {
        return None;
    };
    let mut ch = no_children();
    push_child(&mut ch, token(Rule::First, sub_string(s, off, fe)));
    push_child(&mut ch, token(Rule::Last, sub_string(s, l0, le)));
    let ghost t = sp_plan(s@, off as int)->0;
    match reason {
        Some(rs) => {
            push_child(&mut ch, token(Rule::Reason, rs));
            proof {
                assert(nodes_view(ch@) =~= seq![
                    tok_v(Rule::First, t.first),
                    tok_v(Rule::Last, t.last),
                ] + seq![tok_v(Rule::Reason, t.reason->0)]);
            }
        },
        None => {
            proof {
                assert(nodes_view(ch@) =~= seq![
                    tok_v(Rule::First, t.first),
                    tok_v(Rule::Last, t.last),
                ] + Seq::<NodeV>::empty());
            }
        },
    }
    Some(parent(Rule::Plan, ch))
}

/// Scans a directive beginning at the `#` in position `h`.
pub fn scan_directive(s: &Vec<char>, h: usize) -> (r: Option<Node>)
    requires
        h <= s@.len(),
    ensures
        match r {
            Some(n) => sp_directive(s@, h as int) is Some && n@ == dir_node(
                sp_directive(s@, h as int)->0,
            ),
            None => sp_directive(s@, h as int) is None,
        },
{
    proof {
        reveal_strlit("skip");
        reveal_strlit("todo");
    }
    let len = s.len();
    if !(h < len && s[h] == '#') {
        return None;
    }
    let k0 = skip_ws_x(s, h + 1);
    if !(kw_at_x(s, k0, "skip") || kw_at_x(s, k0, "todo")) {
        return None;
    }
    let ke = k0 + 4;
    if !(ke == len || is_ws_x(s[ke])) {
        return None;
    }
    let r0 = skip_ws_x(s, ke);
    let mut ch = no_children();
    push_child(&mut ch, token(Rule::Key, sub_string(s, k0, ke)));
    let ghost t = sp_directive(s@, h as int)->0;
    if r0 == len {
        proof {
            assert(nodes_view(ch@) =~= seq![tok_v(Rule::Key, t.key)] + Seq::<NodeV>::empty());
        }
    } else {
        push_child(&mut ch, token(Rule::Reason, sub_string(s, r0, len)));
        proof {
            assert(nodes_view(ch@) =~= seq![tok_v(Rule::Key, t.key)] + seq![
                tok_v(Rule::Reason, t.reason->0),
            ]);
        }
    }
    Some(parent(Rule::Directive, ch))
}

/// Scans a result word, yielding the position just after it.
pub fn scan_result(s: &Vec<char>, off: usize) -> (r: Option<usize>)
    requires
        off <= s@.len(),
    ensures
        match r {
            Some(p) => sp_result(s@, off as int) == Some(p as int) && off <= p <= s@.len(),
            None => sp_result(s@, off as int) is None,
        },
{
    proof {
        reveal_strlit("not ok");
        reveal_strlit("ok");
    }
    let len = s.len();
    if kw_at_x(s, off, "not ok") && (off + 6 == len || is_ws_x(s[off + 6])) {
        Some(off + 6)
    } else if kw_at_x(s, off, "ok") && (off + 2 == len || is_ws_x(s[off + 2])) {
        Some(off + 2)
    } else {
        None
    }
}

/// Scans a test line, yielding its child nodes (YAML blocks are attached
/// by the caller).
pub fn scan_test(s: &Vec<char>, off: usize) -> (r: Option<Vec<Node>>)
    requires
        off <= s@.len(),
    ensures
        match r {
            Some(ch) => sp_test(s@, off as int) is Some && nodes_view(ch@) == test_children(
                sp_test(s@, off as int)->0,
            ),
            None => sp_test(s@, off as int) is None,
        },
{
    let len = s.len();
    let p = match scan_result(s, off) {
        Some(p) => p,
        None => {
            return None;
        },
    };
    let ghost tt = sp_test(s@, off as int);
    let mut ch = no_children();
    push_child(&mut ch, token(Rule::ResultWord, sub_string(s, off, p)));
    let p2 = skip_ws_x(s, p);
    if p2 == len {
        proof {
            assert(nodes_view(ch@) =~= test_children(tt->0));
        }
        return Some(ch);
    }
    let ne = skip_digits_x(s, p2);
    let has_num = ne > p2 && (ne == len || is_ws_x(s[ne]) || s[ne] == '#');
    if has_num {
        push_child(&mut ch, token(Rule::Number, sub_string(s, p2, ne)));
    }
    let q = if has_num {
        skip_ws_x(s, ne)
    } else {
        p2
    };
    if q == len {
        proof {
            assert(nodes_view(ch@) =~= test_children(tt->0));
        }
        return Some(ch);
    }
    if s[q] == '#' {
        match scan_directive(s, q) {
            Some(d) => {
                push_child(&mut ch, d);
                proof {
                    assert(nodes_view(ch@) =~= test_children(tt->0));
                }
                return Some(ch);
            },
            None => {
                return None;
            },
        }
    }
    let d0 = if s[q] == '-' && q + 1 < len && is_ws_x(s[q + 1]) {
        skip_ws_x(s, q + 1)
    } else {
        q
    };
    let h = find_hash_x(s, d0);
    if d0 < h {
        push_child(&mut ch, token(Rule::Description, sub_string(s, d0, h)));
    }
    if h == len {
        proof {
            assert(nodes_view(ch@) =~= test_children(tt->0));
        }
        return Some(ch);
    }
    match scan_directive(s, h) {
        Some(d) => {
            push_child(&mut ch, d);
            proof {
                assert(nodes_view(ch@) =~= test_children(tt->0));
            }
            Some(ch)
        },
        None => None,
    }
}

/// Scans a bail-out line.
pub fn scan_bail(s: &Vec<char>, off: usize) -> (r: Option<Node>)
    requires
        off <= s@.len(),
    ensures
        match r {
            Some(n) => sp_bail(s@, off as int) is Some && n@ == bail_node(
                sp_bail(s@, off as int)->0,
            ),
            None => sp_bail(s@, off as int) is None,
        },
{
    proof {
        reveal_strlit("bail");
        reveal_strlit("out");
    }
    let len = s.len();
    if !kw_at_x(s, off, "bail") {
        return None;
    }
    let a = off + 4;
    if !(a < len && is_ws_x(s[a])) {
        return None;
    }
    let b = skip_ws_x(s, a);
    if !kw_at_x(s, b, "out") {
        return None;
    }
    let c = b + 3;
    if !(c < len && s[c] == '!') {
        return None;
    }
    let r0 = skip_ws_x(s, c + 1);
    let mut ch = no_children();
    let ghost t = sp_bail(s@, off as int)->0;
    if r0 == len {
        proof {
            assert(nodes_view(ch@) =~= Seq::<NodeV>::empty());
        }
    } else {
        push_child(&mut ch, token(Rule::Reason, sub_string(s, r0, len)));
        proof {
            assert(nodes_view(ch@) =~= seq![tok_v(Rule::Reason, t->0)]);
        }
    }
    Some(parent(Rule::BailOut, ch))
}

/// Scans a pragma line.
pub fn scan_pragma(s: &Vec<char>, off: usize) -> (r: Option<Node>)
    requires
        off <= s@.len(),
    ensures
        match r {
            Some(n) => sp_pragma(s@, off as int) is Some && n@ == pragma_node(
                sp_pragma(s@, off as int)->0,
            ),
            None => sp_pragma(s@, off as int) is None,
        },
{
    proof {
        reveal_strlit("pragma");
    }
    let len = s.len();
    if !kw_at_x(s, off, "pragma") {
        return None;
    }
    let a = off + 6;
    if !(a < len && is_ws_x(s[a])) {
        return None;
    }
    let b = skip_ws_x(s, a);
    let has_flag = b < len && (s[b] == '+' || s[b] == '-');
    let o0 = if has_flag {
        b + 1
    } else {
        b
    };
    let oe = skip_ident_x(s, o0);
    if oe == o0 {
        return None;
    }
    if skip_ws_x(s, oe) != len {
        return None;
    }
    let mut ch = no_children();
    let ghost t = sp_pragma(s@, off as int)->0;
    if has_flag {
        push_child(&mut ch, token(Rule::Flag, sub_string(s, b, b + 1)));
    }
    push_child(&mut ch, token(Rule::OptionName, sub_string(s, o0, oe)));
    proof {
        if t.flag is Some {
            assert(nodes_view(ch@) =~= seq![tok_v(Rule::Flag, t.flag->0)] + seq![
                tok_v(Rule::OptionName, t.option),
            ]);
        } else {
            assert(nodes_view(ch@) =~= Seq::<NodeV>::empty() + seq![
                tok_v(Rule::OptionName, t.option),
            ]);
        }
    }
    Some(parent(Rule::Pragma, ch))
}

/// Scans the `# Subtest: name` comment form, yielding the name.
pub fn scan_subtest_name(s: &Vec<char>, off: usize) -> (r: Option<String>)
    requires
        off <= s@.len(),
    ensures
        match r {
            Some(nm) => sp_subtest_name(s@, off as int) == Some(nm@),
            None => sp_subtest_name(s@, off as int) is None,
        },
{
    proof {
        reveal_strlit("Subtest:");
    }
    let len = s.len();
    if !(off < len && s[off] == '#') {
        return None;
    }
    let a = skip_ws_x(s, off + 1);
    if !lit_at_x(s, a, "Subtest:") {
        return None;
    }
    let n0 = skip_ws_x(s, a + 8);
    if n0 == len {
        return None;
    }
    Some(sub_string(s, n0, len))
}

} // verus!
