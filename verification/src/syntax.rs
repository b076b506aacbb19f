//! The stream grammar: lines, regions, and the parse entry point.
//!
//! A TAP14 stream is split into lines; each line is recognized by the line
//! grammar; indentation then groups lines into regions: a line deeper than
//! its context opens a subtest, a `---` line after a test opens a YAML
//! diagnostic block that runs to its `...` terminator, and the top level of
//! a document falls into two regions — one plan line and one run of
//! statements — in either order.
//!
//! Everything here is given as spec functions over the sequence of lines;
//! [`TAPParser`] is the verified scanner that realizes them.  Between
//! constructs, blank lines are skipped and comment lines are skipped
//! unless they introduce a named subtest; inside a YAML block nothing is
//! skipped — every line at the block's indentation or deeper is captured.
//!
//! Several recursions restart at a position a sub-parse returned.  Such a
//! position always lies past the line the sub-parse began on; the bound
//! `if nx < i + 1 { i + 1 } else { nx }` repeats that fact where the
//! termination checker needs it and never changes the value.

use vstd::prelude::*;

use crate::ast::{TapError, TapErrorV};
use crate::node::{par_v, tok_v, nodes_view, Node, NodeV, Rule};
use crate::node::{no_children, parent, push_child, token};

use crate::scan::{
    anything_node, bail_node, dir_node, is_comment, plan_node, pragma_node, preamble_node,
    sp_bail, sp_directive, sp_plan, sp_pragma, sp_preamble, sp_subtest_name, sp_test,
    subtest_node, test_node, yaml_block_node,
};
use crate::scan::{
    scan_bail, scan_directive, scan_plan, scan_pragma, scan_preamble, scan_subtest_name,
    scan_test,
};
use crate::text::{blank, indent_of};
use crate::text::{blank_x, indent_x, sub_string, tail_is_x, to_chars};

verus! {

// --- lines ---

/// First position at or after `i` holding a newline; the length of `s` if
/// none remains.
pub open spec fn next_nl(s: Seq<char>, i: int) -> int
    decreases s.len() - i,
{
    if i < 0 || i >= s.len() {
        s.len() as int
    } else if s[i] == '\n' {
        i
    } else {
        next_nl(s, i + 1)
    }
}

/// A line with a trailing carriage return loses it: line breaks are `\n`
/// or `\r\n`.
pub open spec fn strip_cr(l: Seq<char>) -> Seq<char> {
    if l.len() > 0 && l.last() == '\r' {
        l.drop_last()
    } else {
        l
    }
}

/// The lines of `s` from position `i` on: split at each newline, each line
/// stripped of a trailing carriage return.  Text without a final newline
/// still forms a line; a final newline does not open an extra one beyond
/// the empty line it leaves, which is blank and weightless.
pub open spec fn sp_lines(s: Seq<char>, i: int) -> Seq<Seq<char>>
    decreases s.len() - i,
{
    if i < 0 {
        Seq::empty()
    } else {
        let j0 = next_nl(s, i);
        let j = if j0 < i {
            i
        } else {
            j0
        };
        if j >= s.len() {
            seq![strip_cr(s.subrange(i, s.len() as int))]
        } else {
            seq![strip_cr(s.subrange(i, j))] + sp_lines(s, j + 1)
        }
    }
}

/// The models of a vector of lines.
pub open spec fn lines_view(s: Seq<Vec<char>>) -> Seq<Seq<char>> {
    Seq::new(s.len(), |i: int| s[i]@)
}

/// The models of a vector of strings.
pub open spec fn strs_view(s: Seq<String>) -> Seq<Seq<char>> {
    Seq::new(s.len(), |i: int| s[i]@)
}

/// The line at `i`, or nothing when `i` lies outside: the text a grammar
/// error at `i` carries.
pub open spec fn line_at(ls: Seq<Seq<char>>, i: int) -> Seq<char> {
    if 0 <= i && i < ls.len() {
        ls[i]
    } else {
        Seq::empty()
    }
}

/// First index at or after `i` of a line that is not blank.
pub open spec fn skip_blanks(ls: Seq<Seq<char>>, i: int) -> int
    decreases ls.len() - i,
{
    if i < 0 || i >= ls.len() {
        ls.len() as int
    } else if blank(ls[i]) {
        skip_blanks(ls, i + 1)
    } else {
        i
    }
}

/// First index at or after `i` of a line that is neither blank nor a
/// comment; used ahead of the preamble only.
pub open spec fn skip_light(ls: Seq<Seq<char>>, i: int) -> int
    decreases ls.len() - i,
{
    if i < 0 || i >= ls.len() {
        ls.len() as int
    } else if blank(ls[i]) || is_comment(ls[i], indent_of(ls[i])) {
        skip_light(ls, i + 1)
    } else {
        i
    }
}

// --- termination measures ---

/// Lines not yet reached: the primary termination measure.
pub open spec fn m_lines(ls: Seq<Seq<char>>, i: int) -> int {
    if i <= ls.len() {
        ls.len() - i
    } else {
        0
    }
}

/// Room left for deeper indentation on the current line: the secondary
/// measure, for the descent that opens a subtest on the same line.
pub open spec fn m_indent(ls: Seq<Seq<char>>, i: int, n: int) -> int {
    if 0 <= i && i < ls.len() && n <= ls[i].len() {
        ls[i].len() + 1 - n
    } else {
        0
    }
}

// --- YAML blocks ---

/// The inside of a YAML block whose delimiters stand at indentation `m`,
/// read from line `k` on.  A line `...` at indentation exactly `m` ends
/// the block; every other line at indentation `m` or deeper — a
/// whitespace-only line included — is captured with the first `m` columns
/// stripped.  Yields the captured lines and the index after the
/// terminator.  A shallower line, or the end of input, leaves the block
/// unterminated: the error carries that index.
pub open spec fn sp_yaml_body(ls: Seq<Seq<char>>, k: int, m: int) -> Result<
    (Seq<Seq<char>>, int),
    int,
>
    decreases m_lines(ls, k),
{
    if k < 0 || k >= ls.len() {
        Err(ls.len() as int)
    } else {
        let line = ls[k];
        let ind = indent_of(line);
        if ind == m && line.skip(m) == "..."@ {
            Ok((Seq::empty(), k + 1))
        } else if ind >= m {
            match sp_yaml_body(ls, k + 1, m) {
                Ok((rest, nx)) => Ok((seq![line.skip(m)] + rest, nx)),
                Err(e) => Err(e),
            }
        } else {
            Err(k)
        }
    }
}

/// Zero or more YAML blocks following a test at indentation `n`: each
/// starts, past any blank lines, with a line `---` indented deeper than
/// `n`, and runs to its terminator.  Yields the block nodes and the index
/// after the last block — the starting index when no block follows.
pub open spec fn sp_yaml_blocks(ls: Seq<Seq<char>>, i: int, n: int) -> Result<
    (Seq<NodeV>, int),
    int,
>
    decreases m_lines(ls, i),
{
    if i < 0 {
        Ok((Seq::empty(), i))
    } else {
        let j0 = skip_blanks(ls, i);
        let j = if j0 < i {
            i
        } else {
            j0
        };
        if j >= ls.len() {
            Ok((Seq::empty(), i))
        } else {
            let line = ls[j];
            let ind = indent_of(line);
            if ind > n && line.skip(ind) == "---"@ {
                match sp_yaml_body(ls, j + 1, ind) {
                    Err(e) => Err(e),
                    Ok((captured, e)) => {
                        let e2 = if e < j + 2 {
                            j + 2
                        } else {
                            e
                        };
                        match sp_yaml_blocks(ls, e2, n) {
                            Err(e3) => Err(e3),
                            Ok((blocks, nx)) => Ok(
                                (seq![yaml_block_node(captured)] + blocks, nx),
                            ),
                        }
                    },
                }
            } else {
                Ok((Seq::empty(), i))
            }
        }
    }
}

// --- statements and subtest children ---

/// The run of constructs at indentation `n`, read from line `i` on.
///
/// A blank line is skipped.  A shallower line ends the run.  A deeper line
/// opens an unnamed subtest whose children sit at that line's indentation.
/// At indentation `n` itself, the first matching production wins: a plan —
/// kept as a child when inside a subtest, ending the run when `top` (the
/// document's two regions are grouped one level up); a test line, which
/// absorbs the YAML blocks after it; a bail-out; a pragma; a comment,
/// which introduces a named subtest when it has the `# Subtest: name` form
/// and a deeper line follows, and is skipped otherwise; any other line is
/// kept verbatim as the catch-all.  Every production, the catch-all
/// included, reads the line past the `n` columns the run shares, so a
/// nested catch-all line keeps everything but that shared indentation.
/// Yields the nodes in source order and the index the run ends at.
pub open spec fn sp_children(ls: Seq<Seq<char>>, i: int, n: int, top: bool) -> Result<
    (Seq<NodeV>, int),
    TapErrorV,
>
    decreases m_lines(ls, i), m_indent(ls, i, n),
    via sp_children_dec
{
    if i < 0 || i >= ls.len() {
        Ok((Seq::empty(), ls.len() as int))
    } else {
        let line = ls[i];
        if blank(line) {
            sp_children(ls, i + 1, n, top)
        } else {
            let ind = indent_of(line);
            if ind < n {
                Ok((Seq::empty(), i))
            } else if ind > n {
                match sp_children(ls, i, ind, false) {
                    Err(e) => Err(e),
                    Ok((ch, nx)) => {
                        let nx2 = if nx < i + 1 {
                            i + 1
                        } else {
                            nx
                        };
                        match sp_children(ls, nx2, n, top) {
                            Err(e) => Err(e),
                            Ok((rest, end)) => Ok(
                                (seq![subtest_node(None, ch)] + rest, end),
                            ),
                        }
                    },
                }
            } else if sp_plan(line, n) is Some {
                if top {
                    Ok((Seq::empty(), i))
                } else {
                    match sp_children(ls, i + 1, n, top) {
                        Err(e) => Err(e),
                        Ok((rest, end)) => Ok(
                            (seq![plan_node(sp_plan(line, n)->0)] + rest, end),
                        ),
                    }
                }
            } else if sp_test(line, n) is Some {
                match sp_yaml_blocks(ls, i + 1, n) {
                    Err(el) => Err(TapErrorV::Grammar { line: el, text: line_at(ls, el) }),
                    Ok((yaml, nx)) => {
                        let nx2 = if nx < i + 1 {
                            i + 1
                        } else {
                            nx
                        };
                        match sp_children(ls, nx2, n, top) {
                            Err(e) => Err(e),
                            Ok((rest, end)) => Ok(
                                (seq![test_node(sp_test(line, n)->0, yaml)] + rest, end),
                            ),
                        }
                    },
                }
            } else if sp_bail(line, n) is Some {
                match sp_children(ls, i + 1, n, top) {
                    Err(e) => Err(e),
                    Ok((rest, end)) => Ok((seq![bail_node(sp_bail(line, n)->0)] + rest, end)),
                }
            } else if sp_pragma(line, n) is Some {
                match sp_children(ls, i + 1, n, top) {
                    Err(e) => Err(e),
                    Ok((rest, end)) => Ok(
                        (seq![pragma_node(sp_pragma(line, n)->0)] + rest, end),
                    ),
                }
            } else if is_comment(line, n) {
                let j0 = skip_blanks(ls, i + 1);
                let j = if j0 < i + 1 {
                    i + 1
                } else {
                    j0
                };
                if sp_subtest_name(line, n) is Some && j < ls.len() && indent_of(ls[j]) > n {
                    match sp_children(ls, j, indent_of(ls[j]), false) {
                        Err(e) => Err(e),
                        Ok((ch, nx)) => {
                            let nx2 = if nx < i + 1 {
                                i + 1
                            } else {
                                nx
                            };
                            match sp_children(ls, nx2, n, top) {
                                Err(e) => Err(e),
                                Ok((rest, end)) => Ok(
                                    (
                                        seq![subtest_node(Some(sp_subtest_name(line, n)->0), ch)]
                                            + rest,
                                        end,
                                    ),
                                ),
                            }
                        },
                    }
                } else {
                    sp_children(ls, i + 1, n, top)
                }
            } else {
                match sp_children(ls, i + 1, n, top) {
                    Err(e) => Err(e),
                    Ok((rest, end)) => Ok((seq![anything_node(line.skip(n))] + rest, end)),
                }
            }
        }
    }
}

#[via_fn]
proof fn sp_children_dec(ls: Seq<Seq<char>>, i: int, n: int, top: bool) {
    if 0 <= i && i < ls.len() {
        crate::text::lemma_skip_spaces(ls[i], 0);
    }
}

// --- the document's two regions ---

/// One top-level region: where it starts, and its node — a plan, or a
/// body holding a run of statements.
#[verifier::ext_equal]
pub struct BlockV {
    pub start: int,
    pub node: NodeV,
}

/// The top-level regions after the preamble, in order: each plan line at
/// indentation zero is one region; each maximal run of statements between
/// them is another.  Comment and blank lines belong to no region.
pub open spec fn sp_blocks(ls: Seq<Seq<char>>, i: int) -> Result<Seq<BlockV>, TapErrorV>
    decreases m_lines(ls, i),
{
    if i < 0 {
        Ok(Seq::empty())
    } else {
        let j0 = skip_blanks(ls, i);
        let j = if j0 < i {
            i
        } else {
            j0
        };
        if j >= ls.len() {
            Ok(Seq::empty())
        } else if sp_plan(ls[j], 0) is Some {
            match sp_blocks(ls, j + 1) {
                Err(e) => Err(e),
                Ok(blocks) => Ok(
                    seq![BlockV { start: j, node: plan_node(sp_plan(ls[j], 0)->0) }] + blocks,
                ),
            }
        } else {
            match sp_children(ls, j, 0, true) {
                Err(e) => Err(e),
                Ok((stmts, nx)) => {
                    let nx2 = if nx < j + 1 {
                        j + 1
                    } else {
                        nx
                    };
                    match sp_blocks(ls, nx2) {
                        Err(e) => Err(e),
                        Ok(blocks) => if stmts.len() == 0 {
                            Ok(blocks)
                        } else {
                            Ok(seq![BlockV { start: j, node: par_v(Rule::Body, stmts) }] + blocks)
                        },
                    }
                },
            }
        }
    }
}

/// A whole document: the preamble on the first significant line, then its
/// regions.  Exactly one plan region and at most one body region may
/// follow, in either order; a lone plan leaves the body empty.  No plan at
/// all is the missing-plan error; a third region is a grammar error at its
/// first line.  Yields the document node: the preamble and two region
/// nodes.
pub open spec fn sp_document(ls: Seq<Seq<char>>) -> Result<NodeV, TapErrorV> {
    let i0 = skip_light(ls, 0);
    if i0 >= ls.len() {
        Err(TapErrorV::Grammar { line: i0, text: Seq::empty() })
    } else {
        match sp_preamble(ls[i0], 0) {
            None => Err(TapErrorV::Grammar { line: i0, text: ls[i0] }),
            Some(v) => match sp_blocks(ls, i0 + 1) {
                Err(e) => Err(e),
                Ok(blocks) => if blocks.len() == 0 {
                    Err(TapErrorV::MissingPlan)
                } else if blocks.len() == 1 {
                    if blocks[0].node.rule is Plan {
                        Ok(
                            par_v(
                                Rule::Document,
                                seq![
                                    preamble_node(v),
                                    blocks[0].node,
                                    par_v(Rule::Body, Seq::empty()),
                                ],
                            ),
                        )
                    } else {
                        Err(TapErrorV::MissingPlan)
                    }
                } else if blocks.len() == 2 {
                    Ok(
                        par_v(
                            Rule::Document,
                            seq![preamble_node(v), blocks[0].node, blocks[1].node],
                        ),
                    )
                } else {
                    Err(
                        TapErrorV::Grammar {
                            line: blocks[2].start,
                            text: line_at(ls, blocks[2].start),
                        },
                    )
                },
            },
        }
    }
}

} // verus!

verus! {

// --- executable line splitting ---

pub proof fn lemma_lines_view_insert(v: Seq<Vec<char>>, x: Vec<char>)
    ensures
        lines_view(v.insert(0, x)) == seq![x@] + lines_view(v),
{
    assert(lines_view(v.insert(0, x)) =~= seq![x@] + lines_view(v));
}

pub proof fn lemma_strs_view_insert(v: Seq<String>, x: String)
    ensures
        strs_view(v.insert(0, x)) == seq![x@] + strs_view(v),
{
    assert(strs_view(v.insert(0, x)) =~= seq![x@] + strs_view(v));
}

fn split_from(v: &Vec<char>, i: usize) -> (r: Vec<Vec<char>>)
    requires
        i <= v@.len(),
    ensures
        lines_view(r@) == sp_lines(v@, i as int),
    decreases v@.len() - i,
{
    let len = v.len();
    let mut j = i;
    while j < len && v[j] != '\n'
        invariant
            i <= j <= len == v@.len(),
            next_nl(v@, i as int) == next_nl(v@, j as int),
        decreases len - j,
    {
        j = j + 1;
    }
    proof {
        assert(next_nl(v@, i as int) == j);
    }
    let e = if j > i && v[j - 1] == '\r' {
        j - 1
    } else {
        j
    };
    let line = crate::text::sub_vec(v, i, e);
    proof {
        let raw = v@.subrange(i as int, j as int);
        if j > i && v@[j - 1] == '\r' {
            assert(raw.len() > 0 && raw.last() == '\r');
            assert(raw.drop_last() =~= v@.subrange(i as int, j - 1));
            assert(line@ == strip_cr(raw));
        } else {
            if raw.len() > 0 {
                assert(raw.last() == v@[j - 1]);
            }
            assert(line@ == strip_cr(raw));
        }
    }
    if j >= len {
        let mut r: Vec<Vec<char>> = Vec::new();
        r.push(line);
        proof {
            assert(lines_view(r@) =~= seq![strip_cr(v@.subrange(i as int, v@.len() as int))]);
        }
        r
    } else {
        let mut rest = split_from(v, j + 1);
        proof {
            lemma_lines_view_insert(rest@, line);
        }
        rest.insert(0, line);
        rest
    }
}

/// Splits a text into its lines.
pub fn split_lines(v: &Vec<char>) -> (r: Vec<Vec<char>>)
    ensures
        lines_view(r@) == sp_lines(v@, 0),
{
    split_from(v, 0)
}

// --- executable region scanning ---

/// First index at or after `i` of a non-blank line.
fn blanks_x(ls: &Vec<Vec<char>>, i: usize) -> (r: usize)
    requires
        i <= ls@.len(),
    ensures
        r == skip_blanks(lines_view(ls@), i as int),
        i <= r <= ls@.len(),
{
    let mut j = i;
    while j < ls.len() && blank_x(&ls[j])
        invariant
            i <= j <= ls@.len(),
            skip_blanks(lines_view(ls@), i as int) == skip_blanks(lines_view(ls@), j as int),
        decreases ls@.len() - j,
    {
        proof {
            assert(lines_view(ls@)[j as int] == ls@[j as int]@);
        }
        j = j + 1;
    }
    proof {
        if j < ls.len() {
            assert(lines_view(ls@)[j as int] == ls@[j as int]@);
        }
    }
    j
}

/// First index at or after `i` of a line that is neither blank nor a
/// comment.
fn light_x(ls: &Vec<Vec<char>>, i: usize) -> (r: usize)
    requires
        i <= ls@.len(),
    ensures
        r == skip_light(lines_view(ls@), i as int),
        i <= r <= ls@.len(),
{
    let mut j = i;
    loop
        invariant
            i <= j <= ls@.len(),
            skip_light(lines_view(ls@), i as int) == skip_light(lines_view(ls@), j as int),
        decreases ls@.len() - j,
    {
        if j >= ls.len() {
            return j;
        }
        let line = &ls[j];
        proof {
            assert(lines_view(ls@)[j as int] == ls@[j as int]@);
        }
        if blank_x(line) {
            j = j + 1;
            continue;
        }
        let ind = indent_x(line);
        if ind < line.len() {
            if line[ind] == '#' {
                j = j + 1;
                continue;
            }
        }
        return j;
    }
}

/// The line a grammar error at `el` carries.
fn line_text(ls: &Vec<Vec<char>>, el: usize) -> (r: String)
    ensures
        r@ == line_at(lines_view(ls@), el as int),
{
    if el < ls.len() {
        let line = &ls[el];
        let r = sub_string(line, 0, line.len());
        proof {
            assert(line@.subrange(0, line@.len() as int) =~= line@);
            assert(lines_view(ls@)[el as int] == ls@[el as int]@);
        }
        r
    } else {
        let r = String::new();
        r
    }
}

/// Reads the inside of one YAML block.
fn yaml_body_x(ls: &Vec<Vec<char>>, k: usize, m: usize) -> (r: Result<
    (Vec<String>, usize),
    usize,
>)
    requires
        k <= ls@.len(),
    ensures
        match r {
            Ok((cap, nx)) => sp_yaml_body(lines_view(ls@), k as int, m as int) == Ok::<
                (Seq<Seq<char>>, int),
                int,
            >((strs_view(cap@), nx as int)) && k < nx <= ls@.len(),
            Err(e) => sp_yaml_body(lines_view(ls@), k as int, m as int) == Err::<
                (Seq<Seq<char>>, int),
                int,
            >(e as int),
        },
    decreases ls@.len() - k,
{
    proof {
        reveal_strlit("...");
    }
    if k >= ls.len() {
        return Err(ls.len());
    }
    let line = &ls[k];
    proof {
        assert(lines_view(ls@)[k as int] == ls@[k as int]@);
    }
    let ind = indent_x(line);
    if ind == m && tail_is_x(line, m, "...") {
        let cap: Vec<String> = Vec::new();
        proof {
            assert(strs_view(cap@) =~= Seq::<Seq<char>>::empty());
        }
        return Ok((cap, k + 1));
    }
    if ind >= m {
        match yaml_body_x(ls, k + 1, m) {
            Ok((mut rest, nx)) => {
                let captured = sub_string(line, m, line.len());
                proof {
                    assert(line@.subrange(m as int, line@.len() as int) =~= line@.skip(m as int));
                    lemma_strs_view_insert(rest@, captured);
                }
                rest.insert(0, captured);
                Ok((rest, nx))
            },
            Err(e) => Err(e),
        }
    } else {
        Err(k)
    }
}

} // verus!

verus! {

/// Reads the run of YAML blocks after a test at indentation `n`.
fn yaml_blocks_x(ls: &Vec<Vec<char>>, i: usize, n: usize) -> (r: Result<(Vec<Node>, usize), usize>)
    requires
        i <= ls@.len(),
    ensures
        match r {
            Ok((blocks, nx)) => sp_yaml_blocks(lines_view(ls@), i as int, n as int) == Ok::<
                (Seq<NodeV>, int),
                int,
            >((nodes_view(blocks@), nx as int)) && nx <= ls@.len(),
            Err(e) => sp_yaml_blocks(lines_view(ls@), i as int, n as int) == Err::<
                (Seq<NodeV>, int),
                int,
            >(e as int),
        },
    decreases ls@.len() - i,
{
    proof {
        reveal_strlit("---");
    }
    let j = blanks_x(ls, i);
    if j >= ls.len() {
        let blocks = no_children();
        proof {
            assert(nodes_view(blocks@) =~= Seq::<NodeV>::empty());
        }
        return Ok((blocks, i));
    }
    let line = &ls[j];
    proof {
        assert(lines_view(ls@)[j as int] == ls@[j as int]@);
    }
    let ind = indent_x(line);
    if ind > n && tail_is_x(line, ind, "---") {
        match yaml_body_x(ls, j + 1, ind) {
            Err(e) => Err(e),
            Ok((cap, e)) => {
                let mut ch = no_children();
                let mut k: usize = 0;
                while k < cap.len()
                    invariant
                        k <= cap@.len(),
                        nodes_view(ch@) == Seq::new(
                            k as nat,
                            |q: int| tok_v(Rule::YamlLine, cap@[q]@),
                        ),
                    decreases cap@.len() - k,
                {
                    let sline = cap[k].clone();
                    proof {
                        assert(sline@ == cap@[k as int]@);
                    }
                    push_child(&mut ch, token(Rule::YamlLine, sline));
                    k = k + 1;
                    proof {
                        assert(nodes_view(ch@) =~= Seq::new(
                            k as nat,
                            |q: int| tok_v(Rule::YamlLine, cap@[q]@),
                        ));
                    }
                }
                let bnode = parent(Rule::YamlBlock, ch);
                proof {
                    assert(bnode@.children =~= yaml_block_node(strs_view(cap@)).children);
                    assert(bnode@ =~= yaml_block_node(strs_view(cap@)));
                }
                match yaml_blocks_x(ls, e, n) {
                    Err(e3) => Err(e3),
                    Ok((mut rest, nx)) => {
                        proof {
                            crate::node::lemma_nodes_view_insert_front(rest@, bnode);
                        }
                        rest.insert(0, bnode);
                        Ok((rest, nx))
                    },
                }
            },
        }
    } else {
        let blocks = no_children();
        proof {
            assert(nodes_view(blocks@) =~= Seq::<NodeV>::empty());
        }
        Ok((blocks, i))
    }
}

/// Wraps children, and a name when one was declared, as a subtest node.
fn make_subtest(name: Option<String>, ch: Vec<Node>) -> (n: Node)
    ensures
        n@ == subtest_node(
            match name {
                Some(s) => Some(s@),
                None => None,
            },
            nodes_view(ch@),
        ),
{
    match name {
        Some(nm) => {
            let mut v = ch;
            let ghost before = v@;
            let tk = token(Rule::Name, nm);
            proof {
                crate::node::lemma_nodes_view_insert_front(before, tk);
            }
            v.insert(0, tk);
            let n = parent(Rule::Subtest, v);
            proof {
                assert(n@ =~= subtest_node(Some(nm@), nodes_view(before)));
            }
            n
        },
        None => {
            let ghost chv = nodes_view(ch@);
            let n = parent(Rule::Subtest, ch);
            proof {
                assert(n@ =~= subtest_node(None, chv));
            }
            n
        },
    }
}

/// Reads the run of constructs at indentation `n` from line `i` on.
#[verifier::rlimit(60)]
fn children_x(ls: &Vec<Vec<char>>, i: usize, n: usize, top: bool) -> (r: Result<
    (Vec<Node>, usize),
    TapError,
>)
    requires
        i <= ls@.len(),
    ensures
        match r {
            Ok((nodes, nx)) => sp_children(lines_view(ls@), i as int, n as int, top) == Ok::<
                (Seq<NodeV>, int),
                TapErrorV,
            >((nodes_view(nodes@), nx as int)) && nx <= ls@.len(),
            Err(e) => sp_children(lines_view(ls@), i as int, n as int, top) == Err::<
                (Seq<NodeV>, int),
                TapErrorV,
            >(e@),
        },
    decreases m_lines(lines_view(ls@), i as int), m_indent(lines_view(ls@), i as int, n as int),
{
    if i >= ls.len() {
        let nodes = no_children();
        proof {
            assert(nodes_view(nodes@) =~= Seq::<NodeV>::empty());
        }
        return Ok((nodes, ls.len()));
    }
    let line = &ls[i];
    proof {
        assert(lines_view(ls@)[i as int] == ls@[i as int]@);
    }
    if blank_x(line) {
        return children_x(ls, i + 1, n, top);
    }
    let ind = indent_x(line);
    if ind < n {
        let nodes = no_children();
        proof {
            assert(nodes_view(nodes@) =~= Seq::<NodeV>::empty());
        }
        return Ok((nodes, i));
    }
    if ind > n {
        return match children_x(ls, i, ind, false) {
            Err(e) => Err(e),
            Ok((ch, nx)) => {
                let node = make_subtest(None, ch);
                let nx2 = if nx < i + 1 {
                    i + 1
                } else {
                    nx
                };
                match children_x(ls, nx2, n, top) {
                    Err(e) => Err(e),
                    Ok((mut rest, end)) => {
                        proof {
                            crate::node::lemma_nodes_view_insert_front(rest@, node);
                        }
                        rest.insert(0, node);
                        Ok((rest, end))
                    },
                }
            },
        };
    }
    if let Some(pnode) = scan_plan(line, n) {
        if top {
            let nodes = no_children();
            proof {
                assert(nodes_view(nodes@) =~= Seq::<NodeV>::empty());
            }
            return Ok((nodes, i));
        }
        return match children_x(ls, i + 1, n, top) {
            Err(e) => Err(e),
            Ok((mut rest, end)) => {
                proof {
                    crate::node::lemma_nodes_view_insert_front(rest@, pnode);
                }
                rest.insert(0, pnode);
                Ok((rest, end))
            },
        };
    }
    if let Some(tch) = scan_test(line, n) {
        return match yaml_blocks_x(ls, i + 1, n) {
            Err(el) => Err(TapError::Grammar { line: el, text: line_text(ls, el) }),
            Ok((mut yaml, nx)) => {
                let mut tc = tch;
                let ghost tcv = nodes_view(tc@);
                let ghost yv = nodes_view(yaml@);
                proof {
                    crate::node::lemma_nodes_view_concat(tc@, yaml@);
                }
                tc.append(&mut yaml);
                let node = parent(Rule::Test, tc);
                proof {
                    assert(node@ =~= test_node(
                        sp_test(lines_view(ls@)[i as int], n as int)->0,
                        yv,
                    ));
                }
                let nx2 = if nx < i + 1 {
                    i + 1
                } else {
                    nx
                };
                match children_x(ls, nx2, n, top) {
                    Err(e) => Err(e),
                    Ok((mut rest, end)) => {
                        proof {
                            crate::node::lemma_nodes_view_insert_front(rest@, node);
                        }
                        rest.insert(0, node);
                        Ok((rest, end))
                    },
                }
            },
        };
    }
    if let Some(bnode) = scan_bail(line, n) {
        return match children_x(ls, i + 1, n, top) {
            Err(e) => Err(e),
            Ok((mut rest, end)) => {
                proof {
                    crate::node::lemma_nodes_view_insert_front(rest@, bnode);
                }
                rest.insert(0, bnode);
                Ok((rest, end))
            },
        };
    }
    if let Some(gnode) = scan_pragma(line, n) {
        return match children_x(ls, i + 1, n, top) {
            Err(e) => Err(e),
            Ok((mut rest, end)) => {
                proof {
                    crate::node::lemma_nodes_view_insert_front(rest@, gnode);
                }
                rest.insert(0, gnode);
                Ok((rest, end))
            },
        };
    }
    proof {
        crate::text::lemma_skip_spaces(line@, 0);
        if ind == line@.len() {
            assert(blank(line@));
        }
    }
    if line[ind] == '#' {
        let j = blanks_x(ls, i + 1);
        if let Some(nm) = scan_subtest_name(line, n) {
            if j < ls.len() {
                let jind = indent_x(&ls[j]);
                proof {
                    assert(lines_view(ls@)[j as int] == ls@[j as int]@);
                }
                if jind > n {
                    return match children_x(ls, j, jind, false) {
                        Err(e) => Err(e),
                        Ok((ch, nx)) => {
                            let node = make_subtest(Some(nm), ch);
                            let nx2 = if nx < i + 1 {
                                i + 1
                            } else {
                                nx
                            };
                            match children_x(ls, nx2, n, top) {
                                Err(e) => Err(e),
                                Ok((mut rest, end)) => {
                                    proof {
                                        crate::node::lemma_nodes_view_insert_front(rest@, node);
                                    }
                                    rest.insert(0, node);
                                    Ok((rest, end))
                                },
                            }
                        },
                    };
                }
            }
            return children_x(ls, i + 1, n, top);
        }
        return children_x(ls, i + 1, n, top);
    }
    let node = token(Rule::Anything, sub_string(line, n, line.len()));
    proof {
        assert(line@.subrange(n as int, line@.len() as int) =~= line@.skip(n as int));
    }
    match children_x(ls, i + 1, n, top) {
        Err(e) => Err(e),
        Ok((mut rest, end)) => {
            proof {
                crate::node::lemma_nodes_view_insert_front(rest@, node);
            }
            rest.insert(0, node);
            Ok((rest, end))
        },
    }
}

} // verus!

verus! {

// --- top-level regions, executably ---

/// One top-level region as scanned: where it starts, and its node.
#[derive(Debug, PartialEq, Eq)]
pub struct RegionBlock {
    /// Index of the region's first line.
    pub start: usize,
    /// The region's node: a plan, or a body of statements.
    pub node: Node,
}

/// The models of a vector of regions.
pub open spec fn blocks_view(s: Seq<RegionBlock>) -> Seq<BlockV> {
    Seq::new(
        s.len(),
        |i: int| BlockV { start: s[i].start as int, node: crate::node::node_view(s[i].node) },
    )
}

proof fn lemma_blocks_view_insert(v: Seq<RegionBlock>, x: RegionBlock)
    ensures
        blocks_view(v.insert(0, x)) == seq![
            BlockV { start: x.start as int, node: crate::node::node_view(x.node) },
        ] + blocks_view(v),
{
    assert(blocks_view(v.insert(0, x)) =~= seq![
        BlockV { start: x.start as int, node: crate::node::node_view(x.node) },
    ] + blocks_view(v));
}

/// Scans the top-level regions from line `i` on.
fn blocks_x(ls: &Vec<Vec<char>>, i: usize) -> (r: Result<Vec<RegionBlock>, TapError>)
    requires
        i <= ls@.len(),
    ensures
        match r {
            Ok(bs) => sp_blocks(lines_view(ls@), i as int) == Ok::<Seq<BlockV>, TapErrorV>(
                blocks_view(bs@),
            ),
            Err(e) => sp_blocks(lines_view(ls@), i as int) == Err::<Seq<BlockV>, TapErrorV>(e@),
        },
    decreases ls@.len() - i,
{
    let j = blanks_x(ls, i);
    if j >= ls.len() {
        let bs: Vec<RegionBlock> = Vec::new();
        proof {
            assert(blocks_view(bs@) =~= Seq::<BlockV>::empty());
        }
        return Ok(bs);
    }
    let line = &ls[j];
    proof {
        assert(lines_view(ls@)[j as int] == ls@[j as int]@);
    }
    if let Some(pn) = scan_plan(line, 0) {
        match blocks_x(ls, j + 1) {
            Err(e) => Err(e),
            Ok(mut bs) => {
                let blk = RegionBlock { start: j, node: pn };
                proof {
                    lemma_blocks_view_insert(bs@, blk);
                }
                bs.insert(0, blk);
                Ok(bs)
            },
        }
    } else {
        match children_x(ls, j, 0, true) {
            Err(e) => Err(e),
            Ok((stmts, nx)) => {
                let nx2 = if nx < j + 1 {
                    j + 1
                } else {
                    nx
                };
                match blocks_x(ls, nx2) {
                    Err(e) => Err(e),
                    Ok(mut bs) => {
                        proof {
                            crate::node::lemma_nodes_view_len(stmts@);
                        }
                        if stmts.len() == 0 {
                            Ok(bs)
                        } else {
                            let blk = RegionBlock { start: j, node: parent(Rule::Body, stmts) };
                            proof {
                                lemma_blocks_view_insert(bs@, blk);
                            }
                            bs.insert(0, blk);
                            Ok(bs)
                        }
                    },
                }
            },
        }
    }
}

/// Scans a whole document.
fn document_x(ls: &Vec<Vec<char>>) -> (r: Result<Node, TapError>)
    ensures
        match r {
            Ok(n) => sp_document(lines_view(ls@)) == Ok::<NodeV, TapErrorV>(n@),
            Err(e) => sp_document(lines_view(ls@)) == Err::<NodeV, TapErrorV>(e@),
        },
{
    let i0 = light_x(ls, 0);
    if i0 >= ls.len() {
        return Err(TapError::Grammar { line: i0, text: String::new() });
    }
    let line = &ls[i0];
    proof {
        assert(lines_view(ls@)[i0 as int] == ls@[i0 as int]@);
    }
    match scan_preamble(line, 0) {
        None => Err(TapError::Grammar { line: i0, text: line_text(ls, i0) }),
        Some(pre) => match blocks_x(ls, i0 + 1) {
            Err(e) => Err(e),
            Ok(mut bs) => {
                if bs.len() == 0 {
                    Err(TapError::MissingPlan)
                } else if bs.len() == 1 {
                    let b0 = bs.remove(0);
                    if matches!(b0.node.rule, Rule::Plan) {
                        let mut ch = no_children();
                        push_child(&mut ch, pre);
                        push_child(&mut ch, b0.node);
                        push_child(&mut ch, parent(Rule::Body, no_children()));
                        let n = parent(Rule::Document, ch);
                        proof {
                            assert(n@.children =~= seq![
                                pre@,
                                crate::node::node_view(b0.node),
                                par_v(Rule::Body, Seq::empty()),
                            ]);
                        }
                        Ok(n)
                    } else {
                        Err(TapError::MissingPlan)
                    }
                } else if bs.len() == 2 {
                    let b0 = bs.remove(0);
                    let b1 = bs.remove(0);
                    let mut ch = no_children();
                    push_child(&mut ch, pre);
                    push_child(&mut ch, b0.node);
                    push_child(&mut ch, b1.node);
                    let n = parent(Rule::Document, ch);
                    proof {
                        assert(n@.children =~= seq![
                            pre@,
                            crate::node::node_view(b0.node),
                            crate::node::node_view(b1.node),
                        ]);
                    }
                    Ok(n)
                } else {
                    let start = bs[2].start;
                    Err(TapError::Grammar { line: start, text: line_text(ls, start) })
                }
            },
        },
    }
}

// --- the parse entry point ---

/// One single-line rule, applied to a whole text: exactly one significant
/// line, which the production must match.
pub open spec fn sp_one(ls: Seq<Seq<char>>, prod: Option<NodeV>) -> Result<NodeV, TapErrorV> {
    let i = skip_blanks(ls, 0);
    if i >= ls.len() {
        Err(TapErrorV::Grammar { line: i, text: Seq::empty() })
    } else {
        match prod {
            None => Err(TapErrorV::Grammar { line: i, text: ls[i] }),
            Some(nd) => {
                let j = skip_blanks(ls, i + 1);
                if j < ls.len() {
                    Err(TapErrorV::Grammar { line: j, text: ls[j] })
                } else {
                    Ok(nd)
                }
            },
        }
    }
}

/// One statement read from a whole text: the lines must form exactly one
/// construct — a subtest, when `must_subtest` — and nothing further.
pub open spec fn sp_stmt_rule(ls: Seq<Seq<char>>, must_subtest: bool) -> Result<
    NodeV,
    TapErrorV,
> {
    match sp_children(ls, 0, 0, true) {
        Err(e) => Err(e),
        Ok((stmts, nx)) => {
            let nx2 = if nx < 0 {
                0
            } else {
                nx
            };
            let j = skip_blanks(ls, nx2);
            if stmts.len() == 1 && j >= ls.len() && (!must_subtest || stmts[0].rule is Subtest) {
                Ok(stmts[0])
            } else {
                Err(TapErrorV::Grammar { line: j, text: line_at(ls, j) })
            }
        },
    }
}

/// What parsing a text under each rule yields: the node of the matched
/// construct, or the error.  The construct rules — document, preamble,
/// plan, test, directive, bail-out, pragma, subtest, statement — are the
/// parseable ones; a token rule matches no text on its own.
pub open spec fn sp_rule(rule: Rule, text: Seq<char>) -> Result<NodeV, TapErrorV> {
    let ls = sp_lines(text, 0);
    let i = skip_blanks(ls, 0);
    match rule {
        Rule::Document => sp_document(ls),
        Rule::Preamble => sp_one(
            ls,
            if i < ls.len() {
                match sp_preamble(ls[i], 0) {
                    Some(v) => Some(preamble_node(v)),
                    None => None,
                }
            } else {
                None
            },
        ),
        Rule::Plan => sp_one(
            ls,
            if i < ls.len() {
                match sp_plan(ls[i], 0) {
                    Some(t) => Some(plan_node(t)),
                    None => None,
                }
            } else {
                None
            },
        ),
        Rule::Directive => sp_one(
            ls,
            if i < ls.len() {
                match sp_directive(ls[i], 0) {
                    Some(t) => Some(dir_node(t)),
                    None => None,
                }
            } else {
                None
            },
        ),
        Rule::BailOut => sp_one(
            ls,
            if i < ls.len() {
                match sp_bail(ls[i], 0) {
                    Some(t) => Some(bail_node(t)),
                    None => None,
                }
            } else {
                None
            },
        ),
        Rule::Pragma => sp_one(
            ls,
            if i < ls.len() {
                match sp_pragma(ls[i], 0) {
                    Some(t) => Some(pragma_node(t)),
                    None => None,
                }
            } else {
                None
            },
        ),
        Rule::Test => if i >= ls.len() {
            Err(TapErrorV::Grammar { line: i, text: Seq::empty() })
        } else {
            match sp_test(ls[i], 0) {
                None => Err(TapErrorV::Grammar { line: i, text: ls[i] }),
                Some(t) => match sp_yaml_blocks(ls, i + 1, 0) {
                    Err(el) => Err(TapErrorV::Grammar { line: el, text: line_at(ls, el) }),
                    Ok((yaml, nx)) => {
                        let nx2 = if nx < i + 1 {
                            i + 1
                        } else {
                            nx
                        };
                        let j = skip_blanks(ls, nx2);
                        if j < ls.len() {
                            Err(TapErrorV::Grammar { line: j, text: ls[j] })
                        } else {
                            Ok(test_node(t, yaml))
                        }
                    },
                },
            }
        },
        Rule::Statement => sp_stmt_rule(ls, false),
        Rule::Subtest => sp_stmt_rule(ls, true),
        _ => Err(TapErrorV::Malformed),
    }
}

/// The grammar layer's entry point.
pub struct TAPParser;

impl TAPParser {
    /// Parses `content` under the given rule, yielding the construct's
    /// untyped node.  The whole text must belong to the construct: blank
    /// lines may surround it, but any further text is a grammar error.
    pub fn parse(rule: Rule, content: &str) -> (r: Result<Node, TapError>)
        ensures
            match r {
                Ok(n) => sp_rule(rule, content@) == Ok::<NodeV, TapErrorV>(n@),
                Err(e) => sp_rule(rule, content@) == Err::<NodeV, TapErrorV>(e@),
            },
    {
        let chars = to_chars(content);
        let ls = split_lines(&chars);
        let i = blanks_x(&ls, 0);
        match rule {
            Rule::Document => document_x(&ls),
            Rule::Preamble => {
                if i >= ls.len() {
                    return Err(TapError::Grammar { line: i, text: String::new() });
                }
                proof {
                    assert(lines_view(ls@)[i as int] == ls@[i as int]@);
                }
                match scan_preamble(&ls[i], 0) {
                    None => Err(TapError::Grammar { line: i, text: line_text(&ls, i) }),
                    Some(nd) => {
                        let j = blanks_x(&ls, i + 1);
                        if j < ls.len() {
                            Err(TapError::Grammar { line: j, text: line_text(&ls, j) })
                        } else {
                            Ok(nd)
                        }
                    },
                }
            },
            Rule::Plan => {
                if i >= ls.len() {
                    return Err(TapError::Grammar { line: i, text: String::new() });
                }
                proof {
                    assert(lines_view(ls@)[i as int] == ls@[i as int]@);
                }
                match scan_plan(&ls[i], 0) {
                    None => Err(TapError::Grammar { line: i, text: line_text(&ls, i) }),
                    Some(nd) => {
                        let j = blanks_x(&ls, i + 1);
                        if j < ls.len() {
                            Err(TapError::Grammar { line: j, text: line_text(&ls, j) })
                        } else {
                            Ok(nd)
                        }
                    },
                }
            },
            Rule::Directive => {
                if i >= ls.len() {
                    return Err(TapError::Grammar { line: i, text: String::new() });
                }
                proof {
                    assert(lines_view(ls@)[i as int] == ls@[i as int]@);
                }
                match scan_directive(&ls[i], 0) {
                    None => Err(TapError::Grammar { line: i, text: line_text(&ls, i) }),
                    Some(nd) => {
                        let j = blanks_x(&ls, i + 1);
                        if j < ls.len() {
                            Err(TapError::Grammar { line: j, text: line_text(&ls, j) })
                        } else {
                            Ok(nd)
                        }
                    },
                }
            },
            Rule::BailOut => {
                if i >= ls.len() {
                    return Err(TapError::Grammar { line: i, text: String::new() });
                }
                proof {
                    assert(lines_view(ls@)[i as int] == ls@[i as int]@);
                }
                match scan_bail(&ls[i], 0) {
                    None => Err(TapError::Grammar { line: i, text: line_text(&ls, i) }),
                    Some(nd) => {
                        let j = blanks_x(&ls, i + 1);
                        if j < ls.len() {
                            Err(TapError::Grammar { line: j, text: line_text(&ls, j) })
                        } else {
                            Ok(nd)
                        }
                    },
                }
            },
            Rule::Pragma => {
                if i >= ls.len() {
                    return Err(TapError::Grammar { line: i, text: String::new() });
                }
                proof {
                    assert(lines_view(ls@)[i as int] == ls@[i as int]@);
                }
                match scan_pragma(&ls[i], 0) {
                    None => Err(TapError::Grammar { line: i, text: line_text(&ls, i) }),
                    Some(nd) => {
                        let j = blanks_x(&ls, i + 1);
                        if j < ls.len() {
                            Err(TapError::Grammar { line: j, text: line_text(&ls, j) })
                        } else {
                            Ok(nd)
                        }
                    },
                }
            },
            Rule::Test => {
                if i >= ls.len() {
                    return Err(TapError::Grammar { line: i, text: String::new() });
                }
                proof {
                    assert(lines_view(ls@)[i as int] == ls@[i as int]@);
                }
                match scan_test(&ls[i], 0) {
                    None => Err(TapError::Grammar { line: i, text: line_text(&ls, i) }),
                    Some(tch) => match yaml_blocks_x(&ls, i + 1, 0) {
                        Err(el) => Err(TapError::Grammar { line: el, text: line_text(&ls, el) }),
                        Ok((mut yaml, nx)) => {
                            let nx2 = if nx < i + 1 {
                                i + 1
                            } else {
                                nx
                            };
                            let j = blanks_x(&ls, nx2);
                            if j < ls.len() {
                                Err(TapError::Grammar { line: j, text: line_text(&ls, j) })
                            } else {
                                let mut tc = tch;
                                let ghost yv = nodes_view(yaml@);
                                proof {
                                    crate::node::lemma_nodes_view_concat(tc@, yaml@);
                                }
                                tc.append(&mut yaml);
                                let node = parent(Rule::Test, tc);
                                proof {
                                    assert(node@ =~= test_node(
                                        sp_test(lines_view(ls@)[i as int], 0)->0,
                                        yv,
                                    ));
                                }
                                Ok(node)
                            }
                        },
                    },
                }
            },
            Rule::Statement => Self::stmt_rule_x(&ls, false),
            Rule::Subtest => Self::stmt_rule_x(&ls, true),
            _ => Err(TapError::Malformed),
        }
    }

    /// Reads exactly one statement from the lines.
    fn stmt_rule_x(ls: &Vec<Vec<char>>, must_subtest: bool) -> (r: Result<Node, TapError>)
        ensures
            match r {
                Ok(n) => sp_stmt_rule(lines_view(ls@), must_subtest) == Ok::<NodeV, TapErrorV>(
                    n@,
                ),
                Err(e) => sp_stmt_rule(lines_view(ls@), must_subtest) == Err::<
                    NodeV,
                    TapErrorV,
                >(e@),
            },
    {
        match children_x(ls, 0, 0, true) {
            Err(e) => Err(e),
            Ok((mut stmts, nx)) => {
                let j = blanks_x(ls, nx);
                proof {
                    crate::node::lemma_nodes_view_len(stmts@);
                }
                if stmts.len() == 1 && j >= ls.len() {
                    let nd = stmts.remove(0);
                    proof {
                        crate::node::lemma_nodes_view_index(stmts@.insert(0, nd), 0);
                        assert(stmts@.insert(0, nd)[0] == nd);
                    }
                    if !must_subtest || matches!(nd.rule, Rule::Subtest) {
                        proof {
                            let sv = sp_children(lines_view(ls@), 0, 0, true)->Ok_0.0;
                            assert(sv[0] == nd@);
                        }
                        Ok(nd)
                    } else {
                        Err(
                            TapError::Grammar {
                                line: j,
                                text: line_text(ls, j),
                            },
                        )
                    }
                } else {
                    Err(TapError::Grammar { line: j, text: line_text(ls, j) })
                }
            },
        }
    }
}

} // verus!
