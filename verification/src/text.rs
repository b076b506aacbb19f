//! Characters and low-level scanning.
//!
//! Lines of a TAP stream are handled as sequences of characters.  This module
//! fixes the character classes the grammar speaks of (whitespace, digits,
//! identifier characters, ASCII case folding) and provides the scanning
//! primitives the line grammar is written with, each as a spec function with
//! a verified executable counterpart.

use vstd::prelude::*;

verus! {

/// Horizontal whitespace inside a line.
pub open spec fn is_ws(c: char) -> bool {
    c == ' ' || c == '\t' || c == '\r'
}

/// An ASCII decimal digit.
pub open spec fn is_digit(c: char) -> bool {
    '0' <= c && c <= '9'
}

/// A character allowed in a pragma option identifier.
pub open spec fn is_ident(c: char) -> bool {
    ('a' <= c && c <= 'z') || ('A' <= c && c <= 'Z') || is_digit(c) || c == '_'
}

/// ASCII case folding: capitals fold to their lowercase form, everything
/// else is left alone.  Keywords of the grammar are compared through this.
pub open spec fn lower(c: char) -> char {
    if 'A' <= c && c <= 'Z' {
        (((c as u8) + 32) as char)
    } else {
        c
    }
}

/// Case folding applied to a whole sequence.
pub open spec fn lower_seq(s: Seq<char>) -> Seq<char> {
    s.map_values(|c: char| lower(c))
}

/// A blank line: nothing but horizontal whitespace.
pub open spec fn blank(s: Seq<char>) -> bool {
    forall|i: int| 0 <= i < s.len() ==> is_ws(#[trigger] s[i])
}

/// The keyword `kw` (written in lowercase) stands at position `i` of `s`,
/// compared case-insensitively.
pub open spec fn kw_at(s: Seq<char>, i: int, kw: Seq<char>) -> bool {
    &&& 0 <= i
    &&& i + kw.len() <= s.len()
    &&& forall|k: int| 0 <= k < kw.len() ==> lower(s[i + k]) == kw[k]
}

/// First position at or after `i` holding something other than horizontal
/// whitespace; the length of `s` if only whitespace remains.
pub open spec fn skip_ws(s: Seq<char>, i: int) -> int
    decreases s.len() - i,
{
    if i < 0 || i >= s.len() {
        s.len() as int
    } else if is_ws(s[i]) {
        skip_ws(s, i + 1)
    } else {
        i
    }
}

/// First position at or after `i` holding a character other than `' '`.
/// Applied at position 0 this measures a line's indentation.
pub open spec fn skip_spaces(s: Seq<char>, i: int) -> int
    decreases s.len() - i,
{
    if i < 0 || i >= s.len() {
        s.len() as int
    } else if s[i] == ' ' {
        skip_spaces(s, i + 1)
    } else {
        i
    }
}

/// A line's indentation: the number of leading space characters.
pub open spec fn indent_of(s: Seq<char>) -> int {
    skip_spaces(s, 0)
}

/// First position at or after `i` holding a non-digit.
pub open spec fn skip_digits(s: Seq<char>, i: int) -> int
    decreases s.len() - i,
{
    if i < 0 || i >= s.len() {
        s.len() as int
    } else if is_digit(s[i]) {
        skip_digits(s, i + 1)
    } else {
        i
    }
}

/// First position at or after `i` holding a non-identifier character.
pub open spec fn skip_ident(s: Seq<char>, i: int) -> int
    decreases s.len() - i,
{
    if i < 0 || i >= s.len() {
        s.len() as int
    } else if is_ident(s[i]) {
        skip_ident(s, i + 1)
    } else {
        i
    }
}

/// First position at or after `i` holding `'#'`; the length of `s` if none.
pub open spec fn find_hash(s: Seq<char>, i: int) -> int
    decreases s.len() - i,
{
    if i < 0 || i >= s.len() {
        s.len() as int
    } else if s[i] == '#' {
        i
    } else {
        find_hash(s, i + 1)
    }
}

/// Position just after the last non-whitespace character at or after `i`;
/// `i` itself if everything from `i` on is whitespace.
pub open spec fn rtrim(s: Seq<char>, i: int) -> int
    decreases s.len(),
{
    if s.len() == 0 || i >= s.len() {
        i
    } else if is_ws(s.last()) {
        rtrim(s.drop_last(), i)
    } else {
        s.len() as int
    }
}

pub proof fn lemma_skip_spaces(s: Seq<char>, i: int)
    requires
        0 <= i <= s.len(),
    ensures
        i <= skip_spaces(s, i) <= s.len(),
        forall|k: int| i <= k < skip_spaces(s, i) ==> #[trigger] s[k] == ' ',
        skip_spaces(s, i) < s.len() ==> s[skip_spaces(s, i)] != ' ',
    decreases s.len() - i,
{
    if i < s.len() && s[i] == ' ' {
        lemma_skip_spaces(s, i + 1);
    }
}

// --- executable counterparts ---

/// Collects the characters of a string slice into a vector.
pub fn to_chars(s: &str) -> (r: Vec<char>)
    ensures
        r@ == s@,
{
    let n = s.unicode_len();
    let mut out: Vec<char> = Vec::new();
    let mut i: usize = 0;
    while i < n
        invariant
            n == s@.len(),
            i <= n,
            out@ == s@.take(i as int),
        decreases n - i,
    {
        out.push(s.get_char(i));
        i = i + 1;
        assert(out@ =~= s@.take(i as int));
    }
    assert(out@ =~= s@);
    out
}

/// Relies on `String` as `FromIterator<char>`: collecting an iterator of
/// characters yields the string holding exactly those characters in order.
#[verifier::external_body]
fn string_from_chars(v: &Vec<char>) -> (r: String)
    ensures
        r@ == v@,
{
    v.iter().collect()
}

/// Copies the characters of `s[from..to]` into a fresh string.
pub fn sub_string(s: &Vec<char>, from: usize, to: usize) -> (r: String)
    requires
        from <= to <= s@.len(),
    ensures
        r@ == s@.subrange(from as int, to as int),
{
    let mut part: Vec<char> = Vec::new();
    let mut i: usize = from;
    while i < to
        invariant
            from <= i <= to <= s@.len(),
            part@ == s@.subrange(from as int, i as int),
        decreases to - i,
    {
        part.push(s[i]);
        i = i + 1;
        assert(part@ =~= s@.subrange(from as int, i as int));
    }
    string_from_chars(&part)
}

/// Executable case folding for one character.
pub fn lower_x(c: char) -> (r: char)
    ensures
        r == lower(c),
{
    if 'A' <= c && c <= 'Z' {
        ((c as u8) + 32) as char
    } else {
        c
    }
}

pub fn is_ws_x(c: char) -> (r: bool)
    ensures
        r == is_ws(c),
{
    c == ' ' || c == '\t' || c == '\r'
}

/// Whether the whole line is whitespace.
pub fn blank_x(s: &Vec<char>) -> (r: bool)
    ensures
        r == blank(s@),
{
    let mut i: usize = 0;
    while i < s.len()
        invariant
            i <= s@.len(),
            forall|k: int| 0 <= k < i ==> is_ws(#[trigger] s@[k]),
        decreases s@.len() - i,
    {
        if !is_ws_x(s[i]) {
            return false;
        }
        i = i + 1;
    }
    true
}

/// Whether `kw` (a lowercase keyword) stands at position `i`, compared
/// case-insensitively.
pub fn kw_at_x(s: &Vec<char>, i: usize, kw: &str) -> (r: bool)
    requires
        i <= s@.len(),
    ensures
        r == kw_at(s@, i as int, kw@),
{
    let n = kw.unicode_len();
    if n > s.len() - i {
        return false;
    }
    let mut k: usize = 0;
    while k < n
        invariant
            i + n <= s@.len() <= usize::MAX,
            n == kw@.len(),
            k <= n,
            forall|j: int| 0 <= j < k ==> lower(s@[i + j]) == kw@[j],
        decreases n - k,
    {
        if lower_x(s[i + k]) != kw.get_char(k) {
            return false;
        }
        k = k + 1;
    }
    true
}

/// Whether `s[off..]` is exactly the text `t`.
pub fn tail_is_x(s: &Vec<char>, off: usize, t: &str) -> (r: bool)
    requires
        off <= s@.len(),
    ensures
        r == (s@.skip(off as int) == t@),
{
    let n = t.unicode_len();
    if s.len() - off != n {
        assert(s@.skip(off as int).len() != t@.len());
        return false;
    }
    let mut k: usize = 0;
    while k < n
        invariant
            off + n == s@.len() <= usize::MAX,
            n == t@.len(),
            k <= n,
            forall|j: int| 0 <= j < k ==> s@[off + j] == t@[j],
        decreases n - k,
    {
        if s[off + k] != t.get_char(k) {
            assert(s@.skip(off as int)[k as int] != t@[k as int]);
            return false;
        }
        k = k + 1;
    }
    assert(s@.skip(off as int) =~= t@);
    true
}

pub fn skip_ws_x(s: &Vec<char>, i: usize) -> (r: usize)
    requires
        i <= s@.len(),
    ensures
        r == skip_ws(s@, i as int),
        i <= r <= s@.len(),
{
    let mut j: usize = i;
    while j < s.len() && is_ws_x(s[j])
        invariant
            i <= j <= s@.len(),
            skip_ws(s@, i as int) == skip_ws(s@, j as int),
        decreases s@.len() - j,
    {
        j = j + 1;
    }
    j
}

pub fn skip_spaces_x(s: &Vec<char>, i: usize) -> (r: usize)
    requires
        i <= s@.len(),
    ensures
        r == skip_spaces(s@, i as int),
        i <= r <= s@.len(),
{
    let mut j: usize = i;
    while j < s.len() && s[j] == ' '
        invariant
            i <= j <= s@.len(),
            skip_spaces(s@, i as int) == skip_spaces(s@, j as int),
        decreases s@.len() - j,
    {
        j = j + 1;
    }
    j
}

/// A line's indentation, executably.
pub fn indent_x(s: &Vec<char>) -> (r: usize)
    ensures
        r == indent_of(s@),
        r <= s@.len(),
{
    skip_spaces_x(s, 0)
}

pub fn is_digit_x(c: char) -> (r: bool)
    ensures
        r == is_digit(c),
{
    '0' <= c && c <= '9'
}

pub fn skip_digits_x(s: &Vec<char>, i: usize) -> (r: usize)
    requires
        i <= s@.len(),
    ensures
        r == skip_digits(s@, i as int),
        i <= r <= s@.len(),
{
    let mut j: usize = i;
    while j < s.len() && is_digit_x(s[j])
        invariant
            i <= j <= s@.len(),
            skip_digits(s@, i as int) == skip_digits(s@, j as int),
        decreases s@.len() - j,
    {
        j = j + 1;
    }
    j
}

pub fn is_ident_x(c: char) -> (r: bool)
    ensures
        r == is_ident(c),
{
    ('a' <= c && c <= 'z') || ('A' <= c && c <= 'Z') || ('0' <= c && c <= '9') || c == '_'
}

pub fn skip_ident_x(s: &Vec<char>, i: usize) -> (r: usize)
    requires
        i <= s@.len(),
    ensures
        r == skip_ident(s@, i as int),
        i <= r <= s@.len(),
{
    let mut j: usize = i;
    while j < s.len() && is_ident_x(s[j])
        invariant
            i <= j <= s@.len(),
            skip_ident(s@, i as int) == skip_ident(s@, j as int),
        decreases s@.len() - j,
    {
        j = j + 1;
    }
    j
}

pub fn find_hash_x(s: &Vec<char>, i: usize) -> (r: usize)
    requires
        i <= s@.len(),
    ensures
        r == find_hash(s@, i as int),
        i <= r <= s@.len(),
{
    let mut j: usize = i;
    while j < s.len() && s[j] != '#'
        invariant
            i <= j <= s@.len(),
            find_hash(s@, i as int) == find_hash(s@, j as int),
        decreases s@.len() - j,
    {
        j = j + 1;
    }
    j
}

pub fn rtrim_x(s: &Vec<char>, i: usize) -> (r: usize)
    requires
        i <= s@.len(),
    ensures
        r == rtrim(s@, i as int),
        i <= r <= s@.len(),
{
    proof {
        assert(s@.take(s@.len() as int) =~= s@);
    }
    let mut j: usize = s.len();
    while j > i && is_ws_x(s[j - 1])
        invariant
            i <= j <= s@.len(),
            rtrim(s@, i as int) == rtrim(s@.take(j as int), i as int),
        decreases j,
    {
        proof {
            let t = s@.take(j as int);
            assert(t.drop_last() =~= s@.take(j - 1));
            assert(t.last() == s@[j - 1]);
        }
        j = j - 1;
    }
    proof {
        let t = s@.take(j as int);
        if j == i {
            assert(rtrim(t, i as int) == i);
        } else {
            assert(t.len() > 0 && i < t.len() && !is_ws(t.last()));
            assert(rtrim(t, i as int) == j);
        }
    }
    j
}

} // verus!

verus! {

/// A non-empty run of decimal digits.
pub open spec fn all_digits(s: Seq<char>) -> bool {
    s.len() > 0 && forall|i: int| 0 <= i < s.len() ==> is_digit(#[trigger] s[i])
}

/// Numeric value of one decimal digit.
pub open spec fn digit_val(c: char) -> int {
    c as int - '0' as int
}

/// Value of a run of decimal digits, most significant first.
pub open spec fn digits_val(s: Seq<char>) -> int
    decreases s.len(),
{
    if s.len() == 0 {
        0
    } else {
        digits_val(s.drop_last()) * 10 + digit_val(s.last())
    }
}

/// Value of an integer token: an optional leading minus sign followed by one
/// or more digits.  Anything else has no value.
pub open spec fn int_token_val(s: Seq<char>) -> Option<int> {
    if s.len() > 0 && s[0] == '-' {
        if all_digits(s.skip(1)) {
            Some(-digits_val(s.skip(1)))
        } else {
            None
        }
    } else if all_digits(s) {
        Some(digits_val(s))
    } else {
        None
    }
}

/// An integer token narrowed to `i32`: malformed tokens and values outside
/// the `i32` range have no result.
pub open spec fn parse_i32(s: Seq<char>) -> Option<i32> {
    match int_token_val(s) {
        Some(v) => if i32::MIN <= v && v <= i32::MAX {
            Some(v as i32)
        } else {
            None
        },
        None => None,
    }
}

pub proof fn lemma_digits_val_nonneg(s: Seq<char>)
    requires
        forall|i: int| 0 <= i < s.len() ==> is_digit(#[trigger] s[i]),
    ensures
        digits_val(s) >= 0,
    decreases s.len(),
{
    if s.len() > 0 {
        lemma_digits_val_nonneg(s.drop_last());
    }
}

/// Reads the integer token in `s[from..to]` as an `i32`, if it is one.
pub fn parse_i32_x(s: &Vec<char>, from: usize, to: usize) -> (r: Option<i32>)
    requires
        from <= to <= s@.len(),
    ensures
        r == parse_i32(s@.subrange(from as int, to as int)),
{
    let ghost t = s@.subrange(from as int, to as int);
    if from == to {
        return None;
    }
    let neg = s[from] == '-';
    let d0 = if neg { from + 1 } else { from };
    let ghost digits = s@.subrange(d0 as int, to as int);
    proof {
        if neg {
            assert(digits =~= t.skip(1));
        } else {
            assert(digits =~= t);
        }
    }
    if d0 == to {
        proof {
            assert(neg);
            assert(t.len() >= 1 && t[0] == '-');
            assert(t.skip(1).len() == 0);
            assert(!all_digits(t.skip(1)));
        }
        return None;
    }
    let mut acc: u64 = 0;
    let mut j: usize = d0;
    while j < to
        invariant
            from <= d0 <= j <= to <= s@.len(),
            d0 < to,
            from < to,
            t == s@.subrange(from as int, to as int),
            digits == s@.subrange(d0 as int, to as int),
            neg == (s@[from as int] == '-'),
            neg ==> d0 == from + 1 && digits == t.skip(1),
            !neg ==> d0 == from && digits == t,
            forall|k: int| d0 <= k < j ==> is_digit(#[trigger] s@[k]),
            acc <= 2147483649,
            digits_val(s@.subrange(d0 as int, j as int)) <= 2147483648 ==> acc == digits_val(
                s@.subrange(d0 as int, j as int),
            ),
            digits_val(s@.subrange(d0 as int, j as int)) > 2147483648 ==> acc == 2147483649,
        decreases to - j,
    {
        let c = s[j];
        if !('0' <= c && c <= '9') {
            proof {
                assert(digits[j - d0] == c);
                assert(!all_digits(digits));
                assert(t.len() > 0);
                if neg {
                    assert(t[0] == '-');
                    assert(!all_digits(t.skip(1)));
                } else {
                    assert(t[0] != '-' || !is_digit(t[0]));
                    assert(!all_digits(t));
                }
                assert(int_token_val(t) is None);
            }
            return None;
        }
        let d: u64 = (c as u32 - 48) as u64;
        proof {
            let pre = s@.subrange(d0 as int, j as int);
            let pre2 = s@.subrange(d0 as int, j + 1 as int);
            assert(pre2.drop_last() =~= pre);
            assert(pre2.last() == c);
            assert forall|k: int| 0 <= k < pre.len() implies is_digit(#[trigger] pre[k]) by {
                assert(pre[k] == s@[d0 + k]);
            }
            lemma_digits_val_nonneg(pre);
            assert(digits_val(pre2) == digits_val(pre) * 10 + digit_val(c));
        }
        acc = if acc > 2147483648 {
            2147483649
        } else if acc * 10 + d > 2147483648 {
            2147483649
        } else {
            acc * 10 + d
        };
        j = j + 1;
    }
    proof {
        assert(digits =~= s@.subrange(d0 as int, j as int));
        assert(all_digits(digits));
        lemma_digits_val_nonneg(digits);
        if neg {
            assert(t[0] == '-');
        } else {
            assert(t[0] != '-');
            assert(t =~= digits);
        }
    }
    if neg {
        if acc > 2147483648 {
            None
        } else {
            let v: i64 = -(acc as i64);
            Some(v as i32)
        }
    } else {
        if acc > 2147483647 {
            None
        } else {
            Some(acc as i32)
        }
    }
}

} // verus!

verus! {

/// The exact text `lit` stands at position `i` of `s` (case-sensitively).
pub open spec fn lit_at(s: Seq<char>, i: int, lit: Seq<char>) -> bool {
    &&& 0 <= i
    &&& i + lit.len() <= s.len()
    &&& forall|k: int| 0 <= k < lit.len() ==> s[i + k] == lit[k]
}

/// Whether `lit` stands at position `i`, compared exactly.
pub fn lit_at_x(s: &Vec<char>, i: usize, lit: &str) -> (r: bool)
    requires
        i <= s@.len(),
    ensures
        r == lit_at(s@, i as int, lit@),
{
    let n = lit.unicode_len();
    if n > s.len() - i {
        return false;
    }
    let mut k: usize = 0;
    while k < n
        invariant
            i + n <= s@.len() <= usize::MAX,
            n == lit@.len(),
            k <= n,
            forall|j: int| 0 <= j < k ==> s@[i + j] == lit@[j],
        decreases n - k,
    {
        if s[i + k] != lit.get_char(k) {
            return false;
        }
        k = k + 1;
    }
    true
}

} // verus!

verus! {

/// Copies the characters of `s[from..to]` into a fresh vector.
pub fn sub_vec(s: &Vec<char>, from: usize, to: usize) -> (r: Vec<char>)
    requires
        from <= to <= s@.len(),
    ensures
        r@ == s@.subrange(from as int, to as int),
{
    let mut part: Vec<char> = Vec::new();
    let mut i: usize = from;
    while i < to
        invariant
            from <= i <= to <= s@.len(),
            part@ == s@.subrange(from as int, i as int),
        decreases to - i,
    {
        part.push(s[i]);
        i = i + 1;
        assert(part@ =~= s@.subrange(from as int, i as int));
    }
    part
}

} // verus!

verus! {

/// Whether the case-folded text of `s` is exactly `lit` (a lowercase
/// literal).
pub fn str_lower_is(s: &str, lit: &str) -> (r: bool)
    ensures
        r == (lower_seq(s@) == lit@),
{
    let n = s.unicode_len();
    if n != lit.unicode_len() {
        proof {
            assert(lower_seq(s@).len() == s@.len());
        }
        return false;
    }
    let mut k: usize = 0;
    while k < n
        invariant
            n == s@.len() == lit@.len(),
            k <= n,
            forall|j: int| 0 <= j < k ==> lower(s@[j]) == lit@[j],
        decreases n - k,
    {
        if lower_x(s.get_char(k)) != lit.get_char(k) {
            proof {
                assert(lower_seq(s@)[k as int] != lit@[k as int]);
            }
            return false;
        }
        k = k + 1;
    }
    proof {
        assert(lower_seq(s@) =~= lit@);
    }
    true
}

/// Reads a whole string as an integer token.
pub fn parse_i32_str(s: &str) -> (r: Option<i32>)
    ensures
        r == parse_i32(s@),
{
    let v = to_chars(s);
    let r = parse_i32_x(&v, 0, v.len());
    proof {
        assert(v@.subrange(0, v@.len() as int) =~= s@);
    }
    r
}

} // verus!

verus! {

/// The case-folded copy of a string.
pub fn lower_str(s: &str) -> (r: String)
    ensures
        r@ == lower_seq(s@),
{
    let n = s.unicode_len();
    let mut out: Vec<char> = Vec::new();
    let mut i: usize = 0;
    while i < n
        invariant
            n == s@.len(),
            i <= n,
            out@ == lower_seq(s@).take(i as int),
        decreases n - i,
    {
        out.push(lower_x(s.get_char(i)));
        i = i + 1;
        assert(out@ =~= lower_seq(s@).take(i as int));
    }
    assert(out@ =~= lower_seq(s@));
    string_from_chars(&out)
}

} // verus!
