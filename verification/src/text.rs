//! Character-level models of the `str` operations that the shell's parser
//! relies on (`char::is_whitespace`, `trim`, `split_whitespace`, `split`,
//! `i32::from_str`), together with verified implementations of them.

use vstd::prelude::*;
use vstd::string::*;

verus! {

/// `char::is_whitespace`: the Unicode `White_Space` property.
pub open spec fn is_ws(c: char) -> bool {
    ||| c == ' '
    ||| ('\t' <= c && c <= '\r')
    ||| c == '\u{85}'
    ||| c == '\u{a0}'
    ||| c == '\u{1680}'
    ||| ('\u{2000}' <= c && c <= '\u{200a}')
    ||| c == '\u{2028}'
    ||| c == '\u{2029}'
    ||| c == '\u{202f}'
    ||| c == '\u{205f}'
    ||| c == '\u{3000}'
}

/// Decides `is_ws`.
pub fn is_whitespace(c: char) -> (b: bool)
    ensures
        b == is_ws(c),
{
    c == ' ' || ('\t' <= c && c <= '\r') || c == '\u{85}' || c == '\u{a0}' || c == '\u{1680}'
        || ('\u{2000}' <= c && c <= '\u{200a}') || c == '\u{2028}' || c == '\u{2029}' || c
        == '\u{202f}' || c == '\u{205f}' || c == '\u{3000}'
}

/// The classes of characters that the scanner skips over or stops at.
#[derive(Clone, Copy)]
pub enum Class {
    /// whitespace
    Ws,
    /// anything but whitespace
    NonWs,
    /// anything but the given character
    Not(char),
    /// anything but `>` and `<`
    NotRedirect,
    /// anything but `>`, `<` and a space
    NotStop,
    /// a space or an ASCII decimal digit
    SpaceOrDigit,
}

pub open spec fn in_class(c: char, k: Class) -> bool {
    match k {
        Class::Ws => is_ws(c),
        Class::NonWs => !is_ws(c),
        Class::Not(d) => c != d,
        Class::NotRedirect => c != '>' && c != '<',
        Class::NotStop => c != '>' && c != '<' && c != ' ',
        Class::SpaceOrDigit => c == ' ' || ('0' <= c && c <= '9'),
    }
}

/// Decides `in_class`.
pub fn is_in_class(c: char, k: Class) -> (b: bool)
    ensures
        b == in_class(c, k),
{
    match k {
        Class::Ws => is_whitespace(c),
        Class::NonWs => !is_whitespace(c),
        Class::Not(d) => c != d,
        Class::NotRedirect => c != '>' && c != '<',
        Class::NotStop => c != '>' && c != '<' && c != ' ',
        Class::SpaceOrDigit => c == ' ' || ('0' <= c && c <= '9'),
    }
}

/// Length of the longest prefix of `s` made of characters of class `k`.
pub open spec fn prefix_while(s: Seq<char>, k: Class) -> nat
    decreases s.len(),
{
    if s.len() == 0 {
        0
    } else if in_class(s[0], k) {
        1 + prefix_while(s.drop_first(), k)
    } else {
        0
    }
}

/// Length of the longest suffix of `s` made of characters of class `k`.
pub open spec fn suffix_while(s: Seq<char>, k: Class) -> nat
    decreases s.len(),
{
    if s.len() == 0 {
        0
    } else if in_class(s.last(), k) {
        1 + suffix_while(s.drop_last(), k)
    } else {
        0
    }
}

/// `prefix_while` is the index of the first character outside `k`, or the length.
pub proof fn lemma_prefix_while(s: Seq<char>, k: Class)
    ensures
        0 <= prefix_while(s, k) <= s.len(),
        forall|j: int| 0 <= j < prefix_while(s, k) ==> in_class(#[trigger] s[j], k),
        prefix_while(s, k) < s.len() ==> !in_class(s[prefix_while(s, k) as int], k),
    decreases s.len(),
{
    if s.len() > 0 && in_class(s[0], k) {
        lemma_prefix_while(s.drop_first(), k);
        assert forall|j: int| 0 <= j < prefix_while(s, k) implies in_class(#[trigger] s[j], k) by {
            if j > 0 {
                assert(s[j] == s.drop_first()[j - 1]);
            }
        }
    }
}

/// A position with every earlier character in `k` and the one at it outside
/// `k` (or the end) is `prefix_while`.
pub proof fn lemma_prefix_while_at(s: Seq<char>, k: Class, i: int)
    requires
        0 <= i <= s.len(),
        forall|j: int| 0 <= j < i ==> in_class(#[trigger] s[j], k),
        i < s.len() ==> !in_class(s[i], k),
    ensures
        prefix_while(s, k) == i,
{
    lemma_prefix_while(s, k);
    let p = prefix_while(s, k) as int;
    if p < i {
        assert(in_class(s[p], k));
    }
    if i < p {
        assert(in_class(s[i], k));
    }
}

/// `suffix_while` counts back to the last character outside `k`.
pub proof fn lemma_suffix_while(s: Seq<char>, k: Class)
    ensures
        suffix_while(s, k) <= s.len(),
        forall|j: int|
            s.len() - suffix_while(s, k) <= j < s.len() ==> in_class(#[trigger] s[j], k),
        suffix_while(s, k) < s.len() ==> !in_class(s[s.len() - suffix_while(s, k) - 1], k),
    decreases s.len(),
{
    if s.len() > 0 && in_class(s.last(), k) {
        lemma_suffix_while(s.drop_last(), k);
        assert forall|j: int|
            s.len() - suffix_while(s, k) <= j < s.len() implies in_class(#[trigger] s[j], k) by {
            if j < s.len() - 1 {
                assert(s[j] == s.drop_last()[j]);
            }
        }
        if suffix_while(s, k) < s.len() {
            assert(s[s.len() - suffix_while(s, k) - 1] == s.drop_last()[s.drop_last().len()
                - suffix_while(s.drop_last(), k) - 1]);
        }
    }
}

/// The suffix analogue of `lemma_prefix_while_at`.
pub proof fn lemma_suffix_while_at(s: Seq<char>, k: Class, n: int)
    requires
        0 <= n <= s.len(),
        forall|j: int| s.len() - n <= j < s.len() ==> in_class(#[trigger] s[j], k),
        n < s.len() ==> !in_class(s[s.len() - n - 1], k),
    ensures
        suffix_while(s, k) == n,
{
    lemma_suffix_while(s, k);
    let p = suffix_while(s, k) as int;
    if p < n {
        assert(in_class(s[s.len() - p - 1], k));
    }
    if n < p {
        assert(in_class(s[s.len() - n - 1], k));
    }
}

/// The characters of a string, in order.
pub fn chars_of(s: &str) -> (v: Vec<char>)
    ensures
        v@ == s@,
{
    let n = s.unicode_len();
    let mut v: Vec<char> = Vec::new();
    let mut i: usize = 0;
    while i < n
        invariant
            n == s@.len(),
            i <= n,
            v@ == s@.take(i as int),
        decreases n - i,
    {
        v.push(s.get_char(i));
        i += 1;
        assert(v@ =~= s@.take(i as int));
    }
    assert(v@ =~= s@);
    v
}

/// The characters `lo..hi` of a string, as an owned string.
pub fn substring(s: &str, lo: usize, hi: usize) -> (r: String)
    requires
        lo <= hi <= s@.len(),
    ensures
        r@ == s@.subrange(lo as int, hi as int),
{
    s.substring_char(lo, hi).to_owned()
}

/// `prefix_while` of the characters `lo..hi` of `v`.
pub fn count_prefix(v: &Vec<char>, lo: usize, hi: usize, k: Class) -> (n: usize)
    requires
        lo <= hi <= v@.len(),
    ensures
        n == prefix_while(v@.subrange(lo as int, hi as int), k),
        lo + n <= hi,
{
    let mut i = lo;
    while i < hi && is_in_class(v[i], k)
        invariant
            lo <= i <= hi,
            hi <= v@.len(),
            forall|j: int| lo <= j < i ==> in_class(#[trigger] v@[j], k),
        decreases hi - i,
    {
        i += 1;
    }
    proof {
        let t = v@.subrange(lo as int, hi as int);
        assert forall|j: int| 0 <= j < i - lo implies in_class(#[trigger] t[j], k) by {
            assert(t[j] == v@[lo + j]);
        }
        lemma_prefix_while_at(t, k, i - lo);
    }
    i - lo
}

/// `suffix_while` of the characters `lo..hi` of `v`.
pub fn count_suffix(v: &Vec<char>, lo: usize, hi: usize, k: Class) -> (n: usize)
    requires
        lo <= hi <= v@.len(),
    ensures
        n == suffix_while(v@.subrange(lo as int, hi as int), k),
        lo + n <= hi,
{
    let mut i = hi;
    while i > lo && is_in_class(v[i - 1], k)
        invariant
            lo <= i <= hi,
            hi <= v@.len(),
            forall|j: int| i <= j < hi ==> in_class(#[trigger] v@[j], k),
        decreases i - lo,
    {
        i -= 1;
    }
    proof {
        let t = v@.subrange(lo as int, hi as int);
        assert forall|j: int| t.len() - (hi - i) <= j < t.len() implies in_class(
            #[trigger] t[j],
            k,
        ) by {
            assert(t[j] == v@[lo + j]);
        }
        if i > lo {
            assert(t[t.len() - (hi - i) - 1] == v@[i - 1]);
        }
        lemma_suffix_while_at(t, k, hi - i);
    }
    hi - i
}

/// Dropping `i` characters leaves `len - i`.
pub proof fn lemma_skip_len(s: Seq<char>, i: int)
    ensures
        0 <= i <= s.len() ==> s.skip(i).len() == s.len() - i,
{
}

/// The views of a sequence of strings.
pub open spec fn views(v: Seq<String>) -> Seq<Seq<char>> {
    v.map_values(|t: String| t@)
}

/// `s.split(c)` for a single character `c`: the pieces between its occurrences.
pub open spec fn split_char(s: Seq<char>, c: char) -> Seq<Seq<char>>
    decreases s.len(),
{
    let i = prefix_while(s, Class::Not(c)) as int;
    if i >= s.len() {
        seq![s]
    } else {
        let rest = s.skip(i + 1);
        proof {
            lemma_prefix_while(s, Class::Not(c));
            lemma_skip_len(s, i + 1);
        }
        seq![s.take(i)] + split_char(rest, c)
    }
}

/// Splitting on a character always gives at least one piece.
pub proof fn lemma_split_char_nonempty(s: Seq<char>, c: char)
    ensures
        split_char(s, c).len() >= 1,
{
}

/// `s.split_whitespace()`: the maximal runs of non-whitespace characters.
pub open spec fn tokens(s: Seq<char>) -> Seq<Seq<char>>
    decreases s.len(),
{
    let a = prefix_while(s, Class::Ws);
    if a >= s.len() {
        seq![]
    } else {
        let rest = s.skip(a as int);
        let n = prefix_while(rest, Class::NonWs);
        proof {
            lemma_prefix_while(rest, Class::NonWs);
        }
        seq![rest.take(n as int)] + tokens(rest.skip(n as int))
    }
}

/// `s.split(c)` for a single character `c`.
pub fn split_on(s: &str, c: char) -> (r: Vec<String>)
    ensures
        views(r@) == split_char(s@, c),
{
    let v = chars_of(s);
    let len = v.len();
    let mut r: Vec<String> = Vec::new();
    let mut pos: usize = 0;
    assert(s@.skip(0) =~= s@);
    assert(views(r@) =~= Seq::<Seq<char>>::empty());
    loop
        invariant
            v@ == s@,
            len == v@.len(),
            pos <= len,
            views(r@) + split_char(s@.skip(pos as int), c) == split_char(s@, c),
        decreases len - pos,
    {
        let n = count_prefix(&v, pos, len, Class::Not(c));
        let ghost rest = s@.skip(pos as int);
        assert(v@.subrange(pos as int, len as int) =~= rest);
        let piece = substring(s, pos, pos + n);
        if pos + n >= len {
            proof {
                assert(rest.take(n as int) =~= rest);
                assert(views(r@.push(piece)) =~= views(r@).push(piece@));
                assert(split_char(rest, c) =~= seq![rest]);
                assert(views(r@) + split_char(rest, c) =~= views(r@.push(piece)));
            }
            r.push(piece);
            return r;
        }
        proof {
            assert(piece@ =~= rest.take(n as int));
            assert(rest.skip(n + 1) =~= s@.skip(pos + n + 1));
            assert(views(r@.push(piece)) =~= views(r@).push(piece@));
            assert(split_char(rest, c) == seq![rest.take(n as int)] + split_char(
                rest.skip(n + 1),
                c,
            ));
            assert(views(r@) + split_char(rest, c) =~= views(r@.push(piece)) + split_char(
                s@.skip(pos + n + 1),
                c,
            ));
        }
        r.push(piece);
        pos = pos + n + 1;
    }
}

/// `s.split_whitespace()`.
pub fn split_tokens(s: &str) -> (r: Vec<String>)
    ensures
        views(r@) == tokens(s@),
{
    let v = chars_of(s);
    let len = v.len();
    let mut r: Vec<String> = Vec::new();
    let mut pos: usize = 0;
    assert(s@.skip(0) =~= s@);
    assert(views(r@) =~= Seq::<Seq<char>>::empty());
    loop
        invariant
            v@ == s@,
            len == v@.len(),
            pos <= len,
            views(r@) + tokens(s@.skip(pos as int)) == tokens(s@),
        decreases len - pos,
    {
        let ghost rest = s@.skip(pos as int);
        assert(v@.subrange(pos as int, len as int) =~= rest);
        let a = count_prefix(&v, pos, len, Class::Ws);
        if pos + a >= len {
            proof {
                assert(tokens(rest) =~= Seq::<Seq<char>>::empty());
                assert(views(r@) + tokens(rest) =~= views(r@));
            }
            return r;
        }
        let start = pos + a;
        let ghost after = rest.skip(a as int);
        assert(after =~= v@.subrange(start as int, len as int));
        let n = count_prefix(&v, start, len, Class::NonWs);
        let piece = substring(s, start, start + n);
        proof {
            assert(piece@ =~= after.take(n as int));
            assert(after.skip(n as int) =~= s@.skip(start + n));
            assert(views(r@.push(piece)) =~= views(r@).push(piece@));
            assert(tokens(rest) == seq![after.take(n as int)] + tokens(after.skip(n as int)));
            assert(views(r@) + tokens(rest) =~= views(r@.push(piece)) + tokens(
                s@.skip(start + n),
            ));
        }
        r.push(piece);
        pos = start + n;
    }
}

/// An ASCII decimal digit.
pub open spec fn is_digit(c: char) -> bool {
    '0' <= c && c <= '9'
}

/// Every character is an ASCII decimal digit.
pub open spec fn all_digits(s: Seq<char>) -> bool {
    forall|i: int| 0 <= i < s.len() ==> is_digit(#[trigger] s[i])
}

/// The number that a string of decimal digits writes.
pub open spec fn digits_value(s: Seq<char>) -> int
    decreases s.len(),
{
    if s.len() == 0 {
        0
    } else {
        10 * digits_value(s.drop_last()) + (s.last() as int - '0' as int)
    }
}

/// `i32::from_str`: an optional `+` or `-`, then one or more ASCII digits,
/// whose value must fit in an `i32`.
pub open spec fn parse_i32(s: Seq<char>) -> Option<i32> {
    let neg = s.len() > 0 && s[0] == '-';
    let body = if s.len() > 0 && (s[0] == '-' || s[0] == '+') {
        s.drop_first()
    } else {
        s
    };
    if body.len() == 0 || !all_digits(body) {
        None
    } else {
        let v = if neg {
            -digits_value(body)
        } else {
            digits_value(body)
        };
        if i32::MIN <= v <= i32::MAX {
            Some(v as i32)
        } else {
            None
        }
    }
}

/// A prefix of a string of digits writes no larger a number.
pub proof fn lemma_digits_value_prefix(s: Seq<char>, k: int)
    requires
        all_digits(s),
        0 <= k <= s.len(),
    ensures
        0 <= digits_value(s.take(k)) <= digits_value(s),
    decreases s.len(),
{
    if k == s.len() {
        assert(s.take(k) =~= s);
        if s.len() > 0 {
            lemma_digits_value_prefix(s.drop_last(), 0);
        }
    } else {
        assert(all_digits(s.drop_last()) && is_digit(s[s.len() - 1]));
        lemma_digits_value_prefix(s.drop_last(), k);
        lemma_digits_value_prefix(s.drop_last(), s.len() - 1);
        assert(s.drop_last().take(k) =~= s.take(k));
        assert(s.drop_last().take(s.len() - 1) =~= s.drop_last());
    }
}

/// `parse_i32` of the characters `lo..hi` of `v`.
pub fn parse_i32_range(v: &Vec<char>, lo: usize, hi: usize) -> (r: Option<i32>)
    requires
        lo <= hi <= v@.len(),
    ensures
        r == parse_i32(v@.subrange(lo as int, hi as int)),
{
    let ghost s = v@.subrange(lo as int, hi as int);
    let mut neg = false;
    let mut start = lo;
    if lo < hi && (v[lo] == '-' || v[lo] == '+') {
        neg = v[lo] == '-';
        start = lo + 1;
    }
    let ghost body = v@.subrange(start as int, hi as int);
    assert(body =~= (if s.len() > 0 && (s[0] == '-' || s[0] == '+') {
        s.drop_first()
    } else {
        s
    }));
    if start == hi {
        return None;
    }
    let mut val: i64 = 0;
    let mut i = start;
    assert(body.take(0) =~= Seq::<char>::empty());
    while i < hi
        invariant
            lo <= start <= i <= hi <= v@.len(),
            body == v@.subrange(start as int, hi as int),
            s == v@.subrange(lo as int, hi as int),
            body == (if s.len() > 0 && (s[0] == '-' || s[0] == '+') {
                s.drop_first()
            } else {
                s
            }),
            all_digits(body.take(i - start)),
            val == digits_value(body.take(i - start)),
            0 <= val <= 2147483648,
        decreases hi - i,
    {
        let c = v[i];
        if !('0' <= c && c <= '9') {
            assert(!all_digits(body) ) by {
                assert(body[i - start] == c);
            }
            return None;
        }
        let d = (c as u32 - '0' as u32) as i64;
        proof {
            let t = body.take(i + 1 - start);
            assert(t.drop_last() =~= body.take(i - start));
            assert(t.last() == c);
            assert(all_digits(t)) by {
                assert forall|j: int| 0 <= j < t.len() implies is_digit(#[trigger] t[j]) by {
                    if j < t.len() - 1 {
                        assert(t[j] == body.take(i - start)[j]);
                    }
                }
            }
        }
        val = val * 10 + d;
        i += 1;
        if val > 2147483648 {
            proof {
                if all_digits(body) {
                    lemma_digits_value_prefix(body, i - start);
                }
            }
            return None;
        }
    }
    assert(body.take(i - start) =~= body);
    if neg {
        Some((0 - val) as i32)
    } else if val > 2147483647 {
        None
    } else {
        Some(val as i32)
    }
}

/// `i32::from_str`.
pub fn parse_i32_str(s: &str) -> (r: Option<i32>)
    ensures
        r == parse_i32(s@),
{
    let v = chars_of(s);
    assert(v@.subrange(0, v@.len() as int) =~= s@);
    parse_i32_range(&v, 0, v.len())
}


/// `pat` occurs in `s` at position `i`.
pub open spec fn matches_at(s: Seq<char>, pat: Seq<char>, i: int) -> bool {
    0 <= i && i + pat.len() <= s.len() && s.subrange(i, i + pat.len()) == pat
}

/// The first position at or after `i` where `pat` occurs in `s`.
pub open spec fn find_from(s: Seq<char>, pat: Seq<char>, i: int) -> Option<int>
    decreases s.len() + 1 - i,
{
    if i < 0 || i + pat.len() > s.len() {
        None
    } else if matches_at(s, pat, i) {
        Some(i)
    } else {
        find_from(s, pat, i + 1)
    }
}

/// The first two pieces of `s.split(pat)`: the text before the first
/// occurrence of `pat`, and, when `pat` occurs, the text between its first
/// and its second occurrence (or the end). An empty `pat` occurs before
/// every character, so that the second piece is the first character.
pub open spec fn split2(s: Seq<char>, pat: Seq<char>) -> (Seq<char>, Option<Seq<char>>) {
    if pat.len() == 0 {
        (seq![], Some(s.take(if s.len() == 0 { 0 } else { 1 })))
    } else {
        match find_from(s, pat, 0) {
            None => (s, None),
            Some(i) => {
                let j = i + pat.len();
                (
                    s.take(i),
                    Some(
                        match find_from(s, pat, j) {
                            None => s.skip(j),
                            Some(k) => s.subrange(j, k),
                        },
                    ),
                )
            },
        }
    }
}

/// `s.trim()`.
pub open spec fn trim(s: Seq<char>) -> Seq<char> {
    let a = s.skip(prefix_while(s, Class::Ws) as int);
    a.take(a.len() - suffix_while(a, Class::Ws))
}

/// `s.split_whitespace().last()`: the last maximal run of non-whitespace.
pub open spec fn last_token(s: Seq<char>) -> Option<Seq<char>> {
    let t = s.take(s.len() - suffix_while(s, Class::Ws));
    if t.len() == 0 {
        None
    } else {
        Some(t.skip(t.len() - suffix_while(t, Class::NonWs)))
    }
}

/// Whether `pat` occurs in `v` at `i`.
pub fn matches_at_exec(v: &Vec<char>, pat: &Vec<char>, i: usize) -> (b: bool)
    requires
        i <= v@.len(),
    ensures
        b == matches_at(v@, pat@, i as int),
{
    if pat.len() > v.len() - i {
        return false;
    }
    let mut k: usize = 0;
    while k < pat.len()
        invariant
            i + pat.len() <= v.len(),
            i + pat@.len() <= v@.len(),
            k <= pat@.len(),
            v@.subrange(i as int, i + k) =~= pat@.take(k as int),
        decreases pat@.len() - k,
    {
        if v[i + k] != pat[k] {
            assert(v@.subrange(i as int, i + pat@.len())[k as int] != pat@[k as int]);
            return false;
        }
        k += 1;
        assert(v@.subrange(i as int, i + k) =~= pat@.take(k as int));
    }
    assert(pat@.take(k as int) =~= pat@);
    true
}

/// `find_from` over the characters of `v`.
pub fn find_from_exec(v: &Vec<char>, pat: &Vec<char>, from: usize) -> (r: Option<usize>)
    requires
        from <= v@.len(),
    ensures
        match r {
            Some(i) => find_from(v@, pat@, from as int) == Some(i as int) && i + pat@.len()
                <= v@.len(),
            None => find_from(v@, pat@, from as int) is None,
        },
{
    let mut i = from;
    while pat.len() <= v.len() - i
        invariant
            from <= i <= v@.len(),
            find_from(v@, pat@, from as int) == find_from(v@, pat@, i as int),
        decreases v@.len() - i,
    {
        if matches_at_exec(v, pat, i) {
            return Some(i);
        }
        if i == v.len() {
            assert(find_from(v@, pat@, i + 1) is None);
            return None;
        }
        i += 1;
    }
    None
}

/// The positions that delimit the pieces of `split2`: the end of the first
/// piece, and the bounds of the second.
pub fn split2_bounds(v: &Vec<char>, pat: &Vec<char>) -> (r: (usize, Option<(usize, usize)>))
    ensures
        r.0 <= v@.len(),
        split2(v@, pat@).0 == v@.take(r.0 as int),
        match r.1 {
            Some((a, b)) => a <= b <= v@.len() && split2(v@, pat@).1 == Some(
                v@.subrange(a as int, b as int),
            ),
            None => split2(v@, pat@).1 is None,
        },
{
    if pat.len() == 0 {
        let b: usize = if v.len() == 0 {
            0
        } else {
            1
        };
        assert(v@.take(0) =~= Seq::<char>::empty());
        assert(v@.subrange(0, b as int) =~= v@.take(b as int));
        return (0, Some((0, b)));
    }
    let first = find_from_exec(v, pat, 0);
    match first {
        None => {
            assert(v@.take(v@.len() as int) =~= v@);
            (v.len(), None)
        },
        Some(i) => {
            let vlen = v.len();
            assert(i + pat@.len() <= vlen);
            let j = i + pat.len();
            match find_from_exec(v, pat, j) {
                None => {
                    assert(v@.subrange(j as int, v@.len() as int) =~= v@.skip(j as int));
                    (i, Some((j, v.len())))
                },
                Some(k) => {
                    proof {
                        lemma_find_from(v@, pat@, j as int);
                    }
                    (i, Some((j, k)))
                },
            }
        },
    }
}

/// `find_from` gives the first position at or after `i` where `pat` occurs.
pub proof fn lemma_find_from(s: Seq<char>, pat: Seq<char>, i: int)
    requires
        0 <= i,
    ensures
        match find_from(s, pat, i) {
            Some(k) => i <= k && k + pat.len() <= s.len() && matches_at(s, pat, k) && forall|j: int|
                i <= j < k ==> !matches_at(s, pat, j),
            None => forall|j: int| i <= j ==> !matches_at(s, pat, j),
        },
    decreases s.len() + 1 - i,
{
    if i + pat.len() <= s.len() && !matches_at(s, pat, i) {
        lemma_find_from(s, pat, i + 1);
    }
}

/// The bounds of `trim` of the characters `lo..hi` of `v`.
pub fn trim_bounds(v: &Vec<char>, lo: usize, hi: usize) -> (r: (usize, usize))
    requires
        lo <= hi <= v@.len(),
    ensures
        lo <= r.0 <= r.1 <= hi,
        trim(v@.subrange(lo as int, hi as int)) == v@.subrange(r.0 as int, r.1 as int),
{
    let a = count_prefix(v, lo, hi, Class::Ws);
    let start = lo + a;
    let b = count_suffix(v, start, hi, Class::Ws);
    proof {
        let s = v@.subrange(lo as int, hi as int);
        assert(s.skip(a as int) =~= v@.subrange(start as int, hi as int));
        let t = s.skip(a as int);
        assert(t.take(t.len() - b) =~= v@.subrange(start as int, hi - b));
    }
    (start, hi - b)
}

/// The bounds of `last_token` of the characters `lo..hi` of `v`.
pub fn last_token_bounds(v: &Vec<char>, lo: usize, hi: usize) -> (r: Option<(usize, usize)>)
    requires
        lo <= hi <= v@.len(),
    ensures
        match r {
            Some((a, b)) => lo <= a <= b <= hi && last_token(v@.subrange(lo as int, hi as int))
                == Some(v@.subrange(a as int, b as int)),
            None => last_token(v@.subrange(lo as int, hi as int)) is None,
        },
{
    let w = count_suffix(v, lo, hi, Class::Ws);
    let end = hi - w;
    let ghost s = v@.subrange(lo as int, hi as int);
    assert(s.take(s.len() - w) =~= v@.subrange(lo as int, end as int));
    if end == lo {
        return None;
    }
    let n = count_suffix(v, lo, end, Class::NonWs);
    proof {
        let t = v@.subrange(lo as int, end as int);
        assert(t.skip(t.len() - n) =~= v@.subrange(end - n, end as int));
    }
    Some((end - n, end))
}


/// Whether two strings hold the same characters.
pub fn same_text(a: &str, b: &str) -> (r: bool)
    ensures
        r == (a@ == b@),
{
    let v = chars_of(a);
    let w = chars_of(b);
    if v.len() != w.len() {
        return false;
    }
    let mut i: usize = 0;
    while i < v.len()
        invariant
            v@ == a@,
            w@ == b@,
            v@.len() == w@.len(),
            i <= v@.len(),
            v@.take(i as int) =~= w@.take(i as int),
        decreases v@.len() - i,
    {
        if v[i] != w[i] {
            assert(a@[i as int] != b@[i as int]);
            return false;
        }
        i += 1;
        assert(v@.take(i as int) =~= w@.take(i as int));
    }
    assert(v@ =~= v@.take(i as int));
    assert(w@ =~= w@.take(i as int));
    true
}

} // verus!
