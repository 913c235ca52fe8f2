//! The shell's command-line scanning: the token after a redirection operator,
//! the file descriptor written before it, and the pieces of a pipeline.

use vstd::prelude::*;
use crate::text::{
    chars_of, count_prefix, last_token, last_token_bounds, parse_i32, parse_i32_range, prefix_while,
    same_text, split2, split2_bounds, split_char, split_on, substring, trim, trim_bounds, views,
    Class,
};

verus! {

/// The view of an optional string.
pub open spec fn opt_view(o: Option<String>) -> Option<Seq<char>> {
    match o {
        Some(x) => Some(x@),
        None => None,
    }
}

/// What `get_token_after` returns: the text before the first `delimiter`
/// and, when `delimiter` occurs, the token after it: the text up to the next
/// occurrence of `delimiter`, trimmed, then cut at the first `>`, `<` or space.
pub open spec fn token_after(s: Seq<char>, delimiter: Seq<char>) -> (Seq<char>, Option<Seq<char>>) {
    (
        split2(s, delimiter).0,
        match split2(s, delimiter).1 {
            None => None,
            Some(rest) => {
                let t = trim(rest);
                Some(t.take(prefix_while(t, Class::NotStop) as int))
            },
        },
    )
}

/// What `get_fd_before` returns: when `delimiter` occurs, the last
/// whitespace-separated word before its first occurrence, read as an `i32`,
/// if it is one; `None` when `delimiter` does not occur.
pub open spec fn fd_before(s: Seq<char>, delimiter: Seq<char>) -> Option<i32> {
    match split2(s, delimiter).1 {
        None => None,
        Some(_) => match last_token(split2(s, delimiter).0) {
            None => None,
            Some(t) => parse_i32(t),
        },
    }
}

/// A string parsing tool. Returns the number (file descriptor) right before
/// the delimiter. If no number exists, or the delimiter does not occur,
/// returns `None`.
pub fn get_fd_before(source: &str, delimiter: &str) -> (r: Option<i32>)
    ensures
        r == fd_before(source@, delimiter@),
{
    let v = chars_of(source);
    let pat = chars_of(delimiter);
    let (end, second) = split2_bounds(&v, &pat);
    if second.is_none() {
        return None;
    }
    assert(v@.subrange(0, end as int) =~= v@.take(end as int));
    match last_token_bounds(&v, 0, end) {
        None => None,
        Some((a, b)) => parse_i32_range(&v, a, b),
    }
}

/// A string parsing tool. Returns the token after the delimiter along with
/// the substring before the delimiter.
pub fn get_token_after(source: &str, delimiter: &str) -> (r: (String, Option<String>))
    ensures
        r.0@ == token_after(source@, delimiter@).0,
        opt_view(r.1) == token_after(source@, delimiter@).1,
{
    let v = chars_of(source);
    let pat = chars_of(delimiter);
    let (end, second) = split2_bounds(&v, &pat);
    let before = substring(source, 0, end);
    assert(before@ =~= v@.take(end as int));
    match second {
        None => (before, None),
        Some((a, b)) => {
            let (ta, tb) = trim_bounds(&v, a, b);
            let n = count_prefix(&v, ta, tb, Class::NotStop);
            let file = substring(source, ta, ta + n);
            assert(file@ =~= v@.subrange(ta as int, tb as int).take(n as int));
            (before, Some(file))
        },
    }
}


/// The `host:port` address that a path of the form `/dev/tcp/host/port`
/// names; `None` for any other path.
pub open spec fn tcp_address(path: Seq<char>) -> Option<Seq<char>> {
    let p = split_char(path, '/');
    if p.len() == 5 && p[0].len() == 0 && p[1] == "dev"@ && p[2] == "tcp"@ {
        Some(p[3] + ":"@ + p[4])
    } else {
        None
    }
}

/// Recognises a `/dev/tcp/host/port` path and gives the address to connect
/// to.
pub fn tcp_address_of(file_path: &str) -> (r: Option<String>)
    ensures
        opt_view(r) == tcp_address(file_path@),
{
    let parts = split_on(file_path, '/');
    if parts.len() != 5 {
        return None;
    }
    proof {
        assert(views(parts@)[0] == parts@[0]@);
        assert(views(parts@)[1] == parts@[1]@);
        assert(views(parts@)[2] == parts@[2]@);
        assert(views(parts@)[3] == parts@[3]@);
        assert(views(parts@)[4] == parts@[4]@);
    }
    if !(parts[0].as_str().unicode_len() == 0 && same_text(parts[1].as_str(), "dev")
        && same_text(parts[2].as_str(), "tcp")) {
        return None;
    }
    let mut address = parts[3].as_str().to_owned();
    address.append(":");
    address.append(parts[4].as_str());
    Some(address)
}

} // verus!
