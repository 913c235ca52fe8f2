//! Properties that hold across the shell's parsing and planning functions,
//! stated over the models that their contracts use.

use vstd::prelude::*;
use crate::builtin::{
    export_vars, first_without_eq, lacks_eq, lemma_first_without_eq, lemma_has_assignment,
};
use crate::plan::{
    command_plan, command_text, stage_input, stage_output, stage_parent_ops, writes_to_pipe,
    CommandPlanModel,
};
use crate::redirect::{
    apply_op, apply_ops, redirection_ops, target_fd, FdObject, FdOpView, IOSelect, RedirectionView,
};
use crate::syntax::{tcp_address, token_after};
use crate::text::{
    all_digits, digits_value, find_from, in_class, is_digit, is_ws, last_token, lemma_find_from,
    lemma_prefix_while, lemma_prefix_while_at, lemma_skip_len, lemma_suffix_while,
    lemma_split_char_nonempty, lemma_suffix_while_at, matches_at, parse_i32, prefix_while, split2, split_char, suffix_while,
    tokens, trim, Class,
};

verus! {

/// The pieces joined back together, with `c` between neighbours.
pub open spec fn join(pieces: Seq<Seq<char>>, c: char) -> Seq<char>
    decreases pieces.len(),
{
    if pieces.len() == 0 {
        seq![]
    } else if pieces.len() == 1 {
        pieces[0]
    } else {
        pieces[0] + seq![c] + join(pieces.drop_first(), c)
    }
}

/// Splitting a line on `c` (as the shell splits a command line into the
/// stages of a pipeline on `|`) loses nothing: joining the pieces with `c`
/// gives back the line, and no piece contains `c`.
pub proof fn law_split_join(s: Seq<char>, c: char)
    ensures
        join(split_char(s, c), c) == s,
        forall|k: int, j: int|
            0 <= k < split_char(s, c).len() && 0 <= j < split_char(s, c)[k].len() ==> split_char(
                s,
                c,
            )[k][j] != c,
    decreases s.len(),
{
    let i = prefix_while(s, Class::Not(c)) as int;
    lemma_prefix_while(s, Class::Not(c));
    if i >= s.len() {
        assert forall|k: int, j: int|
            0 <= k < split_char(s, c).len() && 0 <= j < split_char(s, c)[k].len() implies split_char(
            s,
            c,
        )[k][j] != c by {
            assert(in_class(s[j], Class::Not(c)));
        }
    } else {
        let rest = s.skip(i + 1);
        lemma_skip_len(s, i + 1);
        law_split_join(rest, c);
        lemma_split_char_nonempty(rest, c);
        let tail = split_char(rest, c);
        let whole = split_char(s, c);
        assert(whole == seq![s.take(i)] + tail);
        assert(whole.drop_first() =~= tail);
        assert(join(whole, c) == s.take(i) + seq![c] + join(tail, c));
        assert(s[i] == c);
        assert(s.take(i) + seq![c] + rest =~= s);
        assert forall|k: int, j: int|
            0 <= k < whole.len() && 0 <= j < whole[k].len() implies whole[k][j] != c by {
            if k == 0 {
                assert(in_class(s[j], Class::Not(c)));
            } else {
                assert(whole[k] == tail[k - 1]);
            }
        }
    }
}


/// The words of a text are non-empty, hold no whitespace, and hold only
/// characters of a class that every character of the text belongs to.
pub proof fn lemma_tokens_in_class(s: Seq<char>, k: Class)
    requires
        forall|j: int| 0 <= j < s.len() ==> in_class(#[trigger] s[j], k),
    ensures
        forall|t: int, j: int|
            0 <= t < tokens(s).len() && 0 <= j < tokens(s)[t].len() ==> in_class(
                #[trigger] tokens(s)[t][j],
                k,
            ) && !is_ws(tokens(s)[t][j]),
        forall|t: int| 0 <= t < tokens(s).len() ==> #[trigger] tokens(s)[t].len() > 0,
    decreases s.len(),
{
    let a = prefix_while(s, Class::Ws) as int;
    lemma_prefix_while(s, Class::Ws);
    if a < s.len() {
        let rest = s.skip(a);
        let n = prefix_while(rest, Class::NonWs) as int;
        lemma_prefix_while(rest, Class::NonWs);
        assert(rest[0] == s[a]);
        assert(n >= 1);
        let after = rest.skip(n);
        assert forall|j: int| 0 <= j < after.len() implies in_class(#[trigger] after[j], k) by {
            assert(after[j] == s[a + n + j]);
        }
        lemma_tokens_in_class(after, k);
        let all = tokens(s);
        assert(all == seq![rest.take(n)] + tokens(after));
        assert forall|t: int, j: int| 0 <= t < all.len() && 0 <= j < all[t].len() implies in_class(
            #[trigger] all[t][j],
            k,
        ) && !is_ws(all[t][j]) by {
            if t == 0 {
                assert(all[t][j] == s[a + j]);
                assert(in_class(rest[j], Class::NonWs));
            } else {
                assert(all[t] == tokens(after)[t - 1]);
            }
        }
        assert forall|t: int| 0 <= t < all.len() implies #[trigger] all[t].len() > 0 by {
            if t > 0 {
                assert(all[t] == tokens(after)[t - 1]);
            }
        }
    }
}

/// The text of a command, with or without its trailing descriptor
/// digits, holds no `>` or `<`.
pub proof fn lemma_command_text_plain(cmd: Seq<char>, fd_named: bool)
    ensures
        forall|j: int|
            0 <= j < command_text(cmd, fd_named).len() ==> in_class(
                #[trigger] command_text(cmd, fd_named)[j],
                Class::NotRedirect,
            ),
{
    let c = cmd.take(prefix_while(cmd, Class::NotRedirect) as int);
    lemma_prefix_while(cmd, Class::NotRedirect);
    lemma_suffix_while(c, Class::SpaceOrDigit);
    let t = command_text(cmd, fd_named);
    assert forall|j: int| 0 <= j < t.len() implies in_class(#[trigger] t[j], Class::NotRedirect) by {
        assert(t[j] == cmd[j]);
    }
}

/// The program and arguments that a command runs are non-empty words with
/// no whitespace and no `>` or `<`: the redirections are taken out of them.
pub proof fn law_command_words(cmd: Seq<char>, fd_named: bool)
    ensures
        forall|t: int| 0 <= t < tokens(command_text(cmd, fd_named)).len() ==> {
            let w = #[trigger] tokens(command_text(cmd, fd_named))[t];
            &&& w.len() > 0
            &&& forall|j: int| 0 <= j < w.len() ==> !is_ws(#[trigger] w[j]) && w[j] != '>' && w[j] != '<'
        },
{
    lemma_command_text_plain(cmd, fd_named);
    lemma_tokens_in_class(command_text(cmd, fd_named), Class::NotRedirect);
    let ws = tokens(command_text(cmd, fd_named));
    assert forall|t: int| 0 <= t < ws.len() implies {
        let w = #[trigger] ws[t];
        &&& w.len() > 0
        &&& forall|j: int| 0 <= j < w.len() ==> !is_ws(#[trigger] w[j]) && w[j] != '>' && w[j] != '<'
    } by {
        let w = ws[t];
        assert forall|j: int| 0 <= j < w.len() implies !is_ws(#[trigger] w[j]) && w[j] != '>' && w[j]
            != '<' by {
            assert(in_class(ws[t][j], Class::NotRedirect));
        }
    }
}


/// For a non-empty delimiter, `get_token_after` finds a token exactly when
/// the delimiter occurs in the source; the text it returns with the token is
/// the source up to the first occurrence, so that this text and the
/// delimiter begin the source, and the delimiter does not begin anywhere
/// within that text. Without the delimiter, the text is the whole source.
/// The token holds no `>`, `<` or space.
pub proof fn law_token_after(s: Seq<char>, d: Seq<char>)
    requires
        d.len() > 0,
    ensures
        token_after(s, d).1 is None <==> forall|i: int| !matches_at(s, d, i),
        token_after(s, d).1 is None ==> token_after(s, d).0 == s,
        token_after(s, d).1 is Some ==> {
            let before = token_after(s, d).0;
            &&& s.take((before.len() + d.len()) as int) == before + d
            &&& forall|i: int| 0 <= i < before.len() ==> !matches_at(s, d, i)
        },
        token_after(s, d).1 matches Some(t) ==> forall|j: int|
            0 <= j < t.len() ==> #[trigger] t[j] != '>' && t[j] != '<' && t[j] != ' ',
{
    lemma_find_from(s, d, 0);
    match find_from(s, d, 0) {
        None => {},
        Some(k) => {
            assert(matches_at(s, d, k));
            assert(s.take(k + d.len()) =~= s.take(k) + d);
            let r = split2(s, d).1->0;
            let t = trim(r);
            lemma_prefix_while(t, Class::NotStop);
            let tok = t.take(prefix_while(t, Class::NotStop) as int);
            assert forall|j: int| 0 <= j < tok.len() implies #[trigger] tok[j] != '>' && tok[j] != '<'
                && tok[j] != ' ' by {
                assert(in_class(t[j], Class::NotStop));
            }
        },
    }
}


/// A delimiter whose first character does not occur in the source gives no
/// token.
pub proof fn lemma_no_token(s: Seq<char>, d: Seq<char>)
    requires
        d.len() > 0,
        forall|j: int| 0 <= j < s.len() ==> #[trigger] s[j] != d[0],
    ensures
        token_after(s, d).1 is None,
{
    assert forall|i: int| !matches_at(s, d, i) by {
        if matches_at(s, d, i) {
            assert(s.subrange(i, i + d.len())[0] == s[i]);
        }
    }
    law_token_after(s, d);
}

/// Text without `>` has no output redirection token; text without `<` has
/// no input redirection token.
pub proof fn lemma_no_redirect_tokens(s: Seq<char>)
    ensures
        (forall|j: int| 0 <= j < s.len() ==> #[trigger] s[j] != '>') ==> {
            &&& token_after(s, ">>"@).1 is None
            &&& token_after(s, ">&"@).1 is None
            &&& token_after(s, ">"@).1 is None
        },
        (forall|j: int| 0 <= j < s.len() ==> #[trigger] s[j] != '<') ==> {
            &&& token_after(s, "<<"@).1 is None
            &&& token_after(s, "<"@).1 is None
        },
{
    reveal_strlit(">>");
    reveal_strlit(">&");
    reveal_strlit(">");
    reveal_strlit("<<");
    reveal_strlit("<");
    if forall|j: int| 0 <= j < s.len() ==> #[trigger] s[j] != '>' {
        lemma_no_token(s, ">>"@);
        lemma_no_token(s, ">&"@);
        lemma_no_token(s, ">"@);
    }
    if forall|j: int| 0 <= j < s.len() ==> #[trigger] s[j] != '<' {
        lemma_no_token(s, "<<"@);
        lemma_no_token(s, "<"@);
    }
}

/// Neighbouring stages of a pipeline meet in one pipe: when the writing
/// stage has no `>` and the reading stage no `<`, the pipe made for the
/// writer becomes the writer's standard output (write end; the writer
/// closes both ends) and the reader's standard input (read end, which the
/// reader moves onto standard input; the shell has closed the write end).
pub proof fn law_stages_connect(
    writer: Seq<char>,
    reader: Seq<char>,
    index: int,
    count: int,
    pipefd: (i32, i32),
)
    requires
        0 <= index,
        index + 1 < count,
        forall|j: int| 0 <= j < writer.len() ==> #[trigger] writer[j] != '>',
        forall|j: int| 0 <= j < reader.len() ==> #[trigger] reader[j] != '<',
    ensures
        stage_output(writer, index, count, pipefd) == RedirectionView::pipe(pipefd.0, pipefd.1),
        stage_input(reader, index + 1, pipefd) == RedirectionView::fd(pipefd.0),
        redirection_ops(IOSelect::Output, stage_output(writer, index, count, pipefd)) == seq![
            FdOpView::Close(pipefd.0),
            FdOpView::Dup2(pipefd.1, 1),
            FdOpView::Close(pipefd.1),
        ],
        redirection_ops(IOSelect::Input, stage_input(reader, index + 1, pipefd)) == seq![
            FdOpView::Dup2(pipefd.0, 0),
            FdOpView::Close(pipefd.0),
        ],
        stage_parent_ops(index, count, pipefd) == seq![FdOpView::Close(pipefd.1)],
{
    lemma_no_redirect_tokens(writer);
    lemma_no_redirect_tokens(reader);
}

/// The ends of a pipeline keep the shell's own streams: the first stage
/// reads the shell's standard input unless it has a `<`, and the last stage
/// writes the shell's standard output unless it has a `>`.
pub proof fn law_pipeline_ends(
    first: Seq<char>,
    last: Seq<char>,
    count: int,
    pipefd: (i32, i32),
    last_pipefd: (i32, i32),
)
    requires
        count >= 1,
    ensures
        (forall|j: int| 0 <= j < first.len() ==> #[trigger] first[j] != '<') ==> stage_input(
            first,
            0,
            last_pipefd,
        ) == RedirectionView::default,
        (forall|j: int| 0 <= j < last.len() ==> #[trigger] last[j] != '>') ==> stage_output(
            last,
            count - 1,
            count,
            pipefd,
        ) == RedirectionView::default,
        !writes_to_pipe(count - 1, count),
{
    lemma_no_redirect_tokens(first);
    lemma_no_redirect_tokens(last);
}

/// A command with no `>` and no `<` is run as written: no redirection, and
/// its whitespace-separated words as program and arguments.
pub proof fn law_plain_command(cmd: Seq<char>)
    requires
        forall|j: int| 0 <= j < cmd.len() ==> #[trigger] cmd[j] != '>' && cmd[j] != '<',
    ensures
        command_plan(cmd) == Ok::<CommandPlanModel, crate::plan::PlanError>(
            CommandPlanModel { output: None, input: None, words: tokens(cmd) },
        ),
{
    lemma_no_redirect_tokens(cmd);
    assert forall|j: int| 0 <= j < cmd.len() implies in_class(#[trigger] cmd[j], Class::NotRedirect) by {}
    lemma_prefix_while_at(cmd, Class::NotRedirect, cmd.len() as int);
    assert(cmd.take(cmd.len() as int) =~= cmd);
}


/// Text without `c` is a single piece.
pub proof fn lemma_split_char_single(a: Seq<char>, c: char)
    requires
        forall|j: int| 0 <= j < a.len() ==> #[trigger] a[j] != c,
    ensures
        split_char(a, c) == seq![a],
{
    assert forall|j: int| 0 <= j < a.len() implies in_class(#[trigger] a[j], Class::Not(c)) by {}
    lemma_prefix_while_at(a, Class::Not(c), a.len() as int);
}

/// Text without `c`, then `c`, then more text splits into the first text and
/// the pieces of the rest.
pub proof fn lemma_split_char_concat(a: Seq<char>, c: char, b: Seq<char>)
    requires
        forall|j: int| 0 <= j < a.len() ==> #[trigger] a[j] != c,
    ensures
        split_char(a + seq![c] + b, c) == seq![a] + split_char(b, c),
{
    let s = a + seq![c] + b;
    assert forall|j: int| 0 <= j < a.len() implies in_class(#[trigger] s[j], Class::Not(c)) by {
        assert(s[j] == a[j]);
    }
    assert(s[a.len() as int] == c);
    lemma_prefix_while_at(s, Class::Not(c), a.len() as int);
    assert(s.take(a.len() as int) =~= a);
    assert(s.skip((a.len() + 1) as int) =~= b);
}

/// A path `/dev/tcp/host/port`, with no `/` in the host or the port, names
/// the address `host:port`.
pub proof fn law_tcp_path(host: Seq<char>, port: Seq<char>)
    requires
        forall|j: int| 0 <= j < host.len() ==> #[trigger] host[j] != '/',
        forall|j: int| 0 <= j < port.len() ==> #[trigger] port[j] != '/',
    ensures
        tcp_address("/dev/tcp/"@ + host + "/"@ + port) == Some(host + ":"@ + port),
{
    reveal_strlit("/dev/tcp/");
    reveal_strlit("/");
    reveal_strlit("dev");
    reveal_strlit("tcp");
    let empty = Seq::<char>::empty();
    let s1 = host + seq!['/'] + port;
    let s2 = "tcp"@ + seq!['/'] + s1;
    let s3 = "dev"@ + seq!['/'] + s2;
    let s4 = empty + seq!['/'] + s3;
    lemma_split_char_single(port, '/');
    lemma_split_char_concat(host, '/', port);
    lemma_split_char_concat("tcp"@, '/', s1);
    lemma_split_char_concat("dev"@, '/', s2);
    lemma_split_char_concat(empty, '/', s3);
    assert("/dev/tcp/"@ + host + "/"@ + port =~= s4);
    let p = split_char(s4, '/');
    assert(p =~= seq![empty, "dev"@, "tcp"@, host, port]);
}

/// The character of a decimal digit.
pub open spec fn digit_char(k: nat) -> char {
    if k == 0 {
        '0'
    } else if k == 1 {
        '1'
    } else if k == 2 {
        '2'
    } else if k == 3 {
        '3'
    } else if k == 4 {
        '4'
    } else if k == 5 {
        '5'
    } else if k == 6 {
        '6'
    } else if k == 7 {
        '7'
    } else if k == 8 {
        '8'
    } else {
        '9'
    }
}

/// The value of a digit's character is the digit.
pub proof fn lemma_digit_char(k: nat)
    requires
        k < 10,
    ensures
        digit_char(k) as int - '0' as int == k,
        is_digit(digit_char(k)),
{
    assert('0' as int == 48 && '1' as int == 49 && '2' as int == 50 && '3' as int == 51 && '4' as int
        == 52 && '5' as int == 53 && '6' as int == 54 && '7' as int == 55 && '8' as int == 56 && '9'
        as int == 57);
}

/// The decimal digits of a natural number.
pub open spec fn decimal(n: nat) -> Seq<char>
    decreases n,
{
    if n < 10 {
        seq![digit_char(n)]
    } else {
        decimal(n / 10) + seq![digit_char(n % 10)]
    }
}

/// The decimal digits of `n` write `n`.
pub proof fn lemma_decimal_value(n: nat)
    ensures
        all_digits(decimal(n)),
        decimal(n).len() > 0,
        digits_value(decimal(n)) == n,
    decreases n,
{
    if n < 10 {
        let d = decimal(n);
        assert(d.drop_last() =~= Seq::<char>::empty());
        lemma_digit_char(n);
        assert(is_digit(d[0]));
        assert(digits_value(d.drop_last()) == 0);
        assert(d.last() == digit_char(n));
        assert(digits_value(d) == 10 * digits_value(d.drop_last()) + (d.last() as int - '0' as int));
    } else {
        lemma_decimal_value(n / 10);
        let d = decimal(n);
        assert(d.drop_last() =~= decimal(n / 10));
        assert(d.last() == digit_char(n % 10));
        lemma_digit_char(n % 10);
        vstd::arithmetic::div_mod::lemma_fundamental_div_mod(n as int, 10);
        assert(digits_value(d) == 10 * digits_value(d.drop_last()) + (d.last() as int - '0' as int));
        assert(n as int == 10 * ((n / 10) as int) + (n % 10) as int);
        assert forall|j: int| 0 <= j < d.len() implies is_digit(#[trigger] d[j]) by {
            if j < d.len() - 1 {
                assert(d[j] == decimal(n / 10)[j]);
            }
        }
    }
}

/// A descriptor number written in decimal, with or without a minus sign,
/// reads back as itself (which is how `get_fd_before` and the word after
/// `>&` recognise descriptors).
pub proof fn law_decimal_fd(n: nat)
    ensures
        n <= 2147483647 ==> parse_i32(decimal(n)) == Some(n as i32),
        n <= 2147483648 ==> parse_i32(seq!['-'] + decimal(n)) == Some((-n) as i32),
{
    lemma_decimal_value(n);
    let d = decimal(n);
    assert(is_digit(d[0]));
    assert((seq!['-'] + d).drop_first() =~= d);
}


/// Text ending in a character outside `k` keeps its suffix run in `k` when
/// more text comes before it.
pub proof fn lemma_suffix_while_concat(p: Seq<char>, r: Seq<char>, k: Class, i: int)
    requires
        0 <= i < r.len(),
        !in_class(r[i], k),
    ensures
        suffix_while(p + r, k) == suffix_while(r, k),
        suffix_while(r, k) < r.len(),
{
    lemma_suffix_while(r, k);
    let m = suffix_while(r, k) as int;
    if m == r.len() {
        assert(in_class(r[i], k));
    }
    let s = p + r;
    assert forall|j: int| s.len() - m <= j < s.len() implies in_class(#[trigger] s[j], k) by {
        assert(s[j] == r[j - p.len()]);
    }
    assert(s[s.len() - m - 1] == r[r.len() - m - 1]);
    lemma_suffix_while_at(s, k, m);
}

/// Text all of whitespace has no last word.
pub proof fn lemma_last_token_blank(s: Seq<char>)
    requires
        forall|j: int| 0 <= j < s.len() ==> is_ws(#[trigger] s[j]),
    ensures
        last_token(s) is None,
{
    assert forall|j: int| s.len() - s.len() <= j < s.len() implies in_class(#[trigger] s[j], Class::Ws) by {}
    lemma_suffix_while_at(s, Class::Ws, s.len() as int);
}

/// More text before a whitespace character does not change the last word
/// after it.
pub proof fn lemma_last_token_concat(p: Seq<char>, r: Seq<char>)
    requires
        r.len() > 0,
        is_ws(r[0]),
        last_token(r) is Some,
    ensures
        last_token(p + r) == last_token(r),
{
    let k = suffix_while(r, Class::Ws) as int;
    lemma_suffix_while(r, Class::Ws);
    let tr = r.take(r.len() - k);
    assert(tr.len() > 0);
    let i = r.len() - k - 1;
    assert(!in_class(r[i], Class::Ws));
    lemma_suffix_while_concat(p, r, Class::Ws, i);
    let s = p + r;
    let ts = s.take(s.len() - k);
    assert(ts =~= p + tr);
    assert(in_class(tr[0], Class::Ws));
    lemma_suffix_while_concat(p, tr, Class::NonWs, 0);
    let n = suffix_while(tr, Class::NonWs) as int;
    assert(ts.skip(ts.len() - n) =~= tr.skip(tr.len() - n));
}

/// The last word of text that is a run of whitespace, a word, then
/// whitespace, is that word.
pub proof fn lemma_last_token_single(s: Seq<char>, a: int, n: int)
    requires
        0 <= a,
        n > 0,
        a + n <= s.len(),
        forall|j: int| 0 <= j < a ==> is_ws(#[trigger] s[j]),
        forall|j: int| a <= j < a + n ==> !is_ws(#[trigger] s[j]),
        forall|j: int| a + n <= j < s.len() ==> is_ws(#[trigger] s[j]),
    ensures
        last_token(s) == Some(s.subrange(a, a + n)),
{
    assert forall|j: int| s.len() - (s.len() - (a + n)) <= j < s.len() implies in_class(
        #[trigger] s[j],
        Class::Ws,
    ) by {}
    assert(!in_class(s[a + n - 1], Class::Ws));
    lemma_suffix_while_at(s, Class::Ws, s.len() - (a + n));
    let t = s.take(a + n);
    assert forall|j: int| t.len() - n <= j < t.len() implies in_class(#[trigger] t[j], Class::NonWs) by {
        assert(t[j] == s[j]);
    }
    if a > 0 {
        assert(t[t.len() - n - 1] == s[a - 1]);
    }
    lemma_suffix_while_at(t, Class::NonWs, n);
    assert(t.skip(t.len() - n) =~= s.subrange(a, a + n));
}

/// The word that `get_fd_before` reads is the last of the text's
/// whitespace-separated words (`split_whitespace().last()`), if it has any.
pub proof fn law_last_token(s: Seq<char>)
    ensures
        last_token(s) == (if tokens(s).len() == 0 {
            None
        } else {
            Some(tokens(s).last())
        }),
    decreases s.len(),
{
    let a = prefix_while(s, Class::Ws) as int;
    lemma_prefix_while(s, Class::Ws);
    if a >= s.len() {
        assert forall|j: int| 0 <= j < s.len() implies is_ws(#[trigger] s[j]) by {
            assert(in_class(s[j], Class::Ws));
        }
        lemma_last_token_blank(s);
    } else {
        let rest = s.skip(a);
        let n = prefix_while(rest, Class::NonWs) as int;
        lemma_prefix_while(rest, Class::NonWs);
        assert(rest[0] == s[a]);
        let r = rest.skip(n);
        law_last_token(r);
        assert(tokens(s) == seq![rest.take(n)] + tokens(r));
        if tokens(r).len() == 0 {
            lemma_tokens_blank(r);
            assert forall|j: int| 0 <= j < a implies is_ws(#[trigger] s[j]) by {
                assert(in_class(s[j], Class::Ws));
            }
            assert forall|j: int| a <= j < a + n implies !is_ws(#[trigger] s[j]) by {
                assert(s[j] == rest[j - a]);
                assert(in_class(rest[j - a], Class::NonWs));
            }
            assert forall|j: int| a + n <= j < s.len() implies is_ws(#[trigger] s[j]) by {
                assert(s[j] == r[j - a - n]);
            }
            lemma_last_token_single(s, a, n);
            assert(rest.take(n) =~= s.subrange(a, a + n));
        } else {
            assert(r.len() > 0);
            assert(r[0] == rest[n]);
            assert(!in_class(rest[n], Class::NonWs));
            assert(s =~= s.take(a + n) + r);
            lemma_last_token_concat(s.take(a + n), r);
            assert((seq![rest.take(n)] + tokens(r)).last() == tokens(r).last());
        }
    }
}

/// Text with no words is all whitespace.
pub proof fn lemma_tokens_blank(s: Seq<char>)
    requires
        tokens(s).len() == 0,
    ensures
        forall|j: int| 0 <= j < s.len() ==> is_ws(#[trigger] s[j]),
{
    let a = prefix_while(s, Class::Ws) as int;
    lemma_prefix_while(s, Class::Ws);
    if a < s.len() {
        let rest = s.skip(a);
        lemma_prefix_while(rest, Class::NonWs);
        assert(tokens(s).len() >= 1);
    }
    assert forall|j: int| 0 <= j < s.len() implies is_ws(#[trigger] s[j]) by {
        assert(in_class(s[j], Class::Ws));
    }
}


/// Searching for a one-character pattern from `i` finds the first
/// occurrence of that character at or after `i`.
pub proof fn lemma_find_char(s: Seq<char>, c: char, i: int)
    requires
        0 <= i <= s.len(),
    ensures
        find_from(s, seq![c], i) == (if i + prefix_while(s.skip(i), Class::Not(c)) < s.len() {
            Some(i + prefix_while(s.skip(i), Class::Not(c)))
        } else {
            None::<int>
        }),
{
    let t = s.skip(i);
    let q = prefix_while(t, Class::Not(c)) as int;
    lemma_prefix_while(t, Class::Not(c));
    lemma_find_from(s, seq![c], i);
    if i + q < s.len() {
        assert(t[q] == s[i + q]);
        assert(s.subrange(i + q, i + q + 1) =~= seq![c]);
        assert(matches_at(s, seq![c], i + q));
    }
    match find_from(s, seq![c], i) {
        Some(k) => {
            assert(s.subrange(k, k + 1)[0] == s[k]);
            if k < i + q {
                assert(t[k - i] == s[k]);
                assert(in_class(t[k - i], Class::Not(c)));
            }
        },
        None => {},
    }
}

/// The first two pieces that `get_token_after` takes of its source (its
/// model of `str::split` with a text pattern) agree, for a one-character
/// pattern, with the first two pieces of splitting on that character.
pub proof fn law_split2_char(s: Seq<char>, c: char)
    ensures
        split2(s, seq![c]).0 == split_char(s, c)[0],
        split2(s, seq![c]).1 == (if split_char(s, c).len() >= 2 {
            Some(split_char(s, c)[1])
        } else {
            None::<Seq<char>>
        }),
{
    assert(s.skip(0) =~= s);
    lemma_find_char(s, c, 0);
    let p = prefix_while(s, Class::Not(c)) as int;
    lemma_prefix_while(s, Class::Not(c));
    if p < s.len() {
        let rest = s.skip(p + 1);
        lemma_skip_len(s, p + 1);
        lemma_find_char(s, c, p + 1);
        let q = prefix_while(rest, Class::Not(c)) as int;
        lemma_prefix_while(rest, Class::Not(c));
        let pieces = split_char(s, c);
        assert(pieces == seq![s.take(p)] + split_char(rest, c));
        if q >= rest.len() {
            assert(split_char(rest, c) == seq![rest]);
        } else {
            assert(s.subrange(p + 1, p + 1 + q) =~= rest.take(q));
        }
    }
}


/// Joined pieces begin with the first piece.
pub proof fn lemma_join_first(q: Seq<Seq<char>>, c: char)
    requires
        q.len() >= 1,
    ensures
        join(q, c).take(q[0].len() as int) == q[0],
{
    if q.len() > 1 {
        assert(join(q, c).take(q[0].len() as int) =~= q[0]);
    }
}

/// Joined pieces begin with the first piece, `c`, then the second piece.
pub proof fn lemma_join_prefix(q: Seq<Seq<char>>, c: char)
    requires
        q.len() >= 2,
    ensures
        join(q, c).take((q[0].len() + 1 + q[1].len()) as int) == q[0] + seq![c] + q[1],
{
    let r = q.drop_first();
    lemma_join_first(r, c);
    assert(join(q, c) == q[0] + seq![c] + join(r, c));
    assert(join(q, c).take((q[0].len() + 1 + q[1].len()) as int) =~= q[0] + seq![c] + join(r, c).take(
        r[0].len() as int,
    ));
}

/// `export` is refused exactly at its first argument without `=`. When none
/// lacks one, it assigns, for each argument in order, the text before the
/// argument's first `=` (which holds no `=`) to the text after it up to a
/// next `=`: the name, `=` and the value begin the argument.
pub proof fn law_export(args: Seq<Seq<char>>)
    ensures
        match first_without_eq(args) {
            Some(k) => 0 <= k < args.len() && lacks_eq(args[k]) && forall|j: int|
                0 <= j < k ==> !lacks_eq(#[trigger] args[j]),
            None => forall|j: int| 0 <= j < args.len() ==> !lacks_eq(#[trigger] args[j]),
        },
        first_without_eq(args) is None ==> forall|i: int|
            0 <= i < args.len() ==> {
                let v = #[trigger] export_vars(args)[i];
                &&& lacks_eq(v.0)
                &&& args[i].take((v.0.len() + 1 + v.1.len()) as int) == v.0 + seq!['='] + v.1
            },
{
    lemma_first_without_eq(args);
    if first_without_eq(args) is None {
        assert forall|i: int| 0 <= i < args.len() implies {
            let v = #[trigger] export_vars(args)[i];
            &&& lacks_eq(v.0)
            &&& args[i].take((v.0.len() + 1 + v.1.len()) as int) == v.0 + seq!['='] + v.1
        } by {
            let a = args[i];
            lemma_has_assignment(a);
            law_split_join(a, '=');
            let p = split_char(a, '=');
            lemma_join_prefix(p, '=');
            assert(export_vars(args)[i] == (p[0], p[1]));
            assert forall|j: int| 0 <= j < p[0].len() implies #[trigger] p[0][j] != '=' by {}
        }
    }
}


/// Applying one operation and then the rest.
pub proof fn lemma_apply_ops_cons(t: Map<i32, FdObject>, ops: Seq<FdOpView>)
    requires
        ops.len() > 0,
    ensures
        apply_ops(t, ops) == (match apply_op(t, ops[0]) {
            None => None,
            Some(t1) => apply_ops(t1, ops.drop_first()),
        }),
{
}

/// Duplicating an open descriptor `m` onto the selected descriptor (`n>&m`)
/// succeeds, makes that descriptor refer to what `m` refers to, and leaves
/// `m` open and unchanged.
pub proof fn law_duplicate_keeps_source(t: Map<i32, FdObject>, sel: IOSelect, m: i32)
    requires
        t.dom().contains(m),
    ensures
        apply_ops(t, redirection_ops(sel, RedirectionView::dup(m))) == Some(
            t.insert(target_fd(sel), t[m]),
        ),
        t.insert(target_fd(sel), t[m]).dom().contains(m),
        t.insert(target_fd(sel), t[m])[m] == t[m],
{
    let ops = redirection_ops(sel, RedirectionView::dup(m));
    let t1 = t.insert(target_fd(sel), t[m]);
    assert(ops.drop_first() =~= Seq::<FdOpView>::empty());
    lemma_apply_ops_cons(t, ops);
    assert(apply_ops(t1, ops.drop_first()) == Some(t1));
}

/// Moving an open descriptor `m` onto another one succeeds, makes that
/// descriptor refer to what `m` referred to, and closes `m`.
pub proof fn law_move_closes_source(t: Map<i32, FdObject>, sel: IOSelect, m: i32)
    requires
        t.dom().contains(m),
        m != target_fd(sel),
    ensures
        apply_ops(t, redirection_ops(sel, RedirectionView::fd(m))) == Some(
            t.insert(target_fd(sel), t[m]).remove(m),
        ),
{
    let ops = redirection_ops(sel, RedirectionView::fd(m));
    let t1 = t.insert(target_fd(sel), t[m]);
    let t2 = t1.remove(m);
    let ops1 = ops.drop_first();
    let ops2 = ops1.drop_first();
    assert(ops2 =~= Seq::<FdOpView>::empty());
    assert(ops1[0] == FdOpView::Close(m));
    lemma_apply_ops_cons(t, ops);
    lemma_apply_ops_cons(t1, ops1);
    assert(apply_ops(t2, ops2) == Some(t2));
}

/// Redirecting standard output to a pipe whose two ends are open (and are
/// neither standard output nor each other) succeeds, makes standard output
/// the write end and leaves neither end open.
pub proof fn law_pipe_output_table(t: Map<i32, FdObject>, rd: i32, wr: i32)
    requires
        t.dom().contains(rd),
        t.dom().contains(wr),
        rd != wr,
        rd != 1,
        wr != 1,
    ensures
        apply_ops(t, redirection_ops(IOSelect::Output, RedirectionView::pipe(rd, wr))) == Some(
            t.remove(rd).insert(1, t[wr]).remove(wr),
        ),
        t.remove(rd).insert(1, t[wr]).remove(wr).dom().contains(1),
        t.remove(rd).insert(1, t[wr]).remove(wr)[1] == t[wr],
        !t.remove(rd).insert(1, t[wr]).remove(wr).dom().contains(rd),
        !t.remove(rd).insert(1, t[wr]).remove(wr).dom().contains(wr),
{
    let ops = redirection_ops(IOSelect::Output, RedirectionView::pipe(rd, wr));
    let o1 = ops.drop_first();
    let o2 = o1.drop_first();
    let o3 = o2.drop_first();
    assert(o3 =~= Seq::<FdOpView>::empty());
    assert(o1[0] == FdOpView::Dup2(wr, 1) && o2[0] == FdOpView::Close(wr));
    let a1 = t.remove(rd);
    assert(a1.dom().contains(wr) && a1[wr] == t[wr]);
    let a2 = a1.insert(1, t[wr]);
    assert(a2.dom().contains(wr));
    let a3 = a2.remove(wr);
    lemma_apply_ops_cons(t, ops);
    lemma_apply_ops_cons(a1, o1);
    lemma_apply_ops_cons(a2, o2);
    assert(apply_ops(a3, o3) == Some(a3));
    assert(a3.dom().contains(1) && a3[1] == t[wr]);
}

/// Neighbouring stages of a pipeline work, as the descriptor tables show
/// them. Start from the shell's table `t` just after it made the writer's
/// pipe, whose two ends are open and are neither standard stream:
/// - the writer's child (a copy of `t`) redirects its output without a
///   failure, ends with the write end as standard output, and keeps neither
///   end open;
/// - the shell then closes the write end, without a failure, and keeps the
///   read end;
/// - the reader's child (a copy of the shell's table after that) redirects
///   its input without a failure, ends with the read end as standard input,
///   and keeps neither end open.
pub proof fn law_pipeline_handoff(
    writer: Seq<char>,
    reader: Seq<char>,
    index: int,
    count: int,
    pipefd: (i32, i32),
    t: Map<i32, FdObject>,
)
    requires
        0 <= index,
        index + 1 < count,
        forall|j: int| 0 <= j < writer.len() ==> #[trigger] writer[j] != '>',
        forall|j: int| 0 <= j < reader.len() ==> #[trigger] reader[j] != '<',
        t.dom().contains(pipefd.0),
        t.dom().contains(pipefd.1),
        pipefd.0 != pipefd.1,
        pipefd.0 != 0 && pipefd.0 != 1 && pipefd.1 != 0 && pipefd.1 != 1,
    ensures
        apply_ops(t, redirection_ops(IOSelect::Output, stage_output(writer, index, count, pipefd)))
            matches Some(w) && w.dom().contains(1) && w[1] == t[pipefd.1] && !w.dom().contains(
            pipefd.0,
        ) && !w.dom().contains(pipefd.1),
        apply_ops(t, stage_parent_ops(index, count, pipefd)) == Some(t.remove(pipefd.1)),
        apply_ops(
            t.remove(pipefd.1),
            redirection_ops(IOSelect::Input, stage_input(reader, index + 1, pipefd)),
        ) matches Some(r) && r.dom().contains(0) && r[0] == t[pipefd.0] && !r.dom().contains(
            pipefd.0,
        ) && !r.dom().contains(pipefd.1),
{
    law_stages_connect(writer, reader, index, count, pipefd);
    law_pipe_output_table(t, pipefd.0, pipefd.1);
    let parent = stage_parent_ops(index, count, pipefd);
    assert(parent.drop_first() =~= Seq::<FdOpView>::empty());
    lemma_apply_ops_cons(t, parent);
    let s = t.remove(pipefd.1);
    assert(apply_ops(s, parent.drop_first()) == Some(s));
    assert(s.dom().contains(pipefd.0) && s[pipefd.0] == t[pipefd.0]);
    law_move_closes_source(s, IOSelect::Input, pipefd.0);
    let r = s.insert(0, s[pipefd.0]).remove(pipefd.0);
    assert(r.dom().contains(0) && r[0] == t[pipefd.0]);
}

} // verus!
