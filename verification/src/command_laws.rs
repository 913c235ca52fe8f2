//! Laws about what the shell makes of command lines of given shapes: the
//! words it runs, the redirections it carries out, and the built-ins it
//! recognises, stated over the lines themselves.

use vstd::prelude::*;
use crate::builtin::{builtin, refusal, BuiltinModel};
use crate::laws::{
    decimal, law_decimal_fd, law_move_closes_source, lemma_apply_ops_cons, lemma_last_token_concat,
    lemma_last_token_single, lemma_no_redirect_tokens, law_token_after,
};
use crate::plan::{
    basic_child_ops, command_plan, command_text, input_choice, output_choice, stage_output,
    CommandPlanModel, RedirectModel,
};
use crate::redirect::{
    apply_ops, redirection_ops, target_fd, FdObject, FdOpView, IOSelect, RedirectionMode,
    RedirectionView,
};
use crate::syntax::{fd_before, token_after};
use crate::text::{
    in_class, is_digit, is_ws, last_token, lemma_find_from, lemma_prefix_while_at,
    lemma_suffix_while_at, matches_at, find_from, prefix_while, split2, suffix_while, tokens, trim,
    Class,
};

verus! {

/// Text with no `<` and no `>`.
pub open spec fn no_redirect(a: Seq<char>) -> bool {
    forall|j: int| 0 <= j < a.len() ==> #[trigger] a[j] != '<' && a[j] != '>'
}

/// A non-empty word with no whitespace, `<` or `>`: a file name as typed.
pub open spec fn plain_word(f: Seq<char>) -> bool {
    &&& f.len() > 0
    &&& forall|j: int| 0 <= j < f.len() ==> !is_ws(#[trigger] f[j]) && f[j] != '<' && f[j] != '>'
}

/// Text without redirection characters, an operator made of `<` and `>`,
/// then a plain word: the operator's token is the word, and the text before
/// it is the first text.
pub proof fn lemma_token_after_shape(a: Seq<char>, op: Seq<char>, f: Seq<char>)
    requires
        no_redirect(a),
        op.len() > 0,
        forall|j: int| 0 <= j < op.len() ==> #[trigger] op[j] == '<' || op[j] == '>',
        plain_word(f),
    ensures
        token_after(a + op + f, op) == (a, Some(f)),
        split2(a + op + f, op) == (a, Some(f)),
{
    let s = a + op + f;
    let k0 = a.len() as int;
    let j = k0 + op.len();
    assert(s.subrange(k0, j) =~= op);
    assert(matches_at(s, op, k0));
    lemma_find_from(s, op, 0);
    match find_from(s, op, 0) {
        Some(k) => {
            if k < k0 {
                assert(s.subrange(k, k + op.len())[0] == s[k]);
                assert(s[k] == a[k]);
            }
        },
        None => {},
    }
    assert(find_from(s, op, 0) == Some(k0));
    lemma_find_from(s, op, j);
    match find_from(s, op, j) {
        Some(k) => {
            assert(s.subrange(k, k + op.len())[0] == s[k]);
            assert(s[k] == f[k - j]);
        },
        None => {},
    }
    assert(s.take(k0) =~= a);
    assert(s.skip(j) =~= f);
    assert forall|i: int| 0 <= i < f.len() implies !in_class(#[trigger] f[i], Class::Ws) && in_class(
        f[i],
        Class::NotStop,
    ) by {
        assert(!is_ws(f[i]));
        if f[i] == ' ' {
            assert(is_ws(f[i]));
        }
    }
    lemma_prefix_while_at(f, Class::Ws, 0);
    assert(f.skip(0) =~= f);
    lemma_suffix_while_at(f, Class::Ws, 0);
    assert(f.take(f.len() as int) =~= f);
    assert(trim(f) == f);
    lemma_prefix_while_at(f, Class::NotStop, f.len() as int);
}


/// The only `<` of a line is not followed by another, so `<<` does not occur.
proof fn lemma_no_heredoc(a: Seq<char>, f: Seq<char>)
    requires
        no_redirect(a),
        plain_word(f),
    ensures
        token_after(a + "<"@ + f, "<<"@).1 is None,
{
    reveal_strlit("<");
    reveal_strlit("<<");
    let s = a + "<"@ + f;
    assert forall|i: int| !matches_at(s, "<<"@, i) by {
        if matches_at(s, "<<"@, i) {
            assert(s.subrange(i, i + 2)[0] == s[i]);
            assert(s.subrange(i, i + 2)[1] == s[i + 1]);
            if i < a.len() {
                assert(s[i] == a[i]);
            } else if i == a.len() {
                assert(s[i + 1] == f[0]);
            } else {
                assert(s[i] == f[i - a.len() - 1]);
            }
        }
    }
    law_token_after(s, "<<"@);
}

/// A command whose input redirection names its descriptor, as in
/// `grep char 0< file.txt`, reads that descriptor from the file, and the
/// descriptor's number is not one of the words it runs: the program and its
/// arguments are the words before it.
pub proof fn law_named_input_strips_descriptor(t: Seq<char>, n: nat, f: Seq<char>)
    requires
        no_redirect(t),
        t.len() == 0 || !in_class(t.last(), Class::SpaceOrDigit),
        n <= 2147483647,
        plain_word(f),
    ensures
        command_plan(t + seq![' '] + decimal(n) + "<"@ + f) == Ok::<CommandPlanModel, crate::plan::PlanError>(
            CommandPlanModel {
                output: None,
                input: Some(
                    RedirectModel::Apply(
                        IOSelect::in_fd(n as i32),
                        RedirectionView::file(f, RedirectionMode::read),
                    ),
                ),
                words: tokens(t),
            },
        ),
{
    reveal_strlit("<");
    let d = decimal(n);
    crate::laws::lemma_decimal_value(n);
    law_decimal_fd(n);
    let r = seq![' '] + d;
    let a = t + r;
    let cmd = t + seq![' '] + decimal(n) + "<"@ + f;
    assert(cmd =~= a + "<"@ + f);
    assert forall|j: int| 0 <= j < d.len() implies is_digit(#[trigger] d[j]) && !is_ws(d[j]) by {
        assert(is_digit(d[j]));
    }
    assert(no_redirect(a)) by {
        assert forall|j: int| 0 <= j < a.len() implies #[trigger] a[j] != '<' && a[j] != '>' by {
            if j >= t.len() + 1 {
                assert(a[j] == d[j - t.len() - 1]);
                assert(is_digit(d[j - t.len() - 1]));
            }
        }
    }
    lemma_token_after_shape(a, "<"@, f);
    lemma_no_heredoc(a, f);
    assert(no_redirect(cmd) || true);
    assert forall|j: int| 0 <= j < cmd.len() implies #[trigger] cmd[j] != '>' by {
        if j < a.len() {
            assert(cmd[j] == a[j]);
        } else if j > a.len() {
            assert(cmd[j] == f[j - a.len() - 1]);
        }
    }
    lemma_no_redirect_tokens(cmd);
    assert(output_choice(cmd) == Ok::<(Option<RedirectModel>, bool), crate::plan::PlanError>((None, false)));
    // the descriptor word
    assert forall|j: int| 1 <= j < 1 + d.len() implies !is_ws(#[trigger] r[j]) by {
        assert(r[j] == d[j - 1]);
    }
    lemma_last_token_single(r, 1, d.len() as int);
    assert(r.subrange(1, (1 + d.len()) as int) =~= d);
    lemma_last_token_concat(t, r);
    assert(last_token(a) == Some(d));
    assert(fd_before(cmd, "<"@) == Some(n as i32));
    assert(input_choice(cmd) == (
        Some(
            RedirectModel::Apply(
                IOSelect::in_fd(n as i32),
                RedirectionView::file(f, RedirectionMode::read),
            ),
        ),
        true,
    ));
    // the words
    assert forall|j: int| 0 <= j < a.len() implies in_class(#[trigger] cmd[j], Class::NotRedirect) by {
        assert(cmd[j] == a[j]);
    }
    assert(cmd[a.len() as int] == '<');
    lemma_prefix_while_at(cmd, Class::NotRedirect, a.len() as int);
    assert(cmd.take(a.len() as int) =~= a);
    let m = 1 + d.len();
    assert forall|j: int| a.len() - m <= j < a.len() implies in_class(#[trigger] a[j], Class::SpaceOrDigit) by {
        if j > t.len() {
            assert(a[j] == d[j - t.len() - 1]);
        }
    }
    if t.len() > 0 {
        assert(a[a.len() - m - 1] == t.last());
    }
    lemma_suffix_while_at(a, Class::SpaceOrDigit, m as int);
    assert(a.take(a.len() - m) =~= t);
    assert(command_text(cmd, true) == t);
}

/// A file redirection opens the file in the mode it was given: afterwards
/// the redirected descriptor refers to that file, opened in that mode, and
/// no other descriptor changes.
pub proof fn law_file_redirection_table(
    t: Map<i32, FdObject>,
    sel: IOSelect,
    path: Seq<char>,
    mode: RedirectionMode,
)
    ensures
        apply_ops(t, redirection_ops(sel, RedirectionView::file(path, mode))) == Some(
            t.insert(target_fd(sel), FdObject::File(path, mode)),
        ),
{
    let ops = redirection_ops(sel, RedirectionView::file(path, mode));
    assert(ops.drop_first() =~= Seq::<FdOpView>::empty());
    lemma_apply_ops_cons(t, ops);
    let t1 = t.insert(target_fd(sel), FdObject::File(path, mode));
    assert(apply_ops(t1, ops.drop_first()) == Some(t1));
}

/// `cmd >> f` appends to `f`: the command's standard output is the file
/// opened in append mode, it has no input redirection, and it runs the
/// words before `>>`.
pub proof fn law_append_command(a: Seq<char>, f: Seq<char>, t: Map<i32, FdObject>)
    requires
        no_redirect(a),
        plain_word(f),
    ensures
        command_plan(a + ">>"@ + f) == Ok::<CommandPlanModel, crate::plan::PlanError>(
            CommandPlanModel {
                output: Some(
                    RedirectModel::Apply(
                        IOSelect::Output,
                        RedirectionView::file(f, RedirectionMode::append),
                    ),
                ),
                input: None,
                words: tokens(a),
            },
        ),
        apply_ops(t, redirection_ops(IOSelect::Output, RedirectionView::file(f, RedirectionMode::append)))
            == Some(t.insert(1, FdObject::File(f, RedirectionMode::append))),
{
    reveal_strlit(">>");
    let cmd = a + ">>"@ + f;
    lemma_token_after_shape(a, ">>"@, f);
    assert forall|j: int| 0 <= j < cmd.len() implies #[trigger] cmd[j] != '<' by {
        if j < a.len() {
            assert(cmd[j] == a[j]);
        } else if j >= a.len() + 2 {
            assert(cmd[j] == f[j - a.len() - 2]);
        }
    }
    lemma_no_redirect_tokens(cmd);
    assert forall|j: int| 0 <= j < a.len() implies in_class(#[trigger] cmd[j], Class::NotRedirect) by {
        assert(cmd[j] == a[j]);
    }
    assert(cmd[a.len() as int] == '>');
    lemma_prefix_while_at(cmd, Class::NotRedirect, a.len() as int);
    assert(cmd.take(a.len() as int) =~= a);
    assert(command_text(cmd, false) == a);
    law_file_redirection_table(t, IOSelect::Output, f, RedirectionMode::append);
}

/// A stage of a pipeline with `>> f` appends to `f` wherever it stands,
/// the last stage included: its output is `f` in append mode, and its
/// child's standard output refers to `f` opened for appending.
pub proof fn law_stage_append_any_position(
    cmd: Seq<char>,
    f: Seq<char>,
    index: int,
    count: int,
    pipefd: (i32, i32),
    t: Map<i32, FdObject>,
)
    requires
        token_after(cmd, ">>"@).1 == Some(f),
        0 <= index < count,
    ensures
        stage_output(cmd, index, count, pipefd) == RedirectionView::file(f, RedirectionMode::append),
        apply_ops(t, redirection_ops(IOSelect::Output, stage_output(cmd, index, count, pipefd)))
            == Some(t.insert(1, FdObject::File(f, RedirectionMode::append))),
{
    law_file_redirection_table(t, IOSelect::Output, f, RedirectionMode::append);
}

/// `w1 .. wk >> f`, as a stage of a pipeline at any position, appends to
/// `f`.
pub proof fn law_stage_append_shape(
    a: Seq<char>,
    f: Seq<char>,
    index: int,
    count: int,
    pipefd: (i32, i32),
)
    requires
        no_redirect(a),
        plain_word(f),
        0 <= index < count,
    ensures
        stage_output(a + ">>"@ + f, index, count, pipefd) == RedirectionView::file(
            f,
            RedirectionMode::append,
        ),
{
    reveal_strlit(">>");
    lemma_token_after_shape(a, ">>"@, f);
}

/// The program name alone decides which built-in a command is: `exit` and
/// `pwd` are built in whatever their arguments, and are never refused; `cd`
/// with a directory changes to its first argument.
pub proof fn law_builtin_by_name(args: Seq<Seq<char>>)
    ensures
        builtin("exit"@, args) == Some(BuiltinModel::Exit),
        refusal("exit"@, args) is None,
        builtin("pwd"@, args) == Some(BuiltinModel::Pwd),
        refusal("pwd"@, args) is None,
        args.len() > 0 ==> builtin("cd"@, args) == Some(BuiltinModel::Cd(args[0])) && refusal(
            "cd"@,
            args,
        ) is None,
{
    reveal_strlit("exit");
    reveal_strlit("pwd");
    reveal_strlit("cd");
    reveal_strlit("export");
    assert("exit"@.len() == 4 && "cd"@.len() == 2 && "pwd"@.len() == 3 && "export"@.len() == 6);
    assert("exit"@ != "cd"@ && "exit"@ != "pwd"@ && "exit"@ != "export"@);
    assert("pwd"@ != "cd"@);
}

/// In the pipe-only shell, every stage but the first reads what the stage
/// before it left: its child's operations end by moving `read_fd` onto
/// standard input, and for the last stage that is all they do. From a
/// table where `read_fd` is open (and is not standard input), the last
/// stage's child ends with standard input referring to what `read_fd`
/// referred to, and `read_fd` closed.
pub proof fn law_basic_stage_reads_previous(
    index: int,
    count: int,
    pipefd: (i32, i32),
    read_fd: i32,
    t: Map<i32, FdObject>,
)
    requires
        0 < index < count,
    ensures
        ({
            let ops = basic_child_ops(index, count, pipefd, read_fd);
            &&& ops.len() >= 2
            &&& ops[ops.len() - 2] == FdOpView::Dup2(read_fd, 0)
            &&& ops[ops.len() - 1] == FdOpView::Close(read_fd)
        }),
        index == count - 1 ==> basic_child_ops(index, count, pipefd, read_fd) == seq![
            FdOpView::Dup2(read_fd, 0),
            FdOpView::Close(read_fd),
        ],
        (index == count - 1 && t.dom().contains(read_fd) && read_fd != 0) ==> apply_ops(
            t,
            basic_child_ops(index, count, pipefd, read_fd),
        ) == Some(t.insert(0, t[read_fd]).remove(read_fd)),
{
    let ops = basic_child_ops(index, count, pipefd, read_fd);
    if index == count - 1 {
        assert(ops =~= seq![FdOpView::Dup2(read_fd, 0), FdOpView::Close(read_fd)]);
        if t.dom().contains(read_fd) && read_fd != 0 {
            law_move_closes_source(t, IOSelect::Input, read_fd);
            assert(redirection_ops(IOSelect::Input, RedirectionView::fd(read_fd)) == ops);
        }
    }
}

} // verus!
