//! What the shell does with one command line: the redirections of a lone
//! command (with `>>`, `>&`, `>`, `<<` and `<`), the pipes and redirections of
//! each stage of a pipeline, and the words that name the program and its
//! arguments.

use vstd::prelude::*;
use vstd::string::*;
use crate::redirect::{
    ops_view, redirection_ops, redirection_plan, FdOp, FdOpView, IORedirection, IOSelect,
    RedirectionMode, RedirectionView,
};
use crate::syntax::{
    fd_before, get_fd_before, get_token_after, tcp_address, tcp_address_of, token_after,
};
use crate::text::{
    chars_of, count_prefix, count_suffix, parse_i32, parse_i32_str, prefix_while, split_tokens,
    substring, suffix_while, tokens, views, Class,
};

verus! {

/// One redirection of a lone command.
#[derive(Debug, PartialEq, Eq)]
pub enum Redirect {
    /// carry out `redirection_plan` of the two
    Apply(IOSelect, IORedirection),
    /// connect to the `host:port` address and put the connection on the
    /// selected standard stream
    Tcp(IOSelect, String),
    /// read lines up to the delimiter into a temporary file, then read
    /// standard input from it
    HereDoc(String),
}

/// The model of a `Redirect`.
pub enum RedirectModel {
    Apply(IOSelect, RedirectionView),
    Tcp(IOSelect, Seq<char>),
    HereDoc(Seq<char>),
}

impl View for Redirect {
    type V = RedirectModel;

    open spec fn view(&self) -> RedirectModel {
        match self {
            Redirect::Apply(s, r) => RedirectModel::Apply(*s, r@),
            Redirect::Tcp(s, a) => RedirectModel::Tcp(*s, a@),
            Redirect::HereDoc(d) => RedirectModel::HereDoc(d@),
        }
    }
}

pub open spec fn opt_redirect_view(r: Option<Redirect>) -> Option<RedirectModel> {
    match r {
        Some(x) => Some(x@),
        None => None,
    }
}

/// The plan for a command line without a pipe: the output redirection, then
/// the input redirection, then the program and its arguments.
#[derive(Debug, PartialEq, Eq)]
pub struct CommandPlan {
    pub output: Option<Redirect>,
    pub input: Option<Redirect>,
    pub words: Vec<String>,
}

/// The model of a `CommandPlan`.
pub struct CommandPlanModel {
    pub output: Option<RedirectModel>,
    pub input: Option<RedirectModel>,
    pub words: Seq<Seq<char>>,
}

impl View for CommandPlan {
    type V = CommandPlanModel;

    open spec fn view(&self) -> CommandPlanModel {
        CommandPlanModel {
            output: opt_redirect_view(self.output),
            input: opt_redirect_view(self.input),
            words: views(self.words@),
        }
    }
}

/// Why a command line cannot be planned.
#[derive(Clone, Copy, Debug, PartialEq, Eq)]
pub enum PlanError {
    /// the word after `>&` is not a file descriptor
    InvalidFd,
}

/// The output redirection of a lone command, and whether it names the
/// descriptor it redirects (`2> file`, `1>&2`). `>>` wins over `>&`, which
/// wins over `>`; a `>` to a `/dev/tcp/host/port` path with no descriptor
/// before it connects to that address.
pub open spec fn output_choice(cmd: Seq<char>) -> Result<(Option<RedirectModel>, bool), PlanError> {
    match token_after(cmd, ">>"@).1 {
        Some(file) => Ok(
            (
                Some(
                    RedirectModel::Apply(
                        IOSelect::Output,
                        RedirectionView::file(file, RedirectionMode::append),
                    ),
                ),
                false,
            ),
        ),
        None => match token_after(cmd, ">&"@).1 {
            Some(word) => match parse_i32(word) {
                None => Err(PlanError::InvalidFd),
                Some(fd) => match fd_before(cmd, ">&"@) {
                    None => Ok(
                        (Some(RedirectModel::Apply(IOSelect::Output, RedirectionView::dup(fd))), false),
                    ),
                    Some(src) => Ok(
                        (
                            Some(RedirectModel::Apply(IOSelect::out_fd(src), RedirectionView::dup(fd))),
                            true,
                        ),
                    ),
                },
            },
            None => match token_after(cmd, ">"@).1 {
                Some(file) => match fd_before(cmd, ">"@) {
                    None => Ok(
                        (
                            Some(
                                match tcp_address(file) {
                                    Some(address) => RedirectModel::Tcp(IOSelect::Output, address),
                                    None => RedirectModel::Apply(
                                        IOSelect::Output,
                                        RedirectionView::file(file, RedirectionMode::write),
                                    ),
                                },
                            ),
                            false,
                        ),
                    ),
                    Some(fd) => Ok(
                        (
                            Some(
                                RedirectModel::Apply(
                                    IOSelect::out_fd(fd),
                                    RedirectionView::file(file, RedirectionMode::write),
                                ),
                            ),
                            true,
                        ),
                    ),
                },
                None => Ok((None, false)),
            },
        },
    }
}

/// The input redirection of a lone command, and whether it names the
/// descriptor it redirects. `<<` (a here-document) wins over `<`; a `<`
/// from a `/dev/tcp/host/port` path with no descriptor before it connects to
/// that address.
pub open spec fn input_choice(cmd: Seq<char>) -> (Option<RedirectModel>, bool) {
    match token_after(cmd, "<<"@).1 {
        Some(delimiter) => (Some(RedirectModel::HereDoc(delimiter)), false),
        None => match token_after(cmd, "<"@).1 {
            Some(file) => match fd_before(cmd, "<"@) {
                None => (
                    Some(
                        match tcp_address(file) {
                            Some(address) => RedirectModel::Tcp(IOSelect::Input, address),
                            None => RedirectModel::Apply(
                                IOSelect::Input,
                                RedirectionView::file(file, RedirectionMode::read),
                            ),
                        },
                    ),
                    false,
                ),
                Some(fd) => (
                    Some(
                        RedirectModel::Apply(
                            IOSelect::in_fd(fd),
                            RedirectionView::file(file, RedirectionMode::read),
                        ),
                    ),
                    true,
                ),
            },
            None => (None, false),
        },
    }
}

/// The text of a command before its first `>` or `<`; when a redirection
/// names its descriptor, without the spaces and digits that end it.
pub open spec fn command_text(cmd: Seq<char>, fd_named: bool) -> Seq<char> {
    let c = cmd.take(prefix_while(cmd, Class::NotRedirect) as int);
    if fd_named {
        c.take(c.len() - suffix_while(c, Class::SpaceOrDigit))
    } else {
        c
    }
}

/// The plan for a command line without a pipe.
pub open spec fn command_plan(cmd: Seq<char>) -> Result<CommandPlanModel, PlanError> {
    match output_choice(cmd) {
        Err(e) => Err(e),
        Ok((output, out_named)) => Ok(
            CommandPlanModel {
                output,
                input: input_choice(cmd).0,
                words: tokens(command_text(cmd, out_named || input_choice(cmd).1)),
            },
        ),
    }
}

/// The words of `command_text`.
pub fn command_words(cmd: &str, fd_named: bool) -> (r: Vec<String>)
    ensures
        views(r@) == tokens(command_text(cmd@, fd_named)),
{
    let v = chars_of(cmd);
    let n = count_prefix(&v, 0, v.len(), Class::NotRedirect);
    assert(v@.subrange(0, v@.len() as int) =~= cmd@);
    let mut end = n;
    if fd_named {
        let m = count_suffix(&v, 0, n, Class::SpaceOrDigit);
        end = n - m;
    }
    let text = substring(cmd, 0, end);
    assert(text@ =~= command_text(cmd@, fd_named));
    split_tokens(text.as_str())
}

/// The output redirection of a lone command (`output_choice`).
fn plan_output(cmd: &str) -> (r: Result<(Option<Redirect>, bool), PlanError>)
    ensures
        match r {
            Ok((o, named)) => output_choice(cmd@) == Ok::<(Option<RedirectModel>, bool), PlanError>((opt_redirect_view(o), named)),
            Err(e) => output_choice(cmd@) == Err::<(Option<RedirectModel>, bool), PlanError>(e),
        },
{
    if let (_, Some(file)) = get_token_after(cmd, ">>") {
        return Ok((Some(Redirect::Apply(IOSelect::Output, IORedirection::file(file, RedirectionMode::append))), false));
    }
    if let (_, Some(word)) = get_token_after(cmd, ">&") {
        let fd = match parse_i32_str(word.as_str()) {
            None => return Err(PlanError::InvalidFd),
            Some(fd) => fd,
        };
        return match get_fd_before(cmd, ">&") {
            None => Ok((Some(Redirect::Apply(IOSelect::Output, IORedirection::dup(fd))), false)),
            Some(src) => Ok((Some(Redirect::Apply(IOSelect::out_fd(src), IORedirection::dup(fd))), true)),
        };
    }
    if let (_, Some(file)) = get_token_after(cmd, ">") {
        return match get_fd_before(cmd, ">") {
            None => match tcp_address_of(file.as_str()) {
                Some(address) => Ok((Some(Redirect::Tcp(IOSelect::Output, address)), false)),
                None => Ok((Some(Redirect::Apply(IOSelect::Output, IORedirection::file(file, RedirectionMode::write))), false)),
            },
            Some(fd) => Ok((Some(Redirect::Apply(IOSelect::out_fd(fd), IORedirection::file(file, RedirectionMode::write))), true)),
        };
    }
    Ok((None, false))
}

/// The input redirection of a lone command (`input_choice`).
fn plan_input(cmd: &str) -> (r: (Option<Redirect>, bool))
    ensures
        (opt_redirect_view(r.0), r.1) == input_choice(cmd@),
{
    if let (_, Some(delimiter)) = get_token_after(cmd, "<<") {
        return (Some(Redirect::HereDoc(delimiter)), false);
    }
    if let (_, Some(file)) = get_token_after(cmd, "<") {
        return match get_fd_before(cmd, "<") {
            None => match tcp_address_of(file.as_str()) {
                Some(address) => (Some(Redirect::Tcp(IOSelect::Input, address)), false),
                None => (Some(Redirect::Apply(IOSelect::Input, IORedirection::file(file, RedirectionMode::read))), false),
            },
            Some(fd) => (Some(Redirect::Apply(IOSelect::in_fd(fd), IORedirection::file(file, RedirectionMode::read))), true),
        };
    }
    (None, false)
}

/// Plans a command line without a pipe: which redirections to carry out,
/// and the program and arguments to run. Fails only when the word after
/// `>&` is not a file descriptor.
pub fn plan_command(cmd: &str) -> (r: Result<CommandPlan, PlanError>)
    ensures
        match r {
            Ok(p) => command_plan(cmd@) == Ok::<CommandPlanModel, PlanError>(p@),
            Err(e) => command_plan(cmd@) == Err::<CommandPlanModel, PlanError>(e),
        },
{
    let (output, out_named) = match plan_output(cmd) {
        Err(e) => return Err(e),
        Ok(x) => x,
    };
    let (input, in_named) = plan_input(cmd);
    let words = command_words(cmd, out_named || in_named);
    let plan = CommandPlan { output, input, words };
    assert(plan@ == (CommandPlanModel { output: opt_redirect_view(plan.output), input: opt_redirect_view(plan.input), words: views(plan.words@) }));
    Ok(plan)
}


/// Whether stage `index` of a pipeline of `count` commands writes into a
/// new pipe: every stage but the last does.
pub open spec fn writes_to_pipe(index: int, count: int) -> bool {
    index != count - 1
}

/// Decides `writes_to_pipe`.
pub fn stage_needs_pipe(index: usize, count: usize) -> (b: bool)
    requires
        index < count,
    ensures
        b == writes_to_pipe(index as int, count as int),
{
    index != count - 1
}

/// The output of stage `index`: the new pipe (unless it is the last stage),
/// replaced by a file after `>>` or, failing that, after `>`.
pub open spec fn stage_output(cmd: Seq<char>, index: int, count: int, pipefd: (i32, i32)) -> RedirectionView {
    match token_after(cmd, ">>"@).1 {
        Some(file) => RedirectionView::file(file, RedirectionMode::append),
        None => match token_after(cmd, ">"@).1 {
            Some(file) => RedirectionView::file(file, RedirectionMode::write),
            None => if writes_to_pipe(index, count) {
                RedirectionView::pipe(pipefd.0, pipefd.1)
            } else {
                RedirectionView::default
            },
        },
    }
}

/// The input of stage `index`: the read end of the previous stage's pipe,
/// moved onto standard input (unless it is the first stage), replaced by a
/// file after `<`. The write end is the shell's to close (`stage_parent_ops`),
/// which it has done before this stage starts.
pub open spec fn stage_input(cmd: Seq<char>, index: int, last_pipefd: (i32, i32)) -> RedirectionView {
    match token_after(cmd, "<"@).1 {
        Some(file) => RedirectionView::file(file, RedirectionMode::read),
        None => if index != 0 {
            RedirectionView::fd(last_pipefd.0)
        } else {
            RedirectionView::default
        },
    }
}

/// What the shell does for one stage of a pipeline: in the child, redirect
/// `input`, then `output`, then run `words`; in the shell itself, carry out
/// `parent_ops` once the child is started.
#[derive(Debug, PartialEq, Eq)]
pub struct StagePlan {
    pub input: IORedirection,
    pub output: IORedirection,
    pub words: Vec<String>,
    pub parent_ops: Vec<FdOp>,
}

/// The shell closes the write end of a pipe that it made once the stage that
/// writes into it is started.
pub open spec fn stage_parent_ops(index: int, count: int, pipefd: (i32, i32)) -> Seq<FdOpView> {
    if writes_to_pipe(index, count) {
        seq![FdOpView::Close(pipefd.1)]
    } else {
        seq![]
    }
}

/// Plans stage `index` of a pipeline of `count` commands, given the pipe
/// made for it (`pipefd`, read end first) and the one made for the stage
/// before it (`last_pipefd`).
pub fn plan_stage(cmd: &str, index: usize, count: usize, pipefd: (i32, i32), last_pipefd: (i32, i32)) -> (r: StagePlan)
    requires
        index < count,
    ensures
        r.output@ == stage_output(cmd@, index as int, count as int, pipefd),
        r.input@ == stage_input(cmd@, index as int, last_pipefd),
        views(r.words@) == tokens(command_text(cmd@, false)),
        ops_view(r.parent_ops@) == stage_parent_ops(index as int, count as int, pipefd),
{
    let to_pipe = stage_needs_pipe(index, count);
    let mut output = if to_pipe {
        IORedirection::pipe(pipefd.0, pipefd.1)
    } else {
        IORedirection::default
    };
    let mut input = if index != 0 {
        IORedirection::fd(last_pipefd.0)
    } else {
        IORedirection::default
    };
    if let (_, Some(file)) = get_token_after(cmd, ">>") {
        output = IORedirection::file(file, RedirectionMode::append);
    } else if let (_, Some(file)) = get_token_after(cmd, ">") {
        output = IORedirection::file(file, RedirectionMode::write);
    }
    if let (_, Some(file)) = get_token_after(cmd, "<") {
        input = IORedirection::file(file, RedirectionMode::read);
    }
    let words = command_words(cmd, false);
    let parent_ops = if to_pipe {
        vec![FdOp::Close(pipefd.1)]
    } else {
        Vec::new()
    };
    assert(ops_view(parent_ops@) =~= stage_parent_ops(index as int, count as int, pipefd));
    StagePlan { input, output, words, parent_ops }
}


/// Whether the pipe-only shell makes a pipe for stage `index`: it does
/// unless `index` is one less than the length in bytes of the stage's own
/// text.
pub fn basic_needs_pipe(cmd: &str, index: usize) -> (b: bool)
    requires
        cmd.len() > 0,
    ensures
        b == (index != cmd.len() - 1),
{
    index != cmd.len() - 1
}

/// What the pipe-only shell does for one stage of a pipeline: in the child,
/// carry out `child_ops`; in the shell, carry out `parent_ops` and read the
/// next stage's input from `next_read_fd`.
#[derive(Debug, PartialEq, Eq)]
pub struct BasicStagePlan {
    pub child_ops: Vec<FdOp>,
    pub parent_ops: Vec<FdOp>,
    pub next_read_fd: i32,
}

/// The child of a stage that is not the last writes into the pipe
/// `pipefd`; the child of a stage that is not the first reads `read_fd`.
pub open spec fn basic_child_ops(index: int, count: int, pipefd: (i32, i32), read_fd: i32) -> Seq<FdOpView> {
    (if index != count - 1 {
        redirection_ops(IOSelect::Output, RedirectionView::pipe(pipefd.0, pipefd.1))
    } else {
        seq![]
    }) + (if index != 0 {
        redirection_ops(IOSelect::Input, RedirectionView::fd(read_fd))
    } else {
        seq![]
    })
}

/// Plans stage `index` of a pipeline of `count` commands in the pipe-only
/// shell, given the descriptors `pipefd` made for it (or `(0, 1)` when none
/// was made) and the descriptor `read_fd` that the previous stage left to
/// read. The shell closes `pipefd.1` after every stage.
pub fn plan_basic_stage(index: usize, count: usize, pipefd: (i32, i32), read_fd: i32) -> (r: BasicStagePlan)
    requires
        index < count,
    ensures
        ops_view(r.child_ops@) == basic_child_ops(index as int, count as int, pipefd, read_fd),
        ops_view(r.parent_ops@) == seq![FdOpView::Close(pipefd.1)],
        r.next_read_fd == pipefd.0,
{
    let mut child_ops: Vec<FdOp> = Vec::new();
    if index != count - 1 {
        child_ops = redirection_plan(IOSelect::Output, IORedirection::pipe(pipefd.0, pipefd.1));
    }
    let ghost first = child_ops@;
    if index != 0 {
        let mut more = redirection_plan(IOSelect::Input, IORedirection::fd(read_fd));
        child_ops.append(&mut more);
        proof {
            assert(ops_view(child_ops@) =~= ops_view(first) + redirection_ops(IOSelect::Input, RedirectionView::fd(read_fd)));
        }
    }
    assert(ops_view(child_ops@) =~= basic_child_ops(index as int, count as int, pipefd, read_fd));
    let parent_ops = vec![FdOp::Close(pipefd.1)];
    assert(ops_view(parent_ops@) =~= seq![FdOpView::Close(pipefd.1)]);
    BasicStagePlan { child_ops, parent_ops, next_read_fd: pipefd.0 }
}

} // verus!
