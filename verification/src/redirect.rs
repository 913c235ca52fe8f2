//! IO redirections and the file-descriptor operations that carry them out.

use vstd::prelude::*;

verus! {

/// Which descriptor a redirection acts on.
#[allow(non_camel_case_types)]
#[derive(Clone, Copy, Debug, PartialEq, Eq)]
pub enum IOSelect {
    /// standard input (descriptor 0)
    Input,
    /// standard output (descriptor 1)
    Output,
    /// the given descriptor, read from a file
    in_fd(i32),
    /// the given descriptor, written to a file
    out_fd(i32),
}

/// How a redirection target file is opened.
#[allow(non_camel_case_types)]
#[derive(Clone, Copy, Debug, PartialEq, Eq)]
pub enum RedirectionMode {
    /// created if missing, written at its end
    append,
    /// created if missing, emptied, then written
    write,
    /// read
    read,
}

/// Where a redirected descriptor is connected to.
#[allow(non_camel_case_types)]
#[derive(Clone, Debug, PartialEq, Eq)]
pub enum IORedirection {
    /// an end of the pipe whose read end and write end are given
    pipe(i32, i32),
    /// a file, opened in the given mode
    file(String, RedirectionMode),
    /// another descriptor, moved: it is closed once duplicated (how a stage
    /// of a pipeline takes the read end of the pipe that the stage before
    /// it writes into)
    fd(i32),
    /// another descriptor, duplicated and left open (`n>&m`)
    dup(i32),
    /// no redirection
    default,
}

/// The model of an `IORedirection`, with the file name as characters.
#[allow(non_camel_case_types)]
pub enum RedirectionView {
    pipe(i32, i32),
    file(Seq<char>, RedirectionMode),
    fd(i32),
    dup(i32),
    default,
}

impl View for IORedirection {
    type V = RedirectionView;

    open spec fn view(&self) -> RedirectionView {
        match self {
            IORedirection::pipe(r, w) => RedirectionView::pipe(*r, *w),
            IORedirection::file(f, m) => RedirectionView::file(f@, *m),
            IORedirection::fd(d) => RedirectionView::fd(*d),
            IORedirection::dup(d) => RedirectionView::dup(*d),
            IORedirection::default => RedirectionView::default,
        }
    }
}

/// One file-descriptor operation.
#[derive(Clone, Debug, PartialEq, Eq)]
pub enum FdOp {
    /// `close(fd)`
    Close(i32),
    /// `dup2(old, new)`
    Dup2(i32, i32),
    /// open the file in the mode, `dup2` the new descriptor onto the given
    /// one, then close the new descriptor
    OpenDup(String, RedirectionMode, i32),
}

/// The model of an `FdOp`.
pub enum FdOpView {
    Close(i32),
    Dup2(i32, i32),
    OpenDup(Seq<char>, RedirectionMode, i32),
}

impl View for FdOp {
    type V = FdOpView;

    open spec fn view(&self) -> FdOpView {
        match self {
            FdOp::Close(d) => FdOpView::Close(*d),
            FdOp::Dup2(a, b) => FdOpView::Dup2(*a, *b),
            FdOp::OpenDup(f, m, d) => FdOpView::OpenDup(f@, *m, *d),
        }
    }
}

/// The views of a sequence of operations.
pub open spec fn ops_view(ops: Seq<FdOp>) -> Seq<FdOpView> {
    ops.map_values(|o: FdOp| o@)
}

/// The descriptor that a file or descriptor redirection replaces.
pub open spec fn target_fd(sel: IOSelect) -> i32 {
    match sel {
        IOSelect::Input => 0,
        IOSelect::Output => 1,
        IOSelect::in_fd(fd) => fd,
        IOSelect::out_fd(fd) => fd,
    }
}

/// The operations that redirect `sel` to `r`. A pipe closes its unused end,
/// puts the other on standard input or output and closes that end too; a
/// pipe does nothing to a numbered descriptor. A file is opened and put on
/// the target descriptor. A moved descriptor is duplicated onto the target
/// and closed; a duplicated one is only duplicated onto the target.
pub open spec fn redirection_ops(sel: IOSelect, r: RedirectionView) -> Seq<FdOpView> {
    match r {
        RedirectionView::pipe(rd, wr) => match sel {
            IOSelect::Input => seq![FdOpView::Close(wr), FdOpView::Dup2(rd, 0), FdOpView::Close(rd)],
            IOSelect::Output => seq![FdOpView::Close(rd), FdOpView::Dup2(wr, 1), FdOpView::Close(wr)],
            _ => seq![],
        },
        RedirectionView::file(path, mode) => seq![FdOpView::OpenDup(path, mode, target_fd(sel))],
        RedirectionView::fd(obj) => seq![FdOpView::Dup2(obj, target_fd(sel)), FdOpView::Close(obj)],
        RedirectionView::dup(obj) => seq![FdOpView::Dup2(obj, target_fd(sel))],
        RedirectionView::default => seq![],
    }
}

/// `target_fd`.
pub fn fd_to_redirect(sel: IOSelect) -> (fd: i32)
    ensures
        fd == target_fd(sel),
{
    match sel {
        IOSelect::Input => 0,
        IOSelect::Output => 1,
        IOSelect::in_fd(fd) => fd,
        IOSelect::out_fd(fd) => fd,
    }
}

/// Plans an IO redirection between file descriptors, pipe descriptors and
/// files.
pub fn redirection_plan(io_select: IOSelect, io_redirection: IORedirection) -> (ops: Vec<FdOp>)
    ensures
        ops_view(ops@) == redirection_ops(io_select, io_redirection@),
{
    let ops = match io_redirection {
        IORedirection::pipe(rd, wr) => match io_select {
            IOSelect::Input => vec![FdOp::Close(wr), FdOp::Dup2(rd, 0), FdOp::Close(rd)],
            IOSelect::Output => vec![FdOp::Close(rd), FdOp::Dup2(wr, 1), FdOp::Close(wr)],
            _ => Vec::new(),
        },
        IORedirection::file(file, mode) => vec![FdOp::OpenDup(file, mode, fd_to_redirect(io_select))],
        IORedirection::fd(obj_fd) => vec![FdOp::Dup2(obj_fd, fd_to_redirect(io_select)), FdOp::Close(obj_fd)],
        IORedirection::dup(obj_fd) => vec![FdOp::Dup2(obj_fd, fd_to_redirect(io_select))],
        IORedirection::default => Vec::new(),
    };
    assert(ops_view(ops@) =~= redirection_ops(io_select, io_redirection@));
    ops
}


/// What a descriptor refers to: what the descriptor with the given number
/// referred to before the operations began, or a file that they opened.
pub enum FdObject {
    Start(i32),
    File(Seq<char>, RedirectionMode),
}

/// The descriptor table after one operation, or `None` when the operation
/// fails (the shell stops on a failed operation). `close` of an open
/// descriptor drops it, and fails on a closed one; `dup2` of an open
/// descriptor makes the target refer to what it refers to, and fails on a
/// closed one; opening a file onto a target makes the target refer to the
/// file and leaves no other descriptor behind (whether the file can be
/// opened is not decided here: the table is the one after it opened).
pub open spec fn apply_op(t: Map<i32, FdObject>, op: FdOpView) -> Option<Map<i32, FdObject>> {
    match op {
        FdOpView::Close(fd) => if t.dom().contains(fd) {
            Some(t.remove(fd))
        } else {
            None
        },
        FdOpView::Dup2(old, new) => if t.dom().contains(old) {
            Some(t.insert(new, t[old]))
        } else {
            None
        },
        FdOpView::OpenDup(path, mode, target) => Some(t.insert(target, FdObject::File(path, mode))),
    }
}

/// The descriptor table after the operations, in order, or `None` when one
/// of them fails.
pub open spec fn apply_ops(t: Map<i32, FdObject>, ops: Seq<FdOpView>) -> Option<Map<i32, FdObject>>
    decreases ops.len(),
{
    if ops.len() == 0 {
        Some(t)
    } else {
        match apply_op(t, ops[0]) {
            None => None,
            Some(t1) => apply_ops(t1, ops.drop_first()),
        }
    }
}

} // verus!
