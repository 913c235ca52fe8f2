//! The shell's interaction with its terminal: prompts, what a read of a line
//! means, here-document lines, and what an interrupt does.

use vstd::prelude::*;
use vstd::string::*;
use crate::text::same_text;

verus! {

/// The prompt shown before each command: the working directory, then ` $ `.
pub fn prompt(cwd: &str) -> (r: String)
    ensures
        r@ == cwd@ + " $ "@,
{
    let mut p = cwd.to_owned();
    p.append(" $ ");
    p
}

/// The prompt shown after an interrupt: a line break, then `prompt`.
pub fn interrupt_prompt(cwd: &str) -> (r: String)
    ensures
        r@ == "\n"@ + cwd@ + " $ "@,
{
    let mut p = "\n".to_owned();
    p.append(cwd);
    p.append(" $ ");
    p
}

/// The prompt of the pipe-only shell: the working directory, then `$ `.
pub fn basic_prompt(cwd: &str) -> (r: String)
    ensures
        r@ == cwd@ + "$ "@,
{
    let mut p = cwd.to_owned();
    p.append("$ ");
    p
}

/// What the shell does on an interrupt (ctrl+C).
#[derive(Clone, Copy, Debug, PartialEq, Eq)]
pub enum SigintAction {
    /// a child process ends
    Exit,
    /// the shell itself shows its prompt again
    Reprompt,
}

/// A process other than the shell exits on an interrupt; the shell, whose
/// process id is `main_pid`, prompts again.
pub fn sigint_action(pid: i32, main_pid: i32) -> (r: SigintAction)
    ensures
        r == (if pid != main_pid {
            SigintAction::Exit
        } else {
            SigintAction::Reprompt
        }),
{
    if pid != main_pid {
        SigintAction::Exit
    } else {
        SigintAction::Reprompt
    }
}

/// What one read of a command line gave.
#[derive(Debug, PartialEq, Eq)]
pub enum LineRead {
    /// nothing: the input has ended
    End,
    /// a single byte, which the shell skips
    Skip,
    /// a command line: the bytes read, without the last one
    Line(Vec<u8>),
}

/// Classifies the bytes that one read up to a line feed gave.
pub fn classify_read(buf: Vec<u8>) -> (r: LineRead)
    ensures
        buf@.len() == 0 ==> r == LineRead::End,
        buf@.len() == 1 ==> r == LineRead::Skip,
        buf@.len() > 1 ==> (r matches LineRead::Line(line) && line@ == buf@.drop_last()),
{
    let mut buf = buf;
    if buf.len() == 0 {
        LineRead::End
    } else if buf.len() == 1 {
        LineRead::Skip
    } else {
        buf.pop();
        LineRead::Line(buf)
    }
}

/// The line of a here-document that one read gave: `None` when the input
/// has ended, else the bytes read without the last one.
pub fn heredoc_read(buf: Vec<u8>) -> (r: Option<Vec<u8>>)
    ensures
        buf@.len() == 0 ==> r is None,
        buf@.len() > 0 ==> (r matches Some(line) && line@ == buf@.drop_last()),
{
    let mut buf = buf;
    if buf.len() == 0 {
        None
    } else {
        buf.pop();
        Some(buf)
    }
}

/// What a line of a here-document adds to the document: nothing, and the
/// document ends, when it is the delimiter; else the line and a line feed.
pub fn heredoc_line(line: &str, delimiter: &str) -> (r: Option<String>)
    ensures
        line@ == delimiter@ ==> r is None,
        line@ != delimiter@ ==> (r matches Some(text) && text@ == line@ + "\n"@),
{
    if same_text(line, delimiter) {
        None
    } else {
        let mut text = line.to_owned();
        text.append("\n");
        Some(text)
    }
}

} // verus!
