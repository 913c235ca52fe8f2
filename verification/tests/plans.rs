use shell::plan::{
    basic_needs_pipe, command_words, plan_basic_stage, plan_command, plan_stage, stage_needs_pipe,
    BasicStagePlan, CommandPlan, PlanError, Redirect, StagePlan,
};
use shell::redirect::{fd_to_redirect, redirection_plan, FdOp, IORedirection, IOSelect, RedirectionMode};

fn s(x: &str) -> String {
    x.to_string()
}

fn words(ws: &[&str]) -> Vec<String> {
    ws.iter().map(|w| w.to_string()).collect()
}

#[test]
fn plain_command() {
    assert_eq!(
        plan_command("ls --help"),
        Ok(CommandPlan { output: None, input: None, words: words(&["ls", "--help"]) })
    );
}

#[test]
fn output_to_file() {
    assert_eq!(
        plan_command("wc > res.txt"),
        Ok(CommandPlan {
            output: Some(Redirect::Apply(IOSelect::Output, IORedirection::file(s("res.txt"), RedirectionMode::write))),
            input: None,
            words: words(&["wc"]),
        })
    );
}

#[test]
fn append_wins_over_write() {
    assert_eq!(
        plan_command("ls >> log"),
        Ok(CommandPlan {
            output: Some(Redirect::Apply(IOSelect::Output, IORedirection::file(s("log"), RedirectionMode::append))),
            input: None,
            words: words(&["ls"]),
        })
    );
}

#[test]
fn descriptor_redirections() {
    assert_eq!(
        plan_command("grep char 0< file.txt 1>&2"),
        Ok(CommandPlan {
            output: Some(Redirect::Apply(IOSelect::out_fd(1), IORedirection::dup(2))),
            input: Some(Redirect::Apply(IOSelect::in_fd(0), IORedirection::file(s("file.txt"), RedirectionMode::read))),
            words: words(&["grep", "char"]),
        })
    );
}

#[test]
fn file_redirections_with_descriptor() {
    assert_eq!(
        plan_command("grep char <file1.txt 1>file2.txt"),
        Ok(CommandPlan {
            output: Some(Redirect::Apply(IOSelect::out_fd(1), IORedirection::file(s("file2.txt"), RedirectionMode::write))),
            input: Some(Redirect::Apply(IOSelect::Input, IORedirection::file(s("file1.txt"), RedirectionMode::read))),
            words: words(&["grep", "char"]),
        })
    );
}

#[test]
fn here_document() {
    assert_eq!(
        plan_command("wc << delimiter"),
        Ok(CommandPlan { output: None, input: Some(Redirect::HereDoc(s("delimiter"))), words: words(&["wc"]) })
    );
}

#[test]
fn tcp_output_and_input() {
    assert_eq!(
        plan_command("ls > /dev/tcp/127.0.0.1/8887"),
        Ok(CommandPlan {
            output: Some(Redirect::Tcp(IOSelect::Output, s("127.0.0.1:8887"))),
            input: None,
            words: words(&["ls"]),
        })
    );
    assert_eq!(
        plan_command("wc < /dev/tcp/127.0.0.1/8888"),
        Ok(CommandPlan {
            output: None,
            input: Some(Redirect::Tcp(IOSelect::Input, s("127.0.0.1:8888"))),
            words: words(&["wc"]),
        })
    );
}

#[test]
fn tcp_path_with_descriptor_is_a_file() {
    assert_eq!(
        plan_command("ls 1> /dev/tcp/h/1"),
        Ok(CommandPlan {
            output: Some(Redirect::Apply(IOSelect::out_fd(1), IORedirection::file(s("/dev/tcp/h/1"), RedirectionMode::write))),
            input: None,
            words: words(&["ls"]),
        })
    );
}

#[test]
fn duplicate_onto_stdout() {
    assert_eq!(
        plan_command("ls >& 2"),
        Ok(CommandPlan {
            output: Some(Redirect::Apply(IOSelect::Output, IORedirection::dup(2))),
            input: None,
            words: words(&["ls"]),
        })
    );
}

#[test]
fn invalid_descriptor() {
    assert_eq!(plan_command("ls >&x"), Err(PlanError::InvalidFd));
    assert_eq!(plan_command("ls >&"), Err(PlanError::InvalidFd));
}

#[test]
fn named_descriptor_drops_trailing_digits() {
    assert_eq!(
        plan_command("echo 12 2> err"),
        Ok(CommandPlan {
            output: Some(Redirect::Apply(IOSelect::out_fd(2), IORedirection::file(s("err"), RedirectionMode::write))),
            input: None,
            words: words(&["echo"]),
        })
    );
}

#[test]
fn no_program() {
    assert_eq!(
        plan_command("> out"),
        Ok(CommandPlan {
            output: Some(Redirect::Apply(IOSelect::Output, IORedirection::file(s("out"), RedirectionMode::write))),
            input: None,
            words: Vec::new(),
        })
    );
}

#[test]
fn words_of_commands() {
    assert_eq!(command_words("cat a b > c", false), words(&["cat", "a", "b"]));
    assert_eq!(command_words("cat 3 2> c", true), words(&["cat"]));
    assert_eq!(command_words("<x", false), Vec::<String>::new());
}

#[test]
fn pipeline_stages() {
    let line = "ls --help | grep and | wc > res.txt";
    let cmds: Vec<String> = shell::text::split_on(line, '|');
    assert_eq!(cmds.len(), 3);
    assert!(stage_needs_pipe(0, 3) && stage_needs_pipe(1, 3) && !stage_needs_pipe(2, 3));
    assert_eq!(
        plan_stage(&cmds[0], 0, 3, (3, 4), (0, 0)),
        StagePlan {
            input: IORedirection::default,
            output: IORedirection::pipe(3, 4),
            words: words(&["ls", "--help"]),
            parent_ops: vec![FdOp::Close(4)],
        }
    );
    assert_eq!(
        plan_stage(&cmds[1], 1, 3, (5, 6), (3, 4)),
        StagePlan {
            input: IORedirection::fd(3),
            output: IORedirection::pipe(5, 6),
            words: words(&["grep", "and"]),
            parent_ops: vec![FdOp::Close(6)],
        }
    );
    assert_eq!(
        plan_stage(&cmds[2], 2, 3, (0, 1), (5, 6)),
        StagePlan {
            input: IORedirection::fd(5),
            output: IORedirection::file(s("res.txt"), RedirectionMode::write),
            words: words(&["wc"]),
            parent_ops: Vec::new(),
        }
    );
}

#[test]
fn pipeline_stage_file_redirections() {
    assert_eq!(
        plan_stage("sort < in.txt >> out.txt", 0, 2, (7, 8), (0, 0)),
        StagePlan {
            input: IORedirection::file(s("in.txt"), RedirectionMode::read),
            output: IORedirection::file(s("out.txt"), RedirectionMode::append),
            words: words(&["sort"]),
            parent_ops: vec![FdOp::Close(8)],
        }
    );
}

#[test]
fn redirection_plans() {
    assert_eq!(
        redirection_plan(IOSelect::Input, IORedirection::pipe(3, 4)),
        vec![FdOp::Close(4), FdOp::Dup2(3, 0), FdOp::Close(3)]
    );
    assert_eq!(
        redirection_plan(IOSelect::Output, IORedirection::pipe(3, 4)),
        vec![FdOp::Close(3), FdOp::Dup2(4, 1), FdOp::Close(4)]
    );
    assert_eq!(redirection_plan(IOSelect::in_fd(5), IORedirection::pipe(3, 4)), Vec::new());
    assert_eq!(
        redirection_plan(IOSelect::out_fd(2), IORedirection::file(s("f"), RedirectionMode::write)),
        vec![FdOp::OpenDup(s("f"), RedirectionMode::write, 2)]
    );
    assert_eq!(
        redirection_plan(IOSelect::Output, IORedirection::fd(2)),
        vec![FdOp::Dup2(2, 1), FdOp::Close(2)]
    );
    assert_eq!(redirection_plan(IOSelect::out_fd(1), IORedirection::dup(2)), vec![FdOp::Dup2(2, 1)]);
    assert_eq!(redirection_plan(IOSelect::Output, IORedirection::dup(5)), vec![FdOp::Dup2(5, 1)]);
    assert_eq!(redirection_plan(IOSelect::Output, IORedirection::default), Vec::new());
    assert_eq!(fd_to_redirect(IOSelect::Input), 0);
    assert_eq!(fd_to_redirect(IOSelect::Output), 1);
    assert_eq!(fd_to_redirect(IOSelect::in_fd(7)), 7);
}

#[test]
fn basic_pipeline_stages() {
    assert!(basic_needs_pipe("ls", 0));
    assert!(!basic_needs_pipe("ls", 1));
    assert!(!basic_needs_pipe("é", 1));
    assert_eq!(
        plan_basic_stage(0, 2, (3, 4), 0),
        BasicStagePlan {
            child_ops: vec![FdOp::Close(3), FdOp::Dup2(4, 1), FdOp::Close(4)],
            parent_ops: vec![FdOp::Close(4)],
            next_read_fd: 3,
        }
    );
    assert_eq!(
        plan_basic_stage(1, 2, (0, 1), 3),
        BasicStagePlan {
            child_ops: vec![FdOp::Dup2(3, 0), FdOp::Close(3)],
            parent_ops: vec![FdOp::Close(1)],
            next_read_fd: 0,
        }
    );
    assert_eq!(
        plan_basic_stage(1, 3, (5, 6), 3),
        BasicStagePlan {
            child_ops: vec![FdOp::Close(5), FdOp::Dup2(6, 1), FdOp::Close(6), FdOp::Dup2(3, 0), FdOp::Close(3)],
            parent_ops: vec![FdOp::Close(6)],
            next_read_fd: 5,
        }
    );
}
