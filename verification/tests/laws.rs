use shell::builtin::{builtin_refusal, export_assignments, Refusal};
use shell::plan::{command_words, plan_command, plan_stage, CommandPlan};
use shell::redirect::{redirection_plan, FdOp, IORedirection, IOSelect};
use shell::syntax::{get_fd_before, get_token_after, tcp_address_of};
use shell::text::{parse_i32_str, split_on, split_tokens};

#[test]
fn words_hold_no_redirection_or_space() {
    for line in ["a<b>c d", " x 1>&2 y", "cat<<E", "p q\tr > s < t"] {
        for named in [false, true] {
            for w in command_words(line, named) {
                assert!(!w.is_empty());
                assert!(!w.contains('<') && !w.contains('>'));
                assert!(!w.chars().any(char::is_whitespace));
            }
        }
    }
}

#[test]
fn token_found_iff_delimiter_occurs() {
    for (s, d) in [("ls > f", ">"), ("ls", ">"), ("a>>b", ">>"), ("a>b>c", ">>"), ("x<y", "<")] {
        let (before, tok) = get_token_after(s, d);
        assert_eq!(tok.is_some(), s.contains(d));
        if tok.is_some() {
            assert!(s.starts_with(&format!("{}{}", before, d)));
            assert!(!before.contains(d));
        } else {
            assert_eq!(before, s);
        }
    }
}

#[test]
fn neighbouring_stages_share_a_pipe() {
    let writer = plan_stage("ls -l ", 0, 2, (3, 4), (0, 0));
    let reader = plan_stage(" wc", 1, 2, (0, 1), (3, 4));
    assert_eq!(writer.output, IORedirection::pipe(3, 4));
    assert_eq!(reader.input, IORedirection::fd(3));
    assert_eq!(writer.parent_ops, vec![FdOp::Close(4)]);
    assert_eq!(
        redirection_plan(IOSelect::Output, writer.output),
        vec![FdOp::Close(3), FdOp::Dup2(4, 1), FdOp::Close(4)]
    );
    assert_eq!(
        redirection_plan(IOSelect::Input, reader.input),
        vec![FdOp::Dup2(3, 0), FdOp::Close(3)]
    );
    assert_eq!(writer.input, IORedirection::default);
    assert_eq!(reader.output, IORedirection::default);
}

#[test]
fn command_without_redirections_runs_as_written() {
    let line = "grep -n  foo\tbar.txt";
    assert_eq!(
        plan_command(line),
        Ok(CommandPlan { output: None, input: None, words: split_tokens(line) })
    );
}

#[test]
fn tcp_path_names_its_address() {
    for (host, port) in [("127.0.0.1", "8888"), ("", ""), ("h:x", "p q")] {
        let path = format!("/dev/tcp/{}/{}", host, port);
        assert_eq!(tcp_address_of(&path), Some(format!("{}:{}", host, port)));
    }
}

#[test]
fn export_makes_one_assignment_per_argument() {
    let args: Vec<String> = ["a=1", "b=", "=c", "d=e=f"].iter().map(|s| s.to_string()).collect();
    assert_eq!(builtin_refusal("export", &args), None);
    let vars = export_assignments(&args);
    assert_eq!(vars.len(), args.len());
    for (arg, (name, value)) in args.iter().zip(vars.iter()) {
        let pieces = split_on(arg, '=');
        assert_eq!(name, &pieces[0]);
        assert_eq!(value, &pieces[1]);
        assert!(!name.contains('='));
        assert!(arg.starts_with(&format!("{}={}", name, value)));
    }
    let refused: Vec<String> = ["a=1", "b", "c"].iter().map(|s| s.to_string()).collect();
    assert_eq!(builtin_refusal("export", &refused), Some(Refusal::NoValue(1)));
}

#[test]
fn decimal_descriptors_read_back() {
    for n in [0i32, 2, 10, 255, 65536, i32::MAX] {
        assert_eq!(parse_i32_str(&n.to_string()), Some(n));
        assert_eq!(parse_i32_str(&format!("-{}", n)), Some(-n));
        assert_eq!(get_fd_before(&format!("cmd {}> file", n), ">"), Some(n));
        assert_eq!(get_fd_before(&format!("cmd {}", n), ">"), None);
    }
}

#[test]
fn duplicating_a_descriptor_keeps_it_open() {
    let plan = plan_command("grep char 0< file.txt 1>&2").unwrap();
    match plan.output {
        Some(shell::plan::Redirect::Apply(sel, target)) => {
            assert_eq!(redirection_plan(sel, target), vec![FdOp::Dup2(2, 1)]);
        }
        other => panic!("unexpected {:?}", other),
    }
}

#[test]
fn split_rejoins() {
    let line = "ls --help | grep and | wc > res.txt";
    assert_eq!(split_on(line, '|').join("|"), line);
}
