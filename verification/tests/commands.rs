use shell::builtin::{builtin_of, builtin_refusal, export_assignments, Builtin, Refusal};
use shell::session::{
    basic_prompt, classify_read, heredoc_line, heredoc_read, interrupt_prompt, prompt, sigint_action,
    LineRead, SigintAction,
};

fn args(ws: &[&str]) -> Vec<String> {
    ws.iter().map(|w| w.to_string()).collect()
}

fn pair(a: &str, b: &str) -> (String, String) {
    (a.to_string(), b.to_string())
}

#[test]
fn cd_with_and_without_dir() {
    assert_eq!(builtin_refusal("cd", &args(&["/tmp", "x"])), None);
    assert_eq!(builtin_of("cd", &args(&["/tmp", "x"])), Some(Builtin::Cd("/tmp".to_string())));
    assert_eq!(builtin_refusal("cd", &args(&[])), Some(Refusal::NoDir));
}

#[test]
fn pwd_and_exit() {
    assert_eq!(builtin_refusal("pwd", &args(&[])), None);
    assert_eq!(builtin_of("pwd", &args(&["ignored"])), Some(Builtin::Pwd));
    assert_eq!(builtin_of("exit", &args(&[])), Some(Builtin::Exit));
}

#[test]
fn not_builtin() {
    assert_eq!(builtin_refusal("ls", &args(&[])), None);
    assert_eq!(builtin_of("ls", &args(&["-l"])), None);
    assert_eq!(builtin_of("CD", &args(&[])), None);
    assert_eq!(builtin_of("cdx", &args(&[])), None);
}

#[test]
fn export_assignments_in_order() {
    let a = args(&["A=1", "B=2=3", "=x", "C="]);
    assert_eq!(builtin_refusal("export", &a), None);
    assert_eq!(
        builtin_of("export", &a),
        Some(Builtin::Export { vars: vec![pair("A", "1"), pair("B", "2"), pair("", "x"), pair("C", "")] })
    );
    assert_eq!(builtin_of("export", &args(&[])), Some(Builtin::Export { vars: Vec::new() }));
}

#[test]
fn export_refused_at_argument_without_equals() {
    let a = args(&["A=1", "bad", "C=3", "worse"]);
    assert_eq!(builtin_refusal("export", &a), Some(Refusal::NoValue(1)));
    assert_eq!(export_assignments(&a[..1].to_vec()), vec![pair("A", "1")]);
    assert_eq!(builtin_refusal("export", &args(&["x"])), Some(Refusal::NoValue(0)));
    assert_eq!(export_assignments(&args(&[])), Vec::new());
}

#[test]
fn prompts() {
    assert_eq!(prompt("/home/u"), "/home/u $ ");
    assert_eq!(interrupt_prompt("/home/u"), "\n/home/u $ ");
    assert_eq!(basic_prompt("/"), "/$ ");
}

#[test]
fn interrupts() {
    assert_eq!(sigint_action(10, 10), SigintAction::Reprompt);
    assert_eq!(sigint_action(11, 10), SigintAction::Exit);
}

#[test]
fn reads() {
    assert_eq!(classify_read(Vec::new()), LineRead::End);
    assert_eq!(classify_read(vec![b'\n']), LineRead::Skip);
    assert_eq!(classify_read(b"ls\n".to_vec()), LineRead::Line(b"ls".to_vec()));
    assert_eq!(classify_read(b"ls".to_vec()), LineRead::Line(b"l".to_vec()));
    assert_eq!(heredoc_read(Vec::new()), None);
    assert_eq!(heredoc_read(b"\n".to_vec()), Some(Vec::new()));
    assert_eq!(heredoc_read(b"abc\n".to_vec()), Some(b"abc".to_vec()));
}

#[test]
fn heredoc_lines() {
    assert_eq!(heredoc_line("EOF", "EOF"), None);
    assert_eq!(heredoc_line("Hello World!", "EOF"), Some("Hello World!\n".to_string()));
    assert_eq!(heredoc_line("", "EOF"), Some("\n".to_string()));
    assert_eq!(heredoc_line("EOF ", "EOF"), Some("EOF \n".to_string()));
}

#[test]
fn heredoc_document_scenario() {
    let lines = ["Hello World!", "Line2", "Line3", "EOF", "after"];
    let mut doc = String::new();
    for l in lines {
        match heredoc_line(l, "EOF") {
            Some(text) => doc.push_str(&text),
            None => break,
        }
    }
    assert_eq!(doc, "Hello World!\nLine2\nLine3\n");
    assert_eq!(doc.len(), 25);
}
