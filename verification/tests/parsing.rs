use shell::syntax::{get_fd_before, get_token_after, tcp_address_of};
use shell::text::{parse_i32_str, split_on, split_tokens};

fn s(x: &str) -> String {
    x.to_string()
}

#[test]
fn token_after_output_redirection() {
    assert_eq!(get_token_after("ls > out", ">"), (s("ls "), Some(s("out"))));
}

#[test]
fn token_after_append() {
    assert_eq!(get_token_after("ls >> a.txt", ">>"), (s("ls "), Some(s("a.txt"))));
}

#[test]
fn token_after_missing_delimiter() {
    assert_eq!(get_token_after("ls -l", ">"), (s("ls -l"), None));
}

#[test]
fn token_after_stops_at_next_redirection() {
    assert_eq!(get_token_after("cat <in>out", "<"), (s("cat "), Some(s("in"))));
    assert_eq!(get_token_after("cat < in > out", "<"), (s("cat "), Some(s("in"))));
}

#[test]
fn token_after_ends_at_next_delimiter() {
    assert_eq!(get_token_after("a > b c > d", ">"), (s("a "), Some(s("b"))));
}

#[test]
fn token_after_trims_unicode_whitespace() {
    assert_eq!(get_token_after("ls >\t\u{3000}out\t", ">"), (s("ls "), Some(s("out"))));
}

#[test]
fn token_after_keeps_tabs_inside_the_token() {
    assert_eq!(get_token_after("ls > a\tb", ">"), (s("ls "), Some(s("a\tb"))));
}

#[test]
fn token_after_empty_token() {
    assert_eq!(get_token_after("x >", ">"), (s("x "), Some(s(""))));
}

#[test]
fn token_after_descriptor_case() {
    assert_eq!(
        get_token_after("grep char 0< file.txt 1>&2", "<"),
        (s("grep char 0"), Some(s("file.txt")))
    );
    assert_eq!(
        get_token_after("grep char 0< file.txt 1>&2", ">&"),
        (s("grep char 0< file.txt 1"), Some(s("2")))
    );
}

#[test]
fn token_after_empty_delimiter() {
    assert_eq!(get_token_after("abc", ""), (s(""), Some(s("a"))));
    assert_eq!(get_token_after("", ""), (s(""), Some(s(""))));
}

#[test]
fn token_after_multibyte_text() {
    assert_eq!(get_token_after("écho > fichier·é", ">"), (s("écho "), Some(s("fichier·é"))));
}

#[test]
fn fd_before_numbers() {
    assert_eq!(get_fd_before("ls 2> err", ">"), Some(2));
    assert_eq!(get_fd_before("cmd 1>&2", ">&"), Some(1));
    assert_eq!(get_fd_before("cmd -3> f", ">"), Some(-3));
    assert_eq!(get_fd_before("cmd +4> f", ">"), Some(4));
    assert_eq!(get_fd_before("cmd 2147483647>f", ">"), Some(2147483647));
    assert_eq!(get_fd_before("cmd -2147483648>f", ">"), Some(i32::MIN));
}

#[test]
fn fd_before_no_number() {
    assert_eq!(get_fd_before("ls > out", ">"), None);
    assert_eq!(get_fd_before("   > out", ">"), None);
    assert_eq!(get_fd_before("> out", ">"), None);
    assert_eq!(get_fd_before("cmd 2147483648> f", ">"), None);
    assert_eq!(get_fd_before("cmd 2a> f", ">"), None);
    assert_eq!(get_fd_before("cmd -> f", ">"), None);
}

#[test]
fn fd_before_without_delimiter_is_none() {
    assert_eq!(get_fd_before("head -n 5", ">"), None);
    assert_eq!(get_fd_before("sleep 5", ">&"), None);
}

#[test]
fn parse_i32_edge_cases() {
    assert_eq!(parse_i32_str("007"), Some(7));
    assert_eq!(parse_i32_str("-0"), Some(0));
    assert_eq!(parse_i32_str(""), None);
    assert_eq!(parse_i32_str("-"), None);
    assert_eq!(parse_i32_str("+"), None);
    assert_eq!(parse_i32_str("+-1"), None);
    assert_eq!(parse_i32_str(" 1"), None);
    assert_eq!(parse_i32_str("-2147483649"), None);
    assert_eq!(parse_i32_str("99999999999999999999"), None);
    for n in [0i32, 1, 9, 10, 42, 65535, i32::MAX, i32::MIN, -1, -100] {
        assert_eq!(parse_i32_str(&n.to_string()), Some(n));
    }
}

#[test]
fn split_on_pipe() {
    assert_eq!(split_on("a|b||c", '|'), vec![s("a"), s("b"), s(""), s("c")]);
    assert_eq!(split_on("", '|'), vec![s("")]);
    assert_eq!(split_on("ls", '|'), vec![s("ls")]);
    assert_eq!(split_on("|", '|'), vec![s(""), s("")]);
}

#[test]
fn split_on_rejoins_to_the_line() {
    for line in ["ls --help | grep and | wc > res.txt", "|a||", "no pipe", ""] {
        assert_eq!(split_on(line, '|').join("|"), line);
        assert!(split_on(line, '|').iter().all(|p| !p.contains('|')));
    }
}

#[test]
fn split_tokens_words() {
    assert_eq!(split_tokens("  a\tb  c "), vec![s("a"), s("b"), s("c")]);
    assert_eq!(split_tokens("   "), Vec::<String>::new());
    assert_eq!(split_tokens(""), Vec::<String>::new());
    assert_eq!(split_tokens("x\u{a0}y"), vec![s("x"), s("y")]);
}

#[test]
fn tcp_paths() {
    assert_eq!(tcp_address_of("/dev/tcp/127.0.0.1/8887"), Some(s("127.0.0.1:8887")));
    assert_eq!(tcp_address_of("/dev/tcp/example.org/80"), Some(s("example.org:80")));
    assert_eq!(tcp_address_of("/dev/tcp/h"), None);
    assert_eq!(tcp_address_of("dev/tcp/h/p/"), None);
    assert_eq!(tcp_address_of("/dev/udp/h/p"), None);
    assert_eq!(tcp_address_of("/dev/tcp/a/b/c"), None);
    assert_eq!(tcp_address_of("res.txt"), None);
}
