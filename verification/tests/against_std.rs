//! The parsing functions agree with the `str` operations of the standard
//! library that they stand for, on every short string over a small alphabet.

use shell::syntax::{get_fd_before, get_token_after};
use shell::text::{parse_i32_str, split_on, split_tokens};
use std::str::FromStr;

fn std_token_after(source: &str, delimiter: &str) -> (String, Option<String>) {
    let mut iter = source.split(delimiter);
    let cmd = iter.next().unwrap();
    match iter.next() {
        Some(rest) => {
            let rest = rest.trim();
            let file = rest.split(|ch| ch == '>' || ch == '<' || ch == ' ').next().unwrap();
            (cmd.to_string(), Some(file.to_string()))
        }
        None => (cmd.to_string(), None),
    }
}

fn std_fd_before(source: &str, delimiter: &str) -> Option<i32> {
    let mut pieces = source.split(delimiter);
    let cmd = pieces.next().unwrap();
    pieces.next()?;
    cmd.split_whitespace().last().and_then(|w| i32::from_str(w).ok())
}

fn strings(alphabet: &[char], max_len: usize) -> Vec<String> {
    let mut all = vec![String::new()];
    let mut layer = vec![String::new()];
    for _ in 0..max_len {
        let mut next = Vec::new();
        for p in &layer {
            for c in alphabet {
                let mut q = p.clone();
                q.push(*c);
                next.push(q);
            }
        }
        all.extend(next.iter().cloned());
        layer = next;
    }
    all
}

#[test]
fn token_after_agrees_with_std_split() {
    let inputs = strings(&['a', '>', '<', ' ', '&', '\t'], 5);
    for s in &inputs {
        for d in [">", ">>", ">&", "<", "<<", "", "a>"] {
            assert_eq!(get_token_after(s, d), std_token_after(s, d), "{:?} {:?}", s, d);
        }
    }
}

#[test]
fn fd_before_agrees_with_std() {
    let inputs = strings(&['1', '-', '>', ' ', 'x', '+'], 5);
    for s in &inputs {
        for d in [">", ">&", "<", ""] {
            assert_eq!(get_fd_before(s, d), std_fd_before(s, d), "{:?} {:?}", s, d);
        }
    }
}

#[test]
fn parse_i32_agrees_with_from_str() {
    let inputs = strings(&['0', '9', '-', '+', ' ', 'e'], 4);
    for s in &inputs {
        assert_eq!(parse_i32_str(s), i32::from_str(s).ok(), "{:?}", s);
    }
    for s in ["2147483647", "2147483648", "-2147483648", "-2147483649", "00000000002147483647"] {
        assert_eq!(parse_i32_str(s), i32::from_str(s).ok(), "{:?}", s);
    }
}

#[test]
fn split_agrees_with_std() {
    let inputs = strings(&['a', '|', ' ', '\u{2003}'], 5);
    for s in &inputs {
        let expected: Vec<String> = s.split('|').map(|p| p.to_string()).collect();
        assert_eq!(split_on(s, '|'), expected, "{:?}", s);
        let words: Vec<String> = s.split_whitespace().map(|p| p.to_string()).collect();
        assert_eq!(split_tokens(s), words, "{:?}", s);
    }
}
