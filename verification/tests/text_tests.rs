use claude_supervisor::cmdline::{join_command_line, tokenize_commandline};
use claude_supervisor::text::{
    find_subseq, lower_copy, parse_u32, trim_bytes, u32_to_dec,
};

#[test]
fn tokenizer_splits_on_whitespace() {
    let toks = tokenize_commandline(b"node script.js --flag");
    assert_eq!(toks.len(), 3);
    assert_eq!(toks[0], b"node".to_vec());
    assert_eq!(toks[1], b"script.js".to_vec());
    assert_eq!(toks[2], b"--flag".to_vec());
}

#[test]
fn tokenizer_honours_double_quotes() {
    let toks = tokenize_commandline(b"\"C:\\Program Files\\node.exe\" app.js");
    assert_eq!(toks.len(), 2);
    assert_eq!(toks[0], b"C:\\Program Files\\node.exe".to_vec());
    assert_eq!(toks[1], b"app.js".to_vec());
}

#[test]
fn tokenizer_collapses_repeated_whitespace() {
    let toks = tokenize_commandline(b"  a \t b  ");
    assert_eq!(toks.len(), 2);
    assert_eq!(toks[0], b"a".to_vec());
    assert_eq!(toks[1], b"b".to_vec());
}

#[test]
fn join_plain_arguments_with_spaces() {
    let args = vec![b"--version".to_vec()];
    let line = join_command_line(b"cli", &args);
    assert_eq!(line, b"cli --version".to_vec());
}

#[test]
fn join_quotes_argument_with_whitespace() {
    let args = vec![b"a b".to_vec(), b"plain".to_vec()];
    let line = join_command_line(b"run", &args);
    assert_eq!(line, b"run \"a b\" plain".to_vec());
}

#[test]
fn join_escapes_embedded_quotes() {
    let args = vec![b"say \"hi\"".to_vec()];
    let line = join_command_line(b"echo", &args);
    assert_eq!(line, b"echo \"say \\\"hi\\\"\"".to_vec());
}

#[test]
fn join_quotes_empty_argument() {
    let args = vec![b"".to_vec()];
    let line = join_command_line(b"tool", &args);
    assert_eq!(line, b"tool \"\"".to_vec());
}

#[test]
fn join_without_arguments_is_executable_alone() {
    let args: Vec<Vec<u8>> = Vec::new();
    assert_eq!(join_command_line(b"cli", &args), b"cli".to_vec());
}

#[test]
fn parse_u32_reads_decimal() {
    assert_eq!(parse_u32(b"1234"), Some(1234));
    assert_eq!(parse_u32(b"0"), Some(0));
    assert_eq!(parse_u32(b"4294967295"), Some(u32::MAX));
}

#[test]
fn parse_u32_rejects_bad_input() {
    assert_eq!(parse_u32(b""), None);
    assert_eq!(parse_u32(b"12a4"), None);
    assert_eq!(parse_u32(b" 12"), None);
    assert_eq!(parse_u32(b"4294967296"), None);
    assert_eq!(parse_u32(b"99999999999999999999"), None);
}

#[test]
fn decimal_rendering_round_trips() {
    assert_eq!(u32_to_dec(0), b"0".to_vec());
    assert_eq!(u32_to_dec(7), b"7".to_vec());
    assert_eq!(u32_to_dec(90210), b"90210".to_vec());
    assert_eq!(u32_to_dec(u32::MAX), b"4294967295".to_vec());
    assert_eq!(parse_u32(&u32_to_dec(123456789)), Some(123456789));
}

#[test]
fn trim_removes_ascii_whitespace_both_ends() {
    assert_eq!(trim_bytes(b"  pid \r\n"), b"pid".to_vec());
    assert_eq!(trim_bytes(b"\t\t"), b"".to_vec());
    assert_eq!(trim_bytes(b"solid"), b"solid".to_vec());
}

#[test]
fn lower_copy_folds_ascii_only() {
    assert_eq!(lower_copy(b"Node.EXE"), b"node.exe".to_vec());
    assert_eq!(lower_copy(b"123-_"), b"123-_".to_vec());
}

#[test]
fn find_subseq_reports_first_occurrence() {
    assert_eq!(find_subseq(b"abcabc", b"bc"), Some(1));
    assert_eq!(find_subseq(b"abc", b"xyz"), None);
    assert_eq!(find_subseq(b"abc", b""), Some(0));
}
