use catr::render::{render, Numbering};
use catr::run::{process_source, RunOutput, SourceRead};
use catr::{run, Config};

fn read(bytes: &[u8]) -> SourceRead {
    SourceRead::Read { bytes: bytes.to_vec(), error: None }
}

fn failed(cause: &str) -> SourceRead {
    SourceRead::OpenFailed { cause: cause.to_string() }
}

fn config(files: &[&str], number_lines: bool, number_nonblank_lines: bool) -> Config {
    Config::new(files.iter().map(|f| f.to_string()).collect(), number_lines, number_nonblank_lines)
}

fn run_on(cfg: &Config, sources: Vec<SourceRead>) -> RunOutput {
    run(cfg, &sources)
}

#[test]
fn numbers_every_line_across_files() {
    let cfg = config(&["a.txt", "b.txt"], true, false);
    let r = run_on(&cfg, vec![read(b"hello\n\n"), read(b"world\n")]);
    assert_eq!(r.out, b"     1\thello\n     2\t\n     3\tworld\n".to_vec());
    assert!(r.diagnostics.is_empty());
}

#[test]
fn numbers_nonblank_lines_across_files() {
    let cfg = config(&["a.txt", "b.txt"], false, true);
    let r = run_on(&cfg, vec![read(b"hello\n\n"), read(b"world\n")]);
    assert_eq!(r.out, b"     1\thello\n\n     2\tworld\n".to_vec());
}

#[test]
fn standard_input_verbatim() {
    let cfg = config(&["-"], false, false);
    let r = run_on(&cfg, vec![read(b"foo\nbar\n")]);
    assert_eq!(r.out, b"foo\nbar\n".to_vec());
    assert!(r.diagnostics.is_empty());
}

#[test]
fn missing_file_is_reported_and_skipped() {
    let cfg = config(&["missing.txt", "a.txt"], false, false);
    let r = run_on(&cfg, vec![failed("No such file or directory (os error 2)"), read(b"hello\n\n")]);
    assert_eq!(r.out, b"hello\n\n".to_vec());
    assert_eq!(
        r.diagnostics,
        vec!["Failed to open missing.txt: No such file or directory (os error 2)".to_string()]
    );
}

#[test]
fn missing_file_does_not_move_the_counter() {
    let cfg = config(&["a.txt", "missing.txt", "b.txt"], true, false);
    let r = run_on(&cfg, vec![read(b"x\n"), failed("gone"), read(b"y\n")]);
    assert_eq!(r.out, b"     1\tx\n     2\ty\n".to_vec());
    assert_eq!(r.diagnostics, vec!["Failed to open missing.txt: gone".to_string()]);
}

#[test]
fn both_flags_behave_as_nonblank() {
    let sources = || vec![read(b"a\n\nb\n"), read(b"\nc")];
    let both = run_on(&config(&["x", "y"], true, true), sources());
    let nonblank = run_on(&config(&["x", "y"], false, true), sources());
    assert_eq!(both.out, nonblank.out);
    assert_eq!(both.out, b"     1\ta\n\n     2\tb\n\n     3\tc".to_vec());
}

#[test]
fn verbatim_is_concatenation() {
    let cfg = config(&["x", "y", "z"], false, false);
    let r = run_on(&cfg, vec![read(b"one\r\ntwo"), read(b""), read(b"\n\nthree\n")]);
    assert_eq!(r.out, b"one\r\ntwo\n\nthree\n".to_vec());
}

#[test]
fn unterminated_line_is_its_own_line_per_source() {
    let cfg = config(&["x", "y"], true, false);
    let r = run_on(&cfg, vec![read(b"ab"), read(b"cd\n")]);
    assert_eq!(r.out, b"     1\tab     2\tcd\n".to_vec());
}

#[test]
fn empty_source_emits_nothing() {
    let cfg = config(&["x"], true, false);
    let r = run_on(&cfg, vec![read(b"")]);
    assert!(r.out.is_empty());
    assert!(r.diagnostics.is_empty());
}

#[test]
fn carriage_return_line_is_not_blank() {
    let cfg = config(&["x"], false, true);
    let r = run_on(&cfg, vec![read(b"\r\n\n")]);
    assert_eq!(r.out, b"     1\t\r\n\n".to_vec());
}

#[test]
fn read_failure_keeps_what_was_read() {
    let cfg = config(&["x", "y"], true, false);
    let sources = vec![
        SourceRead::Read { bytes: b"a\nb".to_vec(), error: Some("broken pipe".to_string()) },
        read(b"c\n"),
    ];
    let r = run_on(&cfg, sources);
    assert_eq!(r.out, b"     1\ta\n     2\tb     3\tc\n".to_vec());
    assert_eq!(r.diagnostics, vec!["Failed to read x: broken pipe".to_string()]);
}

#[test]
fn default_token_is_standard_input() {
    let cfg = Config::new(Vec::new(), false, false);
    assert_eq!(cfg.files(), &vec!["-".to_string()]);
    assert!(!cfg.number_lines());
    assert!(!cfg.number_nonblank_lines());
}

#[test]
fn policy_follows_flags() {
    assert_eq!(config(&["x"], false, false).policy(), Numbering::Verbatim);
    assert_eq!(config(&["x"], true, false).policy(), Numbering::All);
    assert_eq!(config(&["x"], false, true).policy(), Numbering::NonBlank);
    assert_eq!(config(&["x"], true, true).policy(), Numbering::NonBlank);
}

#[test]
fn wide_numbers_are_written_in_full() {
    let mut counter: u64 = 999_999;
    let mut out = Vec::new();
    render(b"a\nb\n", Numbering::All, &mut counter, &mut out);
    assert_eq!(out, b"999999\ta\n1000000\tb\n".to_vec());
    assert_eq!(counter, 1_000_001);
}

#[test]
fn largest_counter_value() {
    let mut counter: u64 = u64::MAX - 1;
    let mut out = Vec::new();
    render(b"\n", Numbering::All, &mut counter, &mut out);
    assert_eq!(out, b"18446744073709551614\t\n".to_vec());
    assert_eq!(counter, u64::MAX);
}

#[test]
fn counter_runs_on_between_sources() {
    let mut counter: u64 = 1;
    let mut out = Vec::new();
    let mut diagnostics = Vec::new();
    process_source(&"a".to_string(), &read(b"x\n\n"), Numbering::NonBlank, &mut counter, &mut out, &mut diagnostics);
    process_source(&"b".to_string(), &failed("denied"), Numbering::NonBlank, &mut counter, &mut out, &mut diagnostics);
    process_source(&"c".to_string(), &read(b"y\n"), Numbering::NonBlank, &mut counter, &mut out, &mut diagnostics);
    assert_eq!(out, b"     1\tx\n\n     2\ty\n".to_vec());
    assert_eq!(counter, 3);
    assert_eq!(diagnostics, vec!["Failed to open b: denied".to_string()]);
}
