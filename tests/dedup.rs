use uniqr::config::Config;
use uniqr::count::{count_prefix_bytes, decimal_digits};
use uniqr::dedup::{render_line, run, Deduplicator};
use uniqr::error::RunError;
use uniqr::lines::{content_len, lines_match};

fn lines(texts: &[&str]) -> Vec<Vec<u8>> {
    texts.iter().map(|t| t.as_bytes().to_vec()).collect()
}

fn config(count: bool) -> Config {
    Config::new("-".to_string(), None, count)
}

#[test]
fn repeated_lines_collapse_without_counts() {
    let input = lines(&["a\n", "a\n", "b\n", "b\n", "b\n", "a\n"]);
    assert_eq!(run(&config(false), &input), lines(&["a\n", "b\n", "a\n"]));
}

#[test]
fn repeated_lines_collapse_with_counts() {
    let input = lines(&["a\n", "a\n", "b\n", "b\n", "b\n", "a\n"]);
    assert_eq!(
        run(&config(true), &input),
        lines(&["   2 a\n", "   3 b\n", "   1 a\n"])
    );
}

#[test]
fn single_line_without_terminator() {
    let input = lines(&["hello"]);
    assert_eq!(run(&config(false), &input), lines(&["hello"]));
    assert_eq!(run(&config(true), &input), lines(&["   1 hello"]));
}

#[test]
fn empty_input_gives_empty_output() {
    let input: Vec<Vec<u8>> = Vec::new();
    assert!(run(&config(false), &input).is_empty());
    assert!(run(&config(true), &input).is_empty());
}

#[test]
fn distinct_lines_are_kept() {
    let input = lines(&["x\n", "y\n", "x\n", "z"]);
    assert_eq!(run(&config(false), &input), input);
    assert_eq!(
        run(&config(true), &input),
        lines(&["   1 x\n", "   1 y\n", "   1 x\n", "   1 z"])
    );
}

#[test]
fn run_is_written_as_its_first_line() {
    let input = lines(&["p\n", "q\r\n", "q", "q\n", "r\n"]);
    assert_eq!(
        run(&config(false), &input),
        lines(&["p\n", "q\r\n", "r\n"])
    );
    assert_eq!(
        run(&config(true), &input),
        lines(&["   1 p\n", "   3 q\r\n", "   1 r\n"])
    );
}

#[test]
fn final_line_without_terminator_merges() {
    let input = lines(&["end\n", "end"]);
    assert_eq!(run(&config(false), &input), lines(&["end\n"]));
    assert_eq!(run(&config(true), &input), lines(&["   2 end\n"]));
}

#[test]
fn second_pass_changes_nothing() {
    let input = lines(&["a\n", "a", "b\n", "a\n", "a\n", "", "\n", "c"]);
    let once = run(&config(false), &input);
    let twice = run(&config(false), &once);
    assert_eq!(once, lines(&["a\n", "b\n", "a\n", "", "c"]));
    assert_eq!(twice, once);
}

#[test]
fn trailing_spaces_are_not_stripped() {
    let input = lines(&["a \n", "a\n"]);
    assert_eq!(run(&config(false), &input), input);
}

#[test]
fn long_run_widens_the_count_field() {
    let input: Vec<Vec<u8>> = (0..12345).map(|_| b"z\n".to_vec()).collect();
    assert_eq!(run(&config(true), &input), lines(&["12345 z\n"]));
}

#[test]
fn count_field_widths() {
    assert_eq!(count_prefix_bytes(0), b"   0 ".to_vec());
    assert_eq!(count_prefix_bytes(7), b"   7 ".to_vec());
    assert_eq!(count_prefix_bytes(42), b"  42 ".to_vec());
    assert_eq!(count_prefix_bytes(9999), b"9999 ".to_vec());
    assert_eq!(count_prefix_bytes(10000), b"10000 ".to_vec());
    assert_eq!(
        count_prefix_bytes(u64::MAX),
        b"18446744073709551615 ".to_vec()
    );
}

#[test]
fn decimal_digits_of_numbers() {
    assert_eq!(decimal_digits(0), b"0".to_vec());
    assert_eq!(decimal_digits(10), b"10".to_vec());
    assert_eq!(decimal_digits(907), b"907".to_vec());
}

#[test]
fn render_line_with_and_without_count() {
    assert_eq!(render_line(&b"a\n".to_vec(), 3, true), b"   3 a\n".to_vec());
    assert_eq!(render_line(&b"a\n".to_vec(), 3, false), b"a\n".to_vec());
}

#[test]
fn terminators_are_ignored_in_comparison() {
    assert_eq!(content_len(&b"abc\r\n\n".to_vec()), 3);
    assert_eq!(content_len(&b"\n".to_vec()), 0);
    assert_eq!(content_len(&b"a b ".to_vec()), 4);
    assert!(lines_match(&b"abc\n".to_vec(), &b"abc".to_vec()));
    assert!(lines_match(&b"abc\r\n".to_vec(), &b"abc\n".to_vec()));
    assert!(lines_match(&b"".to_vec(), &b"\n".to_vec()));
    assert!(!lines_match(&b"abc\n".to_vec(), &b"abd\n".to_vec()));
    assert!(!lines_match(&b"abc\n".to_vec(), &b"ab\n".to_vec()));
}

#[test]
fn streaming_pass_returns_closed_runs() {
    let mut pass = Deduplicator::new(true);
    assert_eq!(pass.run_length(), 0);
    assert_eq!(pass.feed(b"a\n".to_vec()), None);
    assert_eq!(pass.feed(b"a".to_vec()), None);
    assert_eq!(pass.run_length(), 2);
    assert_eq!(pass.feed(b"b\n".to_vec()), Some(b"   2 a\n".to_vec()));
    assert_eq!(pass.run_length(), 1);
    assert_eq!(pass.finish(), Some(b"   1 b\n".to_vec()));
}

#[test]
fn streaming_pass_over_nothing() {
    let pass = Deduplicator::new(false);
    assert_eq!(pass.finish(), None);
}

#[test]
fn config_keeps_its_parts() {
    let c = Config::new("in.txt".to_string(), Some("out.txt".to_string()), true);
    assert_eq!(c.in_file, "in.txt");
    assert_eq!(c.out_file, Some("out.txt".to_string()));
    assert!(c.count);
}

#[test]
fn error_messages_name_the_path() {
    let e = RunError::InputOpen {
        path: "missing.txt".to_string(),
        reason: "No such file or directory (os error 2)".to_string(),
    };
    assert_eq!(e.message(), "missing.txt: No such file or directory (os error 2)");
    let e = RunError::OutputOpen {
        path: "/nope/out".to_string(),
        reason: "denied".to_string(),
    };
    assert_eq!(e.message(), "/nope/out: denied");
    let e = RunError::Io {
        reason: "broken pipe".to_string(),
    };
    assert_eq!(e.message(), "broken pipe");
}
