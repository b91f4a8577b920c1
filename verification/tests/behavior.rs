use lineview::batch::{run_cat_batch, run_head_batch, ResolvedSource, SourceOutcome};
use lineview::cat::{render_cat, Config as CatConfig, NumberingPolicy};
use lineview::head::{render_head_source, take_bytes, take_lines, Bound, Config as HeadConfig};
use lineview::echo::join_words;
use lineview::parse::parse_positive_int;

fn opened(name: &str, content: &[u8]) -> ResolvedSource {
    ResolvedSource {
        name: name.as_bytes().to_vec(),
        outcome: SourceOutcome::Opened(content.to_vec()),
    }
}

fn failed(name: &str, err: &str) -> ResolvedSource {
    ResolvedSource {
        name: name.as_bytes().to_vec(),
        outcome: SourceOutcome::OpenFailed(err.as_bytes().to_vec()),
    }
}

#[test]
fn test_parse_positive_int() {
    let result = parse_positive_int(String::from("3"));
    assert!(result.is_ok());
    assert_eq!(result.unwrap(), 3);

    let result = parse_positive_int(String::from("foo"));
    assert!(result.is_err());
    assert_eq!(result.unwrap_err().to_string(), "foo".to_string());

    let result = parse_positive_int(String::from("0"));
    assert!(result.is_err());
    assert_eq!(result.unwrap_err().to_string(), "0".to_string());

    let result = parse_positive_int(String::from("-1"));
    assert!(result.is_err());
    assert_eq!(result.unwrap_err().to_string(), "-1".to_string());
}

#[test]
fn parse_accepts_leading_plus() {
    assert_eq!(parse_positive_int(String::from("+7")).unwrap(), 7);
}

#[test]
fn parse_rejects_empty_and_bare_plus() {
    assert_eq!(parse_positive_int(String::from("")).unwrap_err(), "");
    assert_eq!(parse_positive_int(String::from("+")).unwrap_err(), "+");
}

#[test]
fn parse_rejects_overflowing_value() {
    let huge = String::from("99999999999999999999999999999999");
    assert_eq!(parse_positive_int(huge.clone()).unwrap_err(), huge);
}

#[test]
fn cat_plain_reproduces_input() {
    let input = b"The quick\nbrown fox\n".to_vec();
    assert_eq!(render_cat(&input, NumberingPolicy::Plain), input);

    let no_trailing = b"a\nb".to_vec();
    assert_eq!(render_cat(&no_trailing, NumberingPolicy::Plain), no_trailing);

    let empty: Vec<u8> = Vec::new();
    assert_eq!(render_cat(&empty, NumberingPolicy::Plain), empty);
}

#[test]
fn cat_number_all_counts_every_line() {
    let input = b"x\n\ny\n".to_vec();
    let expect = b"     1\tx\n     2\t\n     3\ty\n".to_vec();
    assert_eq!(render_cat(&input, NumberingPolicy::NumberAll), expect);
}

#[test]
fn cat_number_nonblank_example() {
    let input = b"a\n\nb\n".to_vec();
    let expect = b"     1\ta\n\n     2\tb\n".to_vec();
    assert_eq!(render_cat(&input, NumberingPolicy::NumberNonBlank), expect);
}

#[test]
fn cat_number_nonblank_treats_crlf_as_blank() {
    let input = b"a\r\n\r\nb\r\n".to_vec();
    let expect = b"     1\ta\r\n\r\n     2\tb\r\n".to_vec();
    assert_eq!(render_cat(&input, NumberingPolicy::NumberNonBlank), expect);
}

#[test]
fn cat_number_nonblank_bare_carriage_return_is_content() {
    // A final carriage return with no line feed after it is content, so the
    // line is counted.
    let input = b"a\n\r".to_vec();
    let expect = b"     1\ta\n     2\t\r".to_vec();
    assert_eq!(render_cat(&input, NumberingPolicy::NumberNonBlank), expect);
}

#[test]
fn cat_config_selects_policy() {
    let config = CatConfig {
        files: vec![String::from("-")],
        number_lines: true,
        number_nonblank_lines: false,
    };
    assert_eq!(config.policy(), NumberingPolicy::NumberAll);
    let config = CatConfig {
        files: vec![String::from("-")],
        number_lines: false,
        number_nonblank_lines: true,
    };
    assert_eq!(config.policy(), NumberingPolicy::NumberNonBlank);
    let config = CatConfig {
        files: vec![String::from("-")],
        number_lines: false,
        number_nonblank_lines: false,
    };
    assert_eq!(config.policy(), NumberingPolicy::Plain);
}

#[test]
fn head_config_selects_bound() {
    let config = HeadConfig { files: vec![String::from("-")], lines: 10, bytes: None };
    assert_eq!(config.bound(), Bound::Lines(10));
    let config = HeadConfig { files: vec![String::from("-")], lines: 10, bytes: Some(3) };
    assert_eq!(config.bound(), Bound::Bytes(3));
}

#[test]
fn head_lines_example() {
    let input = b"l1\nl2\nl3\n".to_vec();
    assert_eq!(take_lines(&input, 2), b"l1\nl2\n".to_vec());
}

#[test]
fn head_lines_ceiling_past_end() {
    let input = b"one\ntwo\n".to_vec();
    assert_eq!(take_lines(&input, 10), input);
    let partial = b"a\nb".to_vec();
    assert_eq!(take_lines(&partial, 2), partial);
    assert_eq!(take_lines(&partial, 1), b"a\n".to_vec());
}

#[test]
fn head_bytes_takes_min_of_ceiling_and_length() {
    let input = b"abcdef".to_vec();
    assert_eq!(take_bytes(&input, 4), b"abcd".to_vec());
    assert_eq!(take_bytes(&input, 9), input);
    assert_eq!(take_bytes(&input, 6), input);
}

#[test]
fn head_bytes_lossy_replacement_at_split_codepoint() {
    // "é" is 0xC3 0xA9; a one-byte ceiling splits it and the decoder
    // substitutes the replacement character.
    let input = vec![0xC3, 0xA9];
    let out = render_head_source(&b"x".to_vec(), &input, Bound::Bytes(1), false, false);
    assert_eq!(out, "\u{FFFD}".as_bytes().to_vec());
    // A ceiling past the pair keeps the text unchanged.
    let out = render_head_source(&b"x".to_vec(), &input, Bound::Bytes(2), false, false);
    assert_eq!(out, input);
}

#[test]
fn head_multi_source_example() {
    let srcs = vec![opened("A", b"a1\na2\na3\n"), opened("B", b"b1\nb2\nb3\n")];
    let (out, diag) = run_head_batch(&srcs, Bound::Lines(2));
    assert_eq!(out, b"==> A <==\na1\na2\n\n==> B <==\nb1\nb2\n".to_vec());
    assert!(diag.is_empty());
}

#[test]
fn head_single_source_has_no_header() {
    let srcs = vec![opened("A", b"a1\na2\n")];
    let (out, diag) = run_head_batch(&srcs, Bound::Lines(1));
    assert_eq!(out, b"a1\n".to_vec());
    assert!(diag.is_empty());
}

#[test]
fn head_blank_line_goes_by_position_not_by_success() {
    // The first source fails to open; the second still gets the blank line
    // that its position calls for.
    let srcs = vec![failed("bad", "does not exist"), opened("good", b"g1\ng2\n")];
    let (out, diag) = run_head_batch(&srcs, Bound::Lines(1));
    assert_eq!(out, b"\n==> good <==\ng1\n".to_vec());
    assert_eq!(diag, b"bad: does not exist\n".to_vec());
}

#[test]
fn cat_batch_skips_failing_source() {
    let srcs = vec![
        opened("one", b"first\n"),
        failed("missing", "No such file or directory (os error 2)"),
        opened("two", b"second\n"),
    ];
    let (out, diag) = run_cat_batch(&srcs, NumberingPolicy::Plain);
    assert_eq!(out, b"first\nsecond\n".to_vec());
    assert_eq!(diag, b"missing: No such file or directory (os error 2)\n".to_vec());
}

#[test]
fn echo_joins_words_with_single_spaces() {
    let words = vec![b"Hello".to_vec(), b"there".to_vec()];
    assert_eq!(join_words(&words, false), b"Hello there\n".to_vec());
    assert_eq!(join_words(&words, true), b"Hello there".to_vec());
    let one = vec![b"Hello  there".to_vec()];
    assert_eq!(join_words(&one, false), b"Hello  there\n".to_vec());
    let none: Vec<Vec<u8>> = Vec::new();
    assert_eq!(join_words(&none, false), b"\n".to_vec());
}

#[test]
fn cat_batch_counters_reset_per_source() {
    let srcs = vec![opened("one", b"a\nb\n"), opened("two", b"c\n")];
    let (out, _) = run_cat_batch(&srcs, NumberingPolicy::NumberAll);
    assert_eq!(out, b"     1\ta\n     2\tb\n     1\tc\n".to_vec());
}
