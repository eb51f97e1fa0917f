//! Checks of the stated behaviour on concrete inputs: the examples, the
//! histogram's two renderings, the scan's determinism, and each error kind.
use aki_stats::execute;
use aki_stats::ExecReport;

fn stats_run(args: &[&str], input: &str) -> ExecReport {
    let a: Vec<String> = args.iter().map(|s| s.to_string()).collect();
    execute("aki-stats", &a, input)
}

#[test]
fn words_of_hello_world() {
    let r = stats_run(&["-w"], "hello world\n");
    assert_eq!(r.err, "");
    assert_eq!(r.out, "words:\"2\"\n");
    assert!(r.success);
}

#[test]
fn line_count_counts_terminators_plus_tail() {
    let r = stats_run(&["-l"], "a\nb\nc");
    assert_eq!(r.out, "lines:\"3\"\n");
    let r = stats_run(&["-l"], "a\nb\n");
    assert_eq!(r.out, "lines:\"2\"\n");
    let r = stats_run(&["-l"], "");
    assert_eq!(r.out, "lines:\"0\"\n");
}

#[test]
fn ascii_bytes_equal_chars() {
    let r = stats_run(&["-b", "-c"], "plain ascii text\nsecond line\n");
    assert_eq!(r.out, "bytes:\"27\", chars:\"27\"\n");
    assert!(r.success);
}

#[test]
fn words_invariant_under_whitespace() {
    let collapsed = stats_run(&["-w"], "x y z\n");
    let padded = stats_run(&["-w"], "  x \t  y   z  \n");
    assert_eq!(collapsed.out, "words:\"3\"\n");
    assert_eq!(padded.out, collapsed.out);
}

#[test]
fn run_twice_same_output() {
    let first = stats_run(&["-a"], "some input\nwith two lines");
    let second = stats_run(&["-a"], "some input\nwith two lines");
    assert_eq!(first.out, second.out);
    assert_eq!(first.err, second.err);
    assert_eq!(first.success, second.success);
}

#[test]
fn map_ascii_compact_shape() {
    let r = stats_run(&["-l", "--map-ascii", "-X", "map-ascii-rust-src"], "aaab\n");
    assert_eq!(r.err, "");
    assert!(r.success);
    let mut vals: Vec<u64> = vec![0; 128];
    vals[0x61] = 255;
    vals[0x62] = 85;
    let mut expected = String::from("lines:\"1\"\nconst ASCII_STOCHAS: [u8;128] = [");
    for (i, v) in vals.iter().enumerate() {
        if i > 0 {
            expected.push_str(", ");
        }
        expected.push_str(&format!("{}", v));
    }
    expected.push_str("];\n");
    assert_eq!(r.out, expected);
}

#[test]
fn map_ascii_compact_all_zero() {
    let r = stats_run(&["--map-ascii", "-X", "map-ascii-rust-src"], "");
    assert_eq!(r.err, "");
    assert!(r.success);
    let mut expected = String::from("\nconst ASCII_STOCHAS: [u8;128] = [");
    for i in 0..128 {
        if i > 0 {
            expected.push_str(", ");
        }
        expected.push('0');
    }
    expected.push_str("];\n");
    assert_eq!(r.out, expected);
}

#[test]
fn map_ascii_human_readable() {
    let r = stats_run(&["-l", "--map-ascii"], "a b\t\n");
    assert_eq!(r.err, "");
    assert!(r.success);
    let mut expected = String::from("lines:\"1\"\n");
    let mut lines: Vec<String> = Vec::new();
    lines.push("ctrl: --: 0".to_string());
    lines.push("ctrl: ht: 1".to_string());
    lines.push("ctrl: vt: 0".to_string());
    lines.push("0x20: SP: 1".to_string());
    for b in 0x21u32..0x7F {
        let c = char::from_u32(b).unwrap();
        let n: u32 = if c == 'a' || c == 'b' { 1 } else { 0 };
        lines.push(format!("0x{:02x}:  {}: {}", b, c, n));
    }
    expected.push_str(&lines.join("\n"));
    expected.push('\n');
    assert_eq!(r.out, expected);
}

#[test]
fn invalid_locale_is_reported() {
    let r = stats_run(&["-l", "--locale", "xyz"], "a\n");
    assert_eq!(r.out, "");
    assert_eq!(
        r.err,
        "aki-stats: Invalid option argument: locale: 'xyz': Failed to parse xyz into a valid locale.\nTry --help for help.\n"
    );
    assert!(!r.success);
}

#[test]
fn missing_locale_argument_is_reported() {
    let r = stats_run(&["--locale"], "");
    assert_eq!(r.out, "");
    assert_eq!(
        r.err,
        "aki-stats: Missing option argument: locale\nMissing option: b, c, l, w, a or --map-ascii\nTry --help for help.\n"
    );
    assert!(!r.success);
}

#[test]
fn unexpected_option_argument_is_reported() {
    let r = stats_run(&["--lines=3"], "");
    assert_eq!(r.out, "");
    assert_eq!(
        r.err,
        "aki-stats: Unexpected option argument: lines: 3\nMissing option: b, c, l, w, a or --map-ascii\nTry --help for help.\n"
    );
    assert!(!r.success);
}

#[test]
fn double_dash_ends_options() {
    let r = stats_run(&["-l", "--", "-w"], "a\n");
    assert_eq!(r.out, "");
    assert_eq!(
        r.err,
        "aki-stats: Unexpected argument: -w\nTry --help for help.\n"
    );
    assert!(!r.success);
}

#[test]
fn combined_short_options_in_one_token() {
    let r = stats_run(&["-lw"], "one two\nthree\n");
    assert_eq!(r.err, "");
    assert_eq!(r.out, "lines:\"2\", words:\"3\"\n");
    assert!(r.success);
}

#[test]
fn locale_with_equals_sign() {
    let r = stats_run(&["-b", "--locale=en"], "a".repeat(1234).as_str());
    assert_eq!(r.err, "");
    assert_eq!(r.out, "bytes:\"1,234\"\n");
    assert!(r.success);
}

#[test]
fn locale_c_keeps_plain_digits() {
    let r = stats_run(&["-b", "--locale", "C"], "a".repeat(1234).as_str());
    assert_eq!(r.err, "");
    assert_eq!(r.out, "bytes:\"1234\"\n");
    assert!(r.success);
}

#[test]
fn max_line_alone_needs_a_counting_flag() {
    let r = stats_run(&["-m"], "abc\n");
    assert_eq!(r.out, "");
    assert_eq!(
        r.err,
        "aki-stats: Missing option: b, c, l, w, a or --map-ascii\nTry --help for help.\n"
    );
    assert!(!r.success);
}

#[test]
fn carriage_return_inside_line_is_content() {
    let r = stats_run(&["-a"], "ab\rcd");
    assert_eq!(r.err, "");
    assert_eq!(
        r.out,
        "lines:\"1\", bytes:\"5\", chars:\"5\", words:\"2\", max:\"5\"\n"
    );
    assert!(r.success);
}

#[test]
fn rust_version_info_is_left_to_the_caller() {
    let r = stats_run(&["-X", "rust-version-info"], "");
    assert_eq!(r.out, "");
    assert_eq!(r.err, "");
    assert!(r.success);
    assert!(r.rust_version_info);
}

#[test]
fn short_query_option() {
    let r = stats_run(&["-?", "locale"], "");
    assert_eq!(r.err, "");
    assert!(r.out.starts_with("locales: C "));
    assert!(r.out.contains("en"));
    assert!(r.success);
}
