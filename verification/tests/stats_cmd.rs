//! End-to-end checks of one invocation: arguments and an input text go in,
//! the report or the diagnostic comes out.
use aki_stats::execute;
use aki_stats::ExecReport;

fn stats_run(args: &[&str], input: &str) -> ExecReport {
    let a: Vec<String> = args.iter().map(|s| s.to_string()).collect();
    execute("aki-stats", &a, input)
}

const HELP_MSG: &str = "aki-stats 0.1.12\n\nUsage:\n  aki-stats [options]\n\noutput the statistics of text, like a wc of linux command.\n\nOptions:\n  -a, --all                 output the all statistics of text, exclude ascii map\n  -b, --bytes               output the byte counts\n  -c, --chars               output the unicode character counts\n  -l, --lines               output the line counts\n      --map-ascii           output the ascii map statistics\n  -m, --max-line-bytes      output the maximum byte counts of line\n  -w, --words               output the word counts\n      --locale <loc>        locale of number format: en, fr, ... posix\n  -?, --query <q>           display available names of locale and exit\n\n  -H, --help        display this help and exit\n  -V, --version     display version information and exit\n  -X <x-options>    x options. try -X help\n\nExamples:\n  Outputs the line count:\n    echo -e \"acbde fghi\\njkln opqr\" | aki-stats -l\n  Outputs the byte count:\n    echo -e \"acbde fghi\\njkln opqr\" | aki-stats -b\n  Outputs the word count:\n    echo -e \"acbde fghi\\njkln opqr\" | aki-stats -w\n\n";
const VERSION_MSG: &str = "aki-stats 0.1.12\n";

const IN_DAT_1: &str = "\
You could not possibly have come at a better time, my dear Watson,
he said cordially.
I was afraid that you were engaged.
So I am. Very much so.
Then I can wait in the next room.
Not at all.
This gentleman, Mr. Wilson,
has been my partner and helper in many of my most successful cases,
and I have no doubt that he will be of the utmost use to me in yours also.
Try the settee, said Holmes,
relapsing into his armchair and putting his finger-tips together,
as was his custom when in judicial moods.
I know, my dear Watson,
that you share my love of all that is bizarre and outside the conventions
and humdrum routine of everyday life.
You have shown your relish for it by the enthusiasm which has prompted
you to chronicle, and, if you will excuse my saying so,
somewhat to embellish so many of my own little adventures.

\"Your cases have indeed been of the greatest interest to me,\" I observed.

You will remember that I remarked the other day,
just before we went into the very simple problem presented by Miss Mary Sutherland,
that for strange effects and extraordinary combinations we must go to life itself,
which is always far more daring than any effort of the imagination.
A proposition which I took the liberty of doubting.
";

#[test]
fn test_test_help() {
    let r = stats_run(&["-H"], "");
    assert_eq!(r.err, "");
    assert_eq!(r.out, HELP_MSG);
    assert!(r.success);
}

#[test]
fn test_test_help_long() {
    let r = stats_run(&["--help"], "");
    assert_eq!(r.err, "");
    assert_eq!(r.out, HELP_MSG);
    assert!(r.success);
}

#[test]
fn test_test_version() {
    let r = stats_run(&["-V"], "");
    assert_eq!(r.err, "");
    assert_eq!(r.out, VERSION_MSG);
    assert!(r.success);
}

#[test]
fn test_test_version_long() {
    let r = stats_run(&["--version"], "");
    assert_eq!(r.err, "");
    assert_eq!(r.out, VERSION_MSG);
    assert!(r.success);
}

#[test]
fn test_test_x_option_help() {
    let r = stats_run(&["-X", "help"], "");
    assert_eq!(r.err, "");
    assert!(r.out.contains("Options:"));
    assert!(r.out.contains("-X rust-version-info"));
    assert!(r.success);
}

#[test]
fn test_test_multiple_x_options() {
    let r = stats_run(&["-X", "help", "-X", "rust-version-info"], "");
    assert_eq!(r.err, "");
    assert!(r.out.contains("Options:"));
    assert!(!r.out.contains("rustc"));
    assert!(r.success);
}

#[test]
fn test_test_invalid_opt() {
    let r = stats_run(&["-z"], "");
    assert_eq!(r.err, "aki-stats: Invalid option: z\nMissing option: b, c, l, w, a or --map-ascii\nTry --help for help.\n");
    assert_eq!(r.out, "");
    assert!(!r.success);
}

#[test]
fn test_test_non_option() {
    let r = stats_run(&[""], "");
    assert_eq!(r.err, "aki-stats: Missing option: b, c, l, w, a or --map-ascii\nUnexpected argument: \nTry --help for help.\n");
    assert_eq!(r.out, "");
    assert!(!r.success);
}

#[test]
fn test_test_empty_input() {
    let r = stats_run(&["-a"], "");
    assert_eq!(r.err, "");
    assert_eq!(r.out, "lines:\"0\", bytes:\"0\", chars:\"0\", words:\"0\", max:\"0\"\n");
    assert!(r.success);
}

#[test]
fn test_test_only_newlines() {
    let r = stats_run(&["-a"], "\n\n\n");
    assert_eq!(r.err, "");
    assert_eq!(r.out, "lines:\"3\", bytes:\"0\", chars:\"0\", words:\"0\", max:\"0\"\n");
    assert!(r.success);
}

#[test]
fn test_test_combined_flags() {
    let r = stats_run(&["-l", "-w"], "hello world\n");
    assert_eq!(r.err, "");
    assert_eq!(r.out, "lines:\"1\", words:\"2\"\n");
    assert!(r.success);
}

#[test]
fn test_test_crlf_line_endings() {
    let r = stats_run(&["-a"], "line1\r\nline2\r\n");
    assert_eq!(r.err, "");
    assert_eq!(r.out, "lines:\"2\", bytes:\"10\", chars:\"10\", words:\"2\", max:\"5\"\n");
    assert!(r.success);
}

#[test]
fn test_test_word_separators() {
    let r = stats_run(&["-w"], "word1  word2\tword3\n");
    assert_eq!(r.err, "");
    assert_eq!(r.out, "words:\"3\"\n");
    assert!(r.success);
}

#[test]
fn test_test_mixed_line_endings() {
    let r = stats_run(&["-a"], "line1\nline2\r\nline3\n");
    assert_eq!(r.err, "");
    assert_eq!(r.out, "lines:\"3\", bytes:\"15\", chars:\"15\", words:\"3\", max:\"5\"\n");
    assert!(r.success);
}

#[test]
fn test_test_leading_trailing_whitespace() {
    let r = stats_run(&["-a"], "  word1  \n\tword2\t\n");
    assert_eq!(r.err, "");
    assert_eq!(r.out, "lines:\"2\", bytes:\"16\", chars:\"16\", words:\"2\", max:\"9\"\n");
    assert!(r.success);
}

#[test]
fn test_test_word_counting_with_punctuation() {
    let r = stats_run(&["-w"], "hello, world! one-two three.four\n");
    assert_eq!(r.err, "");
    assert_eq!(r.out, "words:\"4\"\n");
    assert!(r.success);
}

#[test]
fn test_test_mixed_separators() {
    let r = stats_run(&["-w"], "word1 \t word2  word3\n");
    assert_eq!(r.err, "");
    assert_eq!(r.out, "words:\"3\"\n");
    assert!(r.success);
}

#[test]
fn test_test_long_line() {
    let input = "a".repeat(10000);
    let r = stats_run(&["-a"], &input);
    assert_eq!(r.err, "");
    assert_eq!(r.out, "lines:\"1\", bytes:\"10000\", chars:\"10000\", words:\"1\", max:\"10000\"\n");
    assert!(r.success);
}

#[test]
fn test_test_no_newline_at_end() {
    let r = stats_run(&["-a"], "hello world");
    assert_eq!(r.err, "");
    assert_eq!(r.out, "lines:\"1\", bytes:\"11\", chars:\"11\", words:\"2\", max:\"11\"\n");
    assert!(r.success);
}

#[test]
fn test_test_t0() {
    let r = stats_run(&["-a"], IN_DAT_1);
    assert_eq!(r.err, "");
    assert_eq!(r.out, "lines:\"26\", bytes:\"1207\", chars:\"1207\", words:\"226\", max:\"83\"\n");
    assert!(r.success);
}

#[test]
fn test_test_t1() {
    let r = stats_run(&["-l"], IN_DAT_1);
    assert_eq!(r.err, "");
    assert_eq!(r.out, "lines:\"26\"\n");
    assert!(r.success);
}

#[test]
fn test_test_t2() {
    let r = stats_run(&["-b"], IN_DAT_1);
    assert_eq!(r.err, "");
    assert_eq!(r.out, "bytes:\"1207\"\n");
    assert!(r.success);
}

#[test]
fn test_test_t3() {
    let r = stats_run(&["-c"], IN_DAT_1);
    assert_eq!(r.err, "");
    assert_eq!(r.out, "chars:\"1207\"\n");
    assert!(r.success);
}

#[test]
fn test_test_t4() {
    let r = stats_run(&["-w"], IN_DAT_1);
    assert_eq!(r.err, "");
    assert_eq!(r.out, "words:\"226\"\n");
    assert!(r.success);
}

#[test]
fn test_test_t5() {
    let r = stats_run(&["-l", "-m"], IN_DAT_1);
    assert_eq!(r.err, "");
    assert_eq!(r.out, "lines:\"26\", max:\"83\"\n");
    assert!(r.success);
}

#[test]
fn test_test_t0_en() {
    let r = stats_run(&["-a", "--locale", "en"], IN_DAT_1);
    assert_eq!(r.err, "");
    assert_eq!(r.out, "lines:\"26\", bytes:\"1,207\", chars:\"1,207\", words:\"226\", max:\"83\"\n");
    assert!(r.success);
}

#[test]
fn test_test_t0_fr() {
    let r = stats_run(&["-a", "--locale", "fr"], IN_DAT_1);
    assert_eq!(r.err, "");
    assert_eq!(r.out, "lines:\"26\", bytes:\"1\u{202f}207\", chars:\"1\u{202f}207\", words:\"226\", max:\"83\"\n");
    assert!(r.success);
}

#[test]
fn test_test_t0_de() {
    let r = stats_run(&["-a", "--locale", "de"], IN_DAT_1);
    assert_eq!(r.err, "");
    assert_eq!(r.out, "lines:\"26\", bytes:\"1.207\", chars:\"1.207\", words:\"226\", max:\"83\"\n");
    assert!(r.success);
}

#[test]
fn test_test_query_locale() {
    let r = stats_run(&["--query", "locale"], "");
    assert_eq!(r.err, "");
    assert!(r.out.contains("en"));
    assert!(r.out.contains("fr"));
    assert!(r.out.contains("de"));
    assert!(r.success);
}

#[test]
fn test_test_query_invalid() {
    let r = stats_run(&["--query", "invalid"], "");
    assert_eq!(r.err, "");
    assert_eq!(r.out, "unknown query: invalid\navailable query: locale\n");
    assert!(r.success);
}

#[test]
fn test_test_unicode_chars() {
    let r = stats_run(&["-a"], "\u{3053}\u{3093}\u{306b}\u{3061}\u{306f} \u{4e16}\u{754c}\n");
    assert_eq!(r.err, "");
    assert_eq!(r.out, "lines:\"1\", bytes:\"22\", chars:\"8\", words:\"2\", max:\"22\"\n");
    assert!(r.success);
}

#[test]
fn test_test_bytes_with_locale() {
    let input = "a".repeat(1234);
    let r = stats_run(&["-b", "--locale", "en"], &input);
    assert_eq!(r.err, "");
    assert_eq!(r.out, "bytes:\"1,234\"\n");
    assert!(r.success);
}

#[test]
fn test_test_chars_with_locale() {
    let input = "a".repeat(5678);
    let r = stats_run(&["-c", "--locale", "fr"], &input);
    assert_eq!(r.err, "");
    assert_eq!(r.out, "chars:\"5\u{202f}678\"\n");
    assert!(r.success);
}

