//! Direct checks of the public building blocks: the fixed texts, the
//! counters, and the report-entry formatting.
use aki_stats::conf::parse::help_message;
use aki_stats::conf::parse::opt_uc_x_help_message;
use aki_stats::conf::parse::parse_cmdopts;
use aki_stats::conf::parse::query_error;
use aki_stats::conf::parse::query_locale;
use aki_stats::conf::parse::usage_message;
use aki_stats::conf::parse::version_message;
use aki_stats::my_formatted;
use aki_stats::Stats;
use aki_stats::StatsAscii;

#[test]
fn version_message_text() {
    assert_eq!(version_message("anything"), "aki-stats 0.1.12");
}

#[test]
fn usage_message_text() {
    assert_eq!(usage_message("stats"), "Usage:\n  stats [options]");
}

#[test]
fn help_message_shape() {
    let h = help_message("stats");
    assert!(h.starts_with("aki-stats 0.1.12\n\nUsage:\n  aki-stats [options]\n"));
    assert!(h.contains("\nOptions:\n"));
    assert!(h.contains("\nExamples:\n"));
    assert!(h.ends_with("| aki-stats -w\n"));
}

#[test]
fn x_help_message_text() {
    let h = opt_uc_x_help_message("stats");
    assert!(h.starts_with("Options:\n"));
    assert!(h.contains("-X rust-version-info"));
}

#[test]
fn query_error_text_value() {
    assert_eq!(
        query_error("stats", "foo"),
        "unknown query: foo\navailable query: locale"
    );
}

#[test]
fn query_locale_joins_names() {
    let names = vec!["aa".to_string(), "bb".to_string()];
    assert_eq!(query_locale("stats", &names), "locales: C aa bb");
    let none: Vec<String> = Vec::new();
    assert_eq!(query_locale("stats", &none), "locales: C ");
}

#[test]
fn stats_default_is_zero() {
    let s = Stats::default();
    assert_eq!(s.byte_count, 0);
    assert_eq!(s.char_count, 0);
    assert_eq!(s.line_count, 0);
    assert_eq!(s.word_count, 0);
    assert_eq!(s.max_line_bytes, 0);
}

#[test]
fn stats_ascii_buckets() {
    let mut h = StatsAscii::new(128);
    h.count_up(65);
    h.count_up(65);
    h.count_up(200);
    assert_eq!(h.get_count(65), 2);
    assert_eq!(h.get_count(66), 0);
    assert_eq!(h.get_count(200), 0);
    assert_eq!(h.max(), 2);
}

#[test]
fn my_formatted_pair() {
    let args = vec!["-l".to_string()];
    let conf = parse_cmdopts("aki-stats", &args).unwrap_or_else(|_| unreachable!());
    assert_eq!(my_formatted(&conf, "lines", 5), "lines:\"5\"");
    assert_eq!(my_formatted(&conf, "bytes", 0), "bytes:\"0\"");
}

#[test]
fn parse_cmdopts_expands_all() {
    let args = vec!["-a".to_string()];
    let conf = parse_cmdopts("aki-stats", &args).unwrap_or_else(|_| unreachable!());
    assert!(conf.flg_bytes);
    assert!(conf.flg_chars);
    assert!(conf.flg_lines);
    assert!(conf.flg_words);
    assert!(conf.flg_max_line_bytes);
    assert!(!conf.flg_map_ascii);
}
