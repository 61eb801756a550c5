use num_format::SystemLocale;
use tokcount::aggregate::AggregateMap;
use tokcount::compute::{count_tokens_and_lines, fault_message, process_file, text_stats};
use tokcount::config::ConfigError;
use tokcount::discover::{DirEntry, FileRecord, Walk};
use tokcount::render::{compose_line, render};
use tokcount::report::{report, Report, Totals};
use tokcount::aggregate::Entry;
use tokcount::stats::FileStats;
use tokcount::tokenizer::Tokenizer;

fn plain_locale() -> SystemLocale {
    SystemLocale::from_name("C").unwrap()
}

fn file(path: &str) -> DirEntry {
    DirEntry { path: path.to_string(), is_dir: false, is_symlink: false }
}

fn discover(listing: &Vec<DirEntry>, filter: &[&str]) -> Vec<FileRecord> {
    let filter: Vec<String> = filter.iter().map(|s| s.to_string()).collect();
    let mut walk = Walk::new("root".to_string(), true).unwrap();
    assert_eq!(walk.next_directory(), Some("root".to_string()));
    walk.record_listing(Some(listing), &filter);
    assert_eq!(walk.next_directory(), None);
    walk.into_files()
}

fn entry(extension: &str, token_count: u64, line_count: u64, file_count: u64) -> Entry {
    Entry { extension: extension.to_string(), stats: FileStats { token_count, line_count, file_count } }
}

#[test]
fn tokenizer_counts_tokens() {
    let tokenizer = Tokenizer::cl100k_base().unwrap();
    assert_eq!(tokenizer.count("hello world"), Some(2));
    assert_eq!(tokenizer.count(""), Some(0));
    assert_eq!(tokenizer.count("hello world hello world"), Some(4));
}

#[test]
fn tokenizer_counts_special_tokens_as_one() {
    let tokenizer = Tokenizer::cl100k_base().unwrap();
    assert_eq!(tokenizer.count("<|endoftext|>"), Some(1));
}

#[test]
fn readable_file_has_tokens_and_lines() {
    let tokenizer = Tokenizer::cl100k_base().unwrap();
    let counted = count_tokens_and_lines(Some("hello world"), &tokenizer);
    assert_eq!(counted.stats, FileStats { token_count: 2, line_count: 1, file_count: 1 });
    assert!(!counted.faulted);
}

#[test]
fn empty_file_has_no_tokens_and_no_lines() {
    let tokenizer = Tokenizer::cl100k_base().unwrap();
    let counted = count_tokens_and_lines(Some(""), &tokenizer);
    assert_eq!(counted.stats, FileStats { token_count: 0, line_count: 0, file_count: 1 });
    assert!(!counted.faulted);
}

#[test]
fn unreadable_file_is_counted_as_present() {
    let tokenizer = Tokenizer::cl100k_base().unwrap();
    let counted = count_tokens_and_lines(None, &tokenizer);
    assert_eq!(counted.stats, FileStats { token_count: 0, line_count: 0, file_count: 1 });
    assert!(!counted.faulted);
}

#[test]
fn text_stats_take_the_token_count_given() {
    assert_eq!(text_stats("a\nb\nc", Some(10)), FileStats { token_count: 10, line_count: 3, file_count: 1 });
    assert_eq!(text_stats("", Some(0)), FileStats { token_count: 0, line_count: 0, file_count: 1 });
}

#[test]
fn tokenizer_fault_degrades_the_file() {
    assert_eq!(text_stats("a\nb\nc", None), FileStats { token_count: 0, line_count: 0, file_count: 1 });
    assert_eq!(fault_message("root/bad.txt"), "Error while processing file: root/bad.txt");
}

#[test]
fn processed_file_is_filed_under_its_extension() {
    let tokenizer = Tokenizer::cl100k_base().unwrap();
    let record = FileRecord { path: "root/a.txt".to_string(), extension: "txt".to_string() };
    let processed = process_file(&record, Some("hello world"), &tokenizer);
    assert_eq!(processed.diagnostic, None);
    assert_eq!(processed.aggregate.entries().len(), 1);
    assert_eq!(
        processed.aggregate.get(&"txt".to_string()),
        Some(FileStats { token_count: 2, line_count: 1, file_count: 1 })
    );
}

#[test]
fn compose_line_has_the_fixed_wording() {
    assert_eq!(compose_line("rs", "1,234", "56", "7"), "rs: 1,234 tokens, 56 lines, 7 files");
    assert_eq!(compose_line("", "0", "0", "0"), ": 0 tokens, 0 lines, 0 files");
}

#[test]
fn render_writes_lines_then_total() {
    let shown = Report {
        lines: vec![entry("rs", 10, 3, 1), entry("go", 5, 2, 1)],
        total: Some(Totals { token_count: 15, line_count: 5, file_count: 2 }),
    };
    assert_eq!(
        render(&shown, &plain_locale()),
        vec![
            "rs: 10 tokens, 3 lines, 1 files".to_string(),
            "go: 5 tokens, 2 lines, 1 files".to_string(),
            "Total: 15 tokens, 5 lines, 2 files".to_string(),
        ]
    );
}

#[test]
fn render_without_total() {
    let shown = Report { lines: vec![entry("rs", 1234567, 89, 1)], total: None };
    assert_eq!(render(&shown, &plain_locale()), vec!["rs: 1234567 tokens, 89 lines, 1 files".to_string()]);
    assert!(render(&Report { lines: vec![], total: None }, &plain_locale()).is_empty());
}

#[test]
fn render_writes_wide_totals() {
    let shown = Report {
        lines: vec![],
        total: Some(Totals { token_count: u128::MAX, line_count: 1 << 64, file_count: 0 }),
    };
    assert_eq!(
        render(&shown, &plain_locale()),
        vec!["Total: 340282366920938463463374607431768211455 tokens, 18446744073709551616 lines, 0 files"
            .to_string()]
    );
}

#[test]
fn readable_and_unreadable_text_file_share_one_line() {
    let tokenizer = Tokenizer::cl100k_base().unwrap();
    let files = discover(&vec![file("root/a.txt"), file("root/b.txt")], &["txt"]);
    assert_eq!(files.len(), 2);
    let contents = [Some("hello world"), None];
    let mut map = AggregateMap::new();
    for (record, text) in files.iter().zip(contents) {
        let processed = process_file(record, text, &tokenizer);
        assert_eq!(processed.diagnostic, None);
        map = map.merge(&processed.aggregate).unwrap();
    }
    let shown = report(&map);
    assert_eq!(shown.total, None);
    assert_eq!(render(&shown, &plain_locale()), vec!["txt: 2 tokens, 1 lines, 2 files".to_string()]);
}

#[test]
fn two_extensions_are_ordered_and_totalled() {
    let files = discover(&vec![file("root/y.go"), file("root/x.rs")], &[]);
    assert_eq!(files.len(), 2);
    let counted = [text_stats("a\nb", Some(5)), text_stats("a\nb\nc", Some(10))];
    let mut map = AggregateMap::new();
    for (record, stats) in files.iter().zip(counted) {
        map = map.merge(&AggregateMap::singleton(record.extension.clone(), stats)).unwrap();
    }
    assert_eq!(
        render(&report(&map), &plain_locale()),
        vec![
            "rs: 10 tokens, 3 lines, 1 files".to_string(),
            "go: 5 tokens, 2 lines, 1 files".to_string(),
            "Total: 15 tokens, 5 lines, 2 files".to_string(),
        ]
    );
}

#[test]
fn run_does_not_start_outside_a_directory() {
    let start = Walk::new("root/a.txt".to_string(), false);
    assert!(matches!(start, Err(ConfigError::NotADirectory)));
    assert_eq!(
        ConfigError::NotADirectory.message(),
        "Error: The specified directory does not exist or is not a directory"
    );
}

#[test]
fn tokenizer_fault_on_one_file_leaves_the_rest() {
    let good = AggregateMap::singleton("txt".to_string(), text_stats("fine\n", Some(3)));
    let bad = AggregateMap::singleton("txt".to_string(), text_stats("whatever", None));
    let map = good.merge(&bad).unwrap();
    assert_eq!(
        map.get(&"txt".to_string()),
        Some(FileStats { token_count: 3, line_count: 1, file_count: 2 })
    );
    assert_eq!(fault_message("root/bad.txt"), "Error while processing file: root/bad.txt");
    assert_eq!(render(&report(&map), &plain_locale()), vec!["txt: 3 tokens, 1 lines, 2 files".to_string()]);
}

#[test]
fn two_runs_report_the_same() {
    let tokenizer = Tokenizer::cl100k_base().unwrap();
    let run = || {
        let files = discover(&vec![file("root/a.txt"), file("root/b.rs"), file("root/c.rs")], &[]);
        let contents = [Some("hello world"), Some("fn main() {}\n"), None];
        let mut map = AggregateMap::new();
        for (record, text) in files.iter().zip(contents) {
            map = map.merge(&process_file(record, text, &tokenizer).aggregate).unwrap();
        }
        render(&report(&map), &plain_locale())
    };
    assert_eq!(run(), run());
    assert_eq!(run().len(), 3);
}
