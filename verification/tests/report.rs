use tokcount::aggregate::AggregateMap;
use tokcount::order::text_less;
use tokcount::report::{report, Totals};
use tokcount::stats::FileStats;

fn build(items: &[(&str, u64, u64, u64)]) -> AggregateMap {
    items.iter().fold(AggregateMap::new(), |acc, item| {
        let stats = FileStats { token_count: item.1, line_count: item.2, file_count: item.3 };
        acc.merge(&AggregateMap::singleton(item.0.to_string(), stats)).unwrap()
    })
}

fn shown(map: &AggregateMap) -> Vec<(String, u64, u64, u64)> {
    report(map)
        .lines
        .iter()
        .map(|e| (e.extension.clone(), e.stats.token_count, e.stats.line_count, e.stats.file_count))
        .collect()
}

fn line(extension: &str, tokens: u64, lines: u64, files: u64) -> (String, u64, u64, u64) {
    (extension.to_string(), tokens, lines, files)
}

#[test]
fn report_of_empty_map_is_empty() {
    let result = report(&AggregateMap::new());
    assert!(result.lines.is_empty());
    assert_eq!(result.total, None);
}

#[test]
fn report_orders_by_falling_token_count() {
    let map = build(&[("go", 5, 2, 1), ("rs", 10, 3, 1), ("py", 7, 9, 4)]);
    assert_eq!(shown(&map), vec![line("rs", 10, 3, 1), line("py", 7, 9, 4), line("go", 5, 2, 1)]);
}

#[test]
fn report_breaks_ties_by_extension() {
    let map = build(&[("rs", 5, 1, 1), ("", 5, 4, 1), ("go", 5, 2, 1), ("c", 9, 1, 1), ("ab", 5, 3, 1)]);
    assert_eq!(
        shown(&map),
        vec![line("c", 9, 1, 1), line("", 5, 4, 1), line("ab", 5, 3, 1), line("go", 5, 2, 1), line("rs", 5, 1, 1)]
    );
}

#[test]
fn report_does_not_depend_on_insertion_order() {
    let items = [("rs", 5, 1, 1), ("go", 5, 2, 1), ("c", 9, 1, 1), ("txt", 0, 0, 3), ("ab", 5, 3, 1)];
    let mut reversed = items;
    reversed.reverse();
    assert_eq!(shown(&build(&items)), shown(&build(&reversed)));
    assert_eq!(report(&build(&items)).total, report(&build(&reversed)).total);
}

#[test]
fn report_omits_extensions_without_tokens() {
    let map = build(&[("txt", 0, 0, 2), ("rs", 10, 3, 1), ("bin", 0, 5, 1)]);
    assert_eq!(shown(&map), vec![line("rs", 10, 3, 1)]);
}

#[test]
fn single_line_has_no_total() {
    assert_eq!(report(&build(&[("rs", 10, 3, 1)])).total, None);
    assert_eq!(report(&build(&[("rs", 10, 3, 1), ("txt", 0, 0, 5)])).total, None);
}

#[test]
fn total_sums_the_lines_shown() {
    let result = report(&build(&[("rs", 10, 3, 1), ("go", 5, 2, 1), ("txt", 0, 0, 7)]));
    assert_eq!(result.lines.len(), 2);
    assert_eq!(result.total, Some(Totals { token_count: 15, line_count: 5, file_count: 2 }));
}

#[test]
fn total_is_wider_than_its_parts() {
    let result = report(&build(&[("a", u64::MAX, u64::MAX, u64::MAX), ("b", u64::MAX, 1, 1)]));
    let twice = 2 * (u64::MAX as u128);
    assert_eq!(
        result.total,
        Some(Totals { token_count: twice, line_count: u64::MAX as u128 + 1, file_count: u64::MAX as u128 + 1 })
    );
}

#[test]
fn text_order_is_by_code_point() {
    assert!(text_less("", "a"));
    assert!(!text_less("a", ""));
    assert!(!text_less("a", "a"));
    assert!(text_less("a", "ab"));
    assert!(text_less("ab", "b"));
    assert!(text_less("Z", "a"));
    assert!(text_less("z", "é"));
    assert!(text_less("é", "日"));
    assert!(!text_less("日", "é"));
}

#[test]
fn text_order_agrees_with_std() {
    let samples = ["", "a", "ab", "b", "B", "rs", "rust", "é", "日本", "~", "a.b", "\u{10000}", "\u{ffff}"];
    for a in samples {
        for b in samples {
            assert_eq!(text_less(a, b), a < b);
        }
    }
}
