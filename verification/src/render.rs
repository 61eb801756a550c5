//! Turning a report into lines of text.
//!
//! Numbers are written in the way of a locale, by the `num_format` crate.
//! Nothing of it is proved here: the items marked as trusted below say what
//! this crate takes for granted about it.

use crate::aggregate::{rows, Row};
use crate::report::Report;
use crate::stats::Counts;
use crate::text::texts;
use vstd::prelude::*;
use vstd::string::*;

verus! {

/// Trusted: makes `num_format::SystemLocale` known as an opaque type.
#[verifier::external_type_specification]
#[verifier::external_body]
pub struct ExSystemLocale(num_format::SystemLocale);

/// Trusted name for the text that `num_format::ToFormattedString::to_formatted_string`
/// returns for the number `n` and the format `locale`. A `SystemLocale` holds
/// the separator and the grouping it was built with, and the text depends on
/// nothing but them and the number.
pub uninterp spec fn formatted(n: int, locale: num_format::SystemLocale) -> Seq<char>;

/// Trusted: `num_format::ToFormattedString::to_formatted_string` on a `u128`.
/// The contract only gives the result its name.
#[verifier::external_body]
fn to_formatted_string(n: u128, locale: &num_format::SystemLocale) -> (text: String)
    ensures
        text@ == formatted(n as int, *locale),
{
    num_format::ToFormattedString::to_formatted_string(&n, locale)
}

/// A line of the report, given its label and its three numbers as text.
pub open spec fn line_text(
    label: Seq<char>,
    tokens: Seq<char>,
    lines: Seq<char>,
    files: Seq<char>,
) -> Seq<char> {
    label + ": "@ + tokens + " tokens, "@ + lines + " lines, "@ + files + " files"@
}

/// A line of the report, its numbers written in the way of `locale`.
pub open spec fn rendered_line(
    label: Seq<char>,
    counts: Counts,
    locale: num_format::SystemLocale,
) -> Seq<char> {
    line_text(
        label,
        formatted(counts.tokens as int, locale),
        formatted(counts.lines as int, locale),
        formatted(counts.files as int, locale),
    )
}

/// The lines of a report: one per extension shown, then the total if there
/// is one.
pub open spec fn rendered(
    lines: Seq<Row>,
    total: Option<Counts>,
    locale: num_format::SystemLocale,
) -> Seq<Seq<char>> {
    let body = Seq::new(
        lines.len(),
        |i: int| rendered_line(lines[i].extension, lines[i].counts, locale),
    );
    match total {
        Some(counts) => body.push(rendered_line("Total"@, counts, locale)),
        None => body,
    }
}

/// The total line is written exactly where the report has a total, and it is
/// written last.
pub proof fn lemma_total_line_last(
    lines: Seq<Row>,
    total: Option<Counts>,
    locale: num_format::SystemLocale,
)
    ensures
        rendered(lines, total, locale).len() == lines.len() + (if total is Some {
            1nat
        } else {
            0nat
        }),
        total matches Some(counts) ==> rendered(lines, total, locale).last() == rendered_line(
            "Total"@,
            counts,
            locale,
        ),
        forall|i: int|
            0 <= i < lines.len() ==> #[trigger] rendered(lines, total, locale)[i] == rendered_line(
                lines[i].extension,
                lines[i].counts,
                locale,
            ),
{
}

/// Puts a line together from its label and its three numbers as text.
pub fn compose_line(label: &str, tokens: &str, lines: &str, files: &str) -> (line: String)
    ensures
        line@ == line_text(label@, tokens@, lines@, files@),
{
    let mut line = String::from_str(label);
    line.append(": ");
    line.append(tokens);
    line.append(" tokens, ");
    line.append(lines);
    line.append(" lines, ");
    line.append(files);
    line.append(" files");
    line
}

/// Writes one line, its numbers in the way of `locale`.
fn render_line(
    label: &str,
    tokens: u128,
    lines: u128,
    files: u128,
    locale: &num_format::SystemLocale,
) -> (line: String)
    ensures
        line@ == rendered_line(
            label@,
            Counts { tokens: tokens as nat, lines: lines as nat, files: files as nat },
            *locale,
        ),
{
    let tokens_text = to_formatted_string(tokens, locale);
    let lines_text = to_formatted_string(lines, locale);
    let files_text = to_formatted_string(files, locale);
    compose_line(label, tokens_text.as_str(), lines_text.as_str(), files_text.as_str())
}

/// Writes the lines of a report in order, the total last.
pub fn render(report: &Report, locale: &num_format::SystemLocale) -> (out: Vec<String>)
    ensures
        texts(out@) == rendered(
            rows(report.lines@),
            match report.total {
                Some(totals) => Some(totals@),
                None => None,
            },
            *locale,
        ),
{
    let mut out: Vec<String> = Vec::new();
    let mut at: usize = 0;
    while at < report.lines.len()
        invariant
            at <= report.lines.len(),
            out.len() == at,
            forall|i: int|
                0 <= i < at ==> (#[trigger] out[i])@ == rendered_line(
                    report.lines[i].extension@,
                    report.lines[i].stats@,
                    *locale,
                ),
        decreases report.lines.len() - at,
    {
        let entry = &report.lines[at];
        let line = render_line(
            entry.extension.as_str(),
            entry.stats.token_count as u128,
            entry.stats.line_count as u128,
            entry.stats.file_count as u128,
            locale,
        );
        out.push(line);
        at = at + 1;
    }
    let ghost body = texts(out@);
    match &report.total {
        Some(totals) => {
            let line = render_line(
                "Total",
                totals.token_count,
                totals.line_count,
                totals.file_count,
                locale,
            );
            out.push(line);
            assert(texts(out@) =~= body.push(rendered_line("Total"@, totals@, *locale)));
        },
        None => {},
    }
    assert(body =~= Seq::new(
        report.lines.len() as nat,
        |i: int|
            rendered_line(rows(report.lines@)[i].extension, rows(report.lines@)[i].counts, *locale),
    ));
    out
}

} // verus!
