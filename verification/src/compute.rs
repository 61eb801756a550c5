//! What a single file contributes to the aggregate.
//!
//! A file that cannot be read, or on which the tokenizer fails, is still
//! counted as a file; it adds no tokens and no lines, and the rest of the run
//! is not touched by it.

use crate::aggregate::{single, AggregateMap};
use crate::discover::FileRecord;
use crate::stats::{Counts, FileStats};
use crate::text::{count_lines, line_count};
use crate::tokenizer::Tokenizer;
use vstd::prelude::*;
use vstd::string::*;

verus! {

/// The text that was read from a file, if any.
pub open spec fn text_of(contents: Option<&str>) -> Option<Seq<char>> {
    match contents {
        Some(text) => Some(text@),
        None => None,
    }
}

/// The counts of a file that is counted as present and nothing more.
pub open spec fn unreadable_counts() -> Counts {
    Counts { tokens: 0, lines: 0, files: 1 }
}

/// The counts of a file whose text was read, given the number of tokens that
/// the tokenizer found in it, or `None` where the tokenizer failed.
pub open spec fn text_counts(text: Seq<char>, tokens: Option<nat>) -> Counts {
    match tokens {
        Some(n) => Counts { tokens: n, lines: line_count(text), files: 1 },
        None => unreadable_counts(),
    }
}

/// The counts of a file, given its text, or `None` where it could not be read
/// as text.
pub open spec fn file_counts(contents: Option<Seq<char>>, tokenizer: Tokenizer) -> Counts {
    match contents {
        Some(text) => text_counts(text, tokenizer.token_count(text)),
        None => unreadable_counts(),
    }
}

/// Whether the tokenizer fails on the contents of a file.
pub open spec fn tokenizer_fails(contents: Option<Seq<char>>, tokenizer: Tokenizer) -> bool {
    match contents {
        Some(text) => tokenizer.token_count(text) is None,
        None => false,
    }
}

/// The text of the message that names a file on which the tokenizer failed.
pub open spec fn fault_text(path: Seq<char>) -> Seq<char> {
    "Error while processing file: "@ + path
}

/// The statistics of one file, and whether the tokenizer failed on it.
pub struct Counted {
    pub stats: FileStats,
    pub faulted: bool,
}

/// What processing one file came to: its aggregate, and a message for the
/// operator where the tokenizer failed on it.
pub struct Processed {
    pub aggregate: AggregateMap,
    pub diagnostic: Option<String>,
}

/// Every file counts as one file, whether or not it could be read and
/// tokenized; one that could not adds no tokens and no lines.
pub proof fn lemma_file_counted_once(contents: Option<Seq<char>>, tokenizer: Tokenizer)
    ensures
        file_counts(contents, tokenizer).files == 1,
        contents is None || tokenizer_fails(contents, tokenizer) ==> file_counts(
            contents,
            tokenizer,
        ) == unreadable_counts(),
{
}

/// The statistics of a file whose text was read, given what the tokenizer
/// returned for it.
pub fn text_stats(text: &str, token_count: Option<usize>) -> (stats: FileStats)
    ensures
        stats@ == text_counts(
            text@,
            match token_count {
                Some(n) => Some(n as nat),
                None => None,
            },
        ),
{
    match token_count {
        Some(n) => FileStats::of_file(n as u64, count_lines(text)),
        None => FileStats::unreadable(),
    }
}

/// Computes the statistics of one file from its contents: `None` stands for a
/// file that could not be opened or is not valid text.
pub fn count_tokens_and_lines(contents: Option<&str>, tokenizer: &Tokenizer) -> (counted: Counted)
    ensures
        counted.stats@ == file_counts(text_of(contents), *tokenizer),
        counted.faulted == tokenizer_fails(text_of(contents), *tokenizer),
{
    match contents {
        Some(text) => {
            let token_count = tokenizer.count(text);
            Counted { stats: text_stats(text, token_count), faulted: token_count.is_none() }
        },
        None => Counted { stats: FileStats::unreadable(), faulted: false },
    }
}

/// The message that names a file on which the tokenizer failed.
pub fn fault_message(path: &str) -> (message: String)
    ensures
        message@ == fault_text(path@),
{
    let mut message = String::from_str("Error while processing file: ");
    message.append(path);
    message
}

/// Processes one selected file: its statistics, filed under its extension.
pub fn process_file(
    record: &FileRecord,
    contents: Option<&str>,
    tokenizer: &Tokenizer,
) -> (processed: Processed)
    ensures
        processed.aggregate@ == single(
            record.extension@,
            file_counts(text_of(contents), *tokenizer),
        ),
        match processed.diagnostic {
            Some(message) => tokenizer_fails(text_of(contents), *tokenizer) && message@ == fault_text(record.path@),
            None => !tokenizer_fails(text_of(contents), *tokenizer),
        },
{
    let counted = count_tokens_and_lines(contents, tokenizer);
    let diagnostic = if counted.faulted {
        Some(fault_message(record.path.as_str()))
    } else {
        None
    };
    let aggregate = AggregateMap::singleton(record.extension.clone(), counted.stats);
    Processed { aggregate, diagnostic }
}

} // verus!
