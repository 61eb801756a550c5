//! The statistics of one file or of one extension.

use vstd::prelude::*;

verus! {

/// Unbounded counts: the mathematical value of a [`FileStats`].
pub struct Counts {
    pub tokens: nat,
    pub lines: nat,
    pub files: nat,
}

impl Counts {
    /// The counts of nothing at all.
    pub open spec fn zero() -> Counts {
        Counts { tokens: 0, lines: 0, files: 0 }
    }

    /// Field-wise sum.
    pub open spec fn plus(self, other: Counts) -> Counts {
        Counts {
            tokens: self.tokens + other.tokens,
            lines: self.lines + other.lines,
            files: self.files + other.files,
        }
    }

    /// Whether each count fits the machine representation.
    pub open spec fn fits(self) -> bool {
        self.tokens <= u64::MAX && self.lines <= u64::MAX && self.files <= u64::MAX
    }
}

/// Token, line and file counts.
#[derive(Clone, Copy, Debug, PartialEq, Eq, Structural)]
pub struct FileStats {
    pub token_count: u64,
    pub line_count: u64,
    pub file_count: u64,
}

impl View for FileStats {
    type V = Counts;

    open spec fn view(&self) -> Counts {
        Counts {
            tokens: self.token_count as nat,
            lines: self.line_count as nat,
            files: self.file_count as nat,
        }
    }
}

impl FileStats {
    /// What a file contributes when it could not be read or tokenized: it is
    /// counted as present and adds no tokens and no lines.
    pub fn unreadable() -> (stats: FileStats)
        ensures
            stats@ == (Counts { tokens: 0, lines: 0, files: 1 }),
    {
        FileStats { token_count: 0, line_count: 0, file_count: 1 }
    }

    /// What one file with the given token and line counts contributes.
    pub fn of_file(token_count: u64, line_count: u64) -> (stats: FileStats)
        ensures
            stats@ == (Counts { tokens: token_count as nat, lines: line_count as nat, files: 1 }),
    {
        FileStats { token_count, line_count, file_count: 1 }
    }

    /// Field-wise sum, or `None` where a sum does not fit in 64 bits.
    pub fn checked_add(&self, other: &FileStats) -> (sum: Option<FileStats>)
        ensures
            sum is Some <==> self@.plus(other@).fits(),
            sum matches Some(s) ==> s@ == self@.plus(other@),
    {
        let tokens = self.token_count.checked_add(other.token_count);
        let lines = self.line_count.checked_add(other.line_count);
        let files = self.file_count.checked_add(other.file_count);
        match (tokens, lines, files) {
            (Some(token_count), Some(line_count), Some(file_count)) => Some(
                FileStats { token_count, line_count, file_count },
            ),
            _ => None,
        }
    }
}

/// Adding zero changes nothing, and the sum does not depend on order or grouping.
pub proof fn lemma_plus_laws(a: Counts, b: Counts, c: Counts)
    ensures
        a.plus(Counts::zero()) == a,
        Counts::zero().plus(a) == a,
        a.plus(b) == b.plus(a),
        a.plus(b).plus(c) == a.plus(b.plus(c)),
{
}

} // verus!
