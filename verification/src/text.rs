//! Facts about text that the pipeline needs: how many lines a file has and
//! which extension a path carries.

use vstd::prelude::*;
use vstd::string::*;
use vstd::utf8::*;

verus! {

/// The contents of a sequence of strings.
pub open spec fn texts(strings: Seq<String>) -> Seq<Seq<char>> {
    Seq::new(strings.len(), |i: int| strings[i]@)
}

/// Number of line feeds in `text`.
pub open spec fn newline_count(text: Seq<char>) -> nat
    decreases text.len(),
{
    if text.len() == 0 {
        0
    } else {
        newline_count(text.drop_last()) + if text.last() == '\n' {
            1nat
        } else {
            0nat
        }
    }
}

/// Number of lines of `text`: every line feed ends a line, and what follows the
/// last line feed counts as one more line unless it is empty.
pub open spec fn line_count(text: Seq<char>) -> nat {
    newline_count(text) + if text.len() > 0 && text.last() != '\n' {
        1nat
    } else {
        0nat
    }
}

/// Position of the last occurrence of `c` in `s`, or -1 where there is none.
pub open spec fn last_index_of(s: Seq<char>, c: char) -> int
    decreases s.len(),
{
    if s.len() == 0 {
        -1
    } else if s.last() == c {
        s.len() - 1
    } else {
        last_index_of(s.drop_last(), c)
    }
}

/// The extension of the file that `path` names: what follows the last `.` of
/// the file name, the file name being what follows the last `/`. Empty where
/// the file name holds no `.`.
pub open spec fn extension_of(path: Seq<char>) -> Seq<char> {
    let dot = last_index_of(path, '.');
    if dot > last_index_of(path, '/') {
        path.skip(dot + 1)
    } else {
        Seq::empty()
    }
}

/// `last_index_of` is the largest position that holds `c`.
pub proof fn lemma_last_index_of(s: Seq<char>, c: char)
    ensures
        -1 <= last_index_of(s, c) < s.len(),
        last_index_of(s, c) >= 0 ==> s[last_index_of(s, c)] == c,
        forall|i: int| last_index_of(s, c) < i < s.len() ==> s[i] != c,
    decreases s.len(),
{
    if s.len() > 0 && s.last() != c {
        let front = s.drop_last();
        lemma_last_index_of(front, c);
        assert forall|i: int| last_index_of(s, c) < i < s.len() implies s[i] != c by {
            if i < front.len() {
                assert(front[i] == s[i]);
            }
        }
    }
}

/// A text has at most as many characters as its UTF-8 encoding has bytes.
proof fn lemma_chars_at_most_bytes(chars: Seq<char>)
    ensures
        chars.len() <= encode_utf8(chars).len(),
    decreases chars.len(),
{
    if chars.len() > 0 {
        lemma_chars_at_most_bytes(chars.drop_first());
    }
}

/// Counts the lines of `text`.
pub fn count_lines(text: &str) -> (n: u64)
    ensures
        n == line_count(text@),
{
    let bytes = text.as_bytes().len();
    proof {
        lemma_chars_at_most_bytes(text@);
    }
    let mut newlines: u64 = 0;
    let mut open_line = false;
    for c in it: text.chars()
        invariant
            it.seq() == text@,
            text@.len() <= bytes,
            newlines == newline_count(text@.take(it.index() as int)),
            newlines + (if open_line { 1nat } else { 0nat }) <= it.index(),
            open_line == (it.index() > 0 && text@[it.index() - 1] != '\n'),
    {
        proof {
            let next = text@.take(it.index() + 1);
            assert(next.drop_last() == text@.take(it.index() as int));
            assert(next.last() == c);
        }
        if c == '\n' {
            newlines = newlines + 1;
            open_line = false;
        } else {
            open_line = true;
        }
    }
    assert(text@.take(text@.len() as int) == text@);
    if open_line {
        newlines + 1
    } else {
        newlines
    }
}

/// Computes the extension that `path` carries.
pub fn extension(path: &str) -> (ext: String)
    ensures
        ext@ == extension_of(path@),
{
    let bytes = path.as_bytes().len();
    proof {
        lemma_chars_at_most_bytes(path@);
    }
    let mut dot: Option<usize> = None;
    let mut slash: Option<usize> = None;
    let mut len: usize = 0;
    for c in it: path.chars()
        invariant
            it.seq() == path@,
            path@.len() <= bytes,
            len == it.index(),
            match dot {
                Some(d) => d == last_index_of(path@.take(len as int), '.'),
                None => last_index_of(path@.take(len as int), '.') == -1,
            },
            match slash {
                Some(s) => s == last_index_of(path@.take(len as int), '/'),
                None => last_index_of(path@.take(len as int), '/') == -1,
            },
    {
        proof {
            let next = path@.take(len + 1);
            assert(next.drop_last() == path@.take(len as int));
            assert(next.last() == c);
        }
        if c == '.' {
            dot = Some(len);
        } else if c == '/' {
            slash = Some(len);
        }
        len = len + 1;
    }
    assert(path@.take(len as int) == path@);
    proof {
        lemma_last_index_of(path@, '.');
    }
    match dot {
        Some(d) => {
            let in_name = match slash {
                Some(s) => d > s,
                None => true,
            };
            if in_name {
                let tail = path.substring_char(d + 1, len);
                assert(path@.subrange(d + 1, len as int) == path@.skip(d + 1));
                String::from_str(tail)
            } else {
                String::new()
            }
        },
        None => String::new(),
    }
}

} // verus!
