//! Finding the files to count: which entries of a directory are selected, and
//! the bookkeeping of a walk over a directory tree.
//!
//! Reading a directory is the caller's part. The caller asks the walk for the
//! next directory, reads it, and hands the listing back; the walk decides what
//! is kept. A symbolic link to a directory is neither walked nor counted, so
//! that a walk cannot go round in a cycle of links; a symbolic link to a file
//! is a file like any other.

use crate::config::ConfigError;
use crate::text::{extension, extension_of, texts};
use vstd::prelude::*;

verus! {

/// One entry of a directory listing: its path, whether it is a directory
/// (for a symbolic link: whether it leads to one), and whether it is a
/// symbolic link.
pub struct DirEntry {
    pub path: String,
    pub is_dir: bool,
    pub is_symlink: bool,
}

/// A file that was selected, with the extension of its path.
pub struct FileRecord {
    pub path: String,
    pub extension: String,
}

/// The mathematical value of a [`FileRecord`].
pub struct Record {
    pub path: Seq<char>,
    pub extension: Seq<char>,
}

impl View for FileRecord {
    type V = Record;

    open spec fn view(&self) -> Record {
        Record { path: self.path@, extension: self.extension@ }
    }
}

/// The record of the file at `path`: the path with the extension it carries.
pub open spec fn record_of(path: Seq<char>) -> Record {
    Record { path, extension: extension_of(path) }
}

/// The extensions that a list of extensions names.
pub open spec fn filter_of(extensions: Seq<String>) -> Set<Seq<char>> {
    Set::new(|e: Seq<char>| exists|i: int| 0 <= i < extensions.len() && #[trigger] extensions[i]@ == e)
}

/// Whether a file with the given extension passes the filter: the empty
/// filter lets every file pass, any other only the extensions it holds.
pub open spec fn admits(filter: Set<Seq<char>>, extension: Seq<char>) -> bool {
    filter == Set::<Seq<char>>::empty() || filter.contains(extension)
}

/// Whether the entry is a file that passes the filter.
pub open spec fn selects(filter: Set<Seq<char>>, entry: DirEntry) -> bool {
    !entry.is_dir && admits(filter, extension_of(entry.path@))
}

/// The records of the files of a listing that pass the filter, in listing
/// order.
pub open spec fn selected(entries: Seq<DirEntry>, filter: Set<Seq<char>>) -> Seq<Record>
    decreases entries.len(),
{
    if entries.len() == 0 {
        Seq::empty()
    } else if selects(filter, entries.last()) {
        selected(entries.drop_last(), filter).push(record_of(entries.last().path@))
    } else {
        selected(entries.drop_last(), filter)
    }
}

/// Whether the entry is a directory to walk into.
pub open spec fn walks(entry: DirEntry) -> bool {
    entry.is_dir && !entry.is_symlink
}

/// The paths of the directories of a listing that are walked into, in
/// listing order.
pub open spec fn subdirectories(entries: Seq<DirEntry>) -> Seq<Seq<char>>
    decreases entries.len(),
{
    if entries.len() == 0 {
        Seq::empty()
    } else if walks(entries.last()) {
        subdirectories(entries.drop_last()).push(entries.last().path@)
    } else {
        subdirectories(entries.drop_last())
    }
}

/// The values of a sequence of records.
pub open spec fn records(files: Seq<FileRecord>) -> Seq<Record> {
    Seq::new(files.len(), |i: int| files[i]@)
}

/// A filter that holds the extension of every file of a listing selects what
/// the empty filter selects.
pub proof fn lemma_covering_filter_selects_all(entries: Seq<DirEntry>, filter: Set<Seq<char>>)
    requires
        forall|i: int|
            0 <= i < entries.len() && !(#[trigger] entries[i]).is_dir ==> filter.contains(
                extension_of(entries[i].path@),
            ),
    ensures
        selected(entries, filter) == selected(entries, Set::<Seq<char>>::empty()),
    decreases entries.len(),
{
    if entries.len() > 0 {
        let front = entries.drop_last();
        assert forall|i: int| 0 <= i < front.len() && !(#[trigger] front[i]).is_dir implies filter.contains(
            extension_of(front[i].path@),
        ) by {
            assert(front[i] == entries[i]);
        }
        lemma_covering_filter_selects_all(front, filter);
        let last = entries[entries.len() - 1];
        assert(!last.is_dir ==> filter.contains(extension_of(last.path@)));
    }
}

/// Tells whether a file with the given extension passes the filter that
/// `extensions` names.
pub fn passes(extensions: &Vec<String>, extension: &String) -> (pass: bool)
    ensures
        pass == admits(filter_of(extensions@), extension@),
{
    if extensions.len() == 0 {
        assert(filter_of(extensions@) =~= Set::<Seq<char>>::empty());
        return true;
    }
    assert(filter_of(extensions@).contains(extensions@[0]@));
    let mut at: usize = 0;
    while at < extensions.len()
        invariant
            at <= extensions.len(),
            forall|i: int| 0 <= i < at ==> extensions[i]@ != extension@,
        decreases extensions.len() - at,
    {
        if extensions[at] == *extension {
            return true;
        }
        at = at + 1;
    }
    false
}

/// The state of a walk over a directory tree: the directories still to be
/// read and the files selected so far.
pub struct Walk {
    pending: Vec<String>,
    found: Vec<FileRecord>,
}

impl Walk {
    /// The paths of the directories still to be read.
    pub closed spec fn pending(&self) -> Seq<Seq<char>> {
        texts(self.pending@)
    }

    /// The files selected so far.
    pub closed spec fn found(&self) -> Seq<Record> {
        records(self.found@)
    }

    /// Starts a walk at `root`, given whether `root` is a directory. Where it
    /// is, the walk has the root to read and nothing found; where it is not,
    /// there is no walk.
    pub fn new(root: String, root_is_dir: bool) -> (start: Result<Walk, ConfigError>)
        ensures
            match start {
                Ok(walk) => root_is_dir && walk.pending() == seq![root@] && walk.found() == Seq::<
                    Record,
                >::empty(),
                Err(error) => !root_is_dir && error == ConfigError::NotADirectory,
            },
    {
        if !root_is_dir {
            return Err(ConfigError::NotADirectory);
        }
        let mut pending: Vec<String> = Vec::new();
        pending.push(root);
        let walk = Walk { pending, found: Vec::new() };
        assert(walk.pending() =~= seq![root@]);
        assert(walk.found() =~= Seq::<Record>::empty());
        Ok(walk)
    }

    /// Takes the directory to read next, the one added last. `None` where no
    /// directory is left: the walk is over.
    pub fn next_directory(&mut self) -> (next: Option<String>)
        ensures
            final(self).found() == old(self).found(),
            match next {
                Some(path) => old(self).pending().len() > 0 && path@ == old(self).pending().last()
                    && final(self).pending() == old(self).pending().drop_last(),
                None => old(self).pending().len() == 0 && final(self).pending() == old(
                    self,
                ).pending(),
            },
    {
        let next = self.pending.pop();
        assert(self.pending() =~= if next is Some {
            old(self).pending().drop_last()
        } else {
            old(self).pending()
        });
        next
    }

    /// Takes in the listing of a directory that was asked for. A directory
    /// that could not be read (`None`) adds nothing. Of a listing, the
    /// directories are added to those still to be read, and the files that
    /// pass the filter to those found.
    pub fn record_listing(&mut self, listing: Option<&Vec<DirEntry>>, extensions: &Vec<String>)
        ensures
            match listing {
                Some(entries) => {
                    &&& final(self).pending() == old(self).pending() + subdirectories(entries@)
                    &&& final(self).found() == old(self).found() + selected(
                        entries@,
                        filter_of(extensions@),
                    )
                },
                None => final(self).pending() == old(self).pending() && final(self).found() == old(
                    self,
                ).found(),
            },
    {
        let entries = match listing {
            Some(entries) => entries,
            None => {
                return ;
            },
        };
        let ghost filter = filter_of(extensions@);
        let mut at: usize = 0;
        while at < entries.len()
            invariant
                at <= entries.len(),
                filter == filter_of(extensions@),
                self.pending() == old(self).pending() + subdirectories(entries@.take(at as int)),
                self.found() == old(self).found() + selected(entries@.take(at as int), filter),
            decreases entries.len() - at,
        {
            let entry = &entries[at];
            proof {
                let next = entries@.take(at + 1);
                assert(next.drop_last() == entries@.take(at as int));
                assert(next.last() == *entry);
            }
            let ghost pending_before = self.pending();
            let ghost found_before = self.found();
            if entry.is_dir {
                if !entry.is_symlink {
                    self.pending.push(entry.path.clone());
                    assert(self.pending() =~= pending_before.push(entry.path@));
                }
            } else {
                let ext = extension(entry.path.as_str());
                if passes(extensions, &ext) {
                    self.found.push(FileRecord { path: entry.path.clone(), extension: ext });
                    assert(self.found() =~= found_before.push(record_of(entry.path@)));
                }
            }
            at = at + 1;
        }
        assert(entries@.take(at as int) == entries@);
    }

    /// Ends the walk and hands out the files found, in the order in which
    /// they were found.
    pub fn into_files(self) -> (files: Vec<FileRecord>)
        ensures
            records(files@) == self.found(),
    {
        self.found
    }
}

} // verus!
