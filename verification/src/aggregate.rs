//! The aggregate: accumulated statistics per extension, and the merge that
//! combines two aggregates.

use crate::stats::{Counts, FileStats};
use vstd::prelude::*;

verus! {

/// The statistics in `m` under `key`; zero where `m` has no such key.
pub open spec fn counts_at(m: Map<Seq<char>, Counts>, key: Seq<char>) -> Counts {
    if m.dom().contains(key) {
        m[key]
    } else {
        Counts::zero()
    }
}

/// The aggregate that holds `counts` under `extension` and nothing else.
pub open spec fn single(extension: Seq<char>, counts: Counts) -> Map<Seq<char>, Counts> {
    Map::<Seq<char>, Counts>::empty().insert(extension, counts)
}

/// The merge of two aggregates: every key of either, with the field-wise sum
/// of what the two hold under it.
pub open spec fn merged(a: Map<Seq<char>, Counts>, b: Map<Seq<char>, Counts>) -> Map<
    Seq<char>,
    Counts,
> {
    Map::new(
        |key: Seq<char>| a.dom().contains(key) || b.dom().contains(key),
        |key: Seq<char>| counts_at(a, key).plus(counts_at(b, key)),
    )
}

/// Whether every count in `m` fits the machine representation.
pub open spec fn all_fit(m: Map<Seq<char>, Counts>) -> bool {
    forall|key: Seq<char>| m.dom().contains(key) ==> (#[trigger] m[key]).fits()
}

/// The statistics of one extension.
pub struct Entry {
    pub extension: String,
    pub stats: FileStats,
}

/// The mathematical value of an [`Entry`].
pub struct Row {
    pub extension: Seq<char>,
    pub counts: Counts,
}

impl View for Entry {
    type V = Row;

    open spec fn view(&self) -> Row {
        Row { extension: self.extension@, counts: self.stats@ }
    }
}

/// The values of a sequence of entries.
pub open spec fn rows(entries: Seq<Entry>) -> Seq<Row> {
    Seq::new(entries.len(), |i: int| entries[i]@)
}

/// No extension occurs twice in `entries`.
pub open spec fn keys_distinct(entries: Seq<Entry>) -> bool {
    forall|i: int, j: int|
        0 <= i < j < entries.len() ==> entries[i].extension@ != entries[j].extension@
}

/// Whether `entries` lists exactly what `m` holds, each key once, in any order.
pub open spec fn lists(entries: Seq<Entry>, m: Map<Seq<char>, Counts>) -> bool {
    &&& keys_distinct(entries)
    &&& forall|i: int|
        0 <= i < entries.len() ==> m.dom().contains(#[trigger] entries[i].extension@)
            && m[entries[i].extension@] == entries[i].stats@
    &&& forall|key: Seq<char>|
        m.dom().contains(key) ==> exists|i: int|
            0 <= i < entries.len() && #[trigger] entries[i].extension@ == key
}

spec fn has_key(entries: Seq<Entry>, key: Seq<char>) -> bool {
    exists|i: int| 0 <= i < entries.len() && #[trigger] entries[i].extension@ == key
}

spec fn index_of(entries: Seq<Entry>, key: Seq<char>) -> int {
    choose|i: int| 0 <= i < entries.len() && #[trigger] entries[i].extension@ == key
}

spec fn map_of(entries: Seq<Entry>) -> Map<Seq<char>, Counts> {
    Map::new(
        |key: Seq<char>| has_key(entries, key),
        |key: Seq<char>| entries[index_of(entries, key)].stats@,
    )
}

proof fn lemma_map_of_lists(entries: Seq<Entry>)
    requires
        keys_distinct(entries),
    ensures
        lists(entries, map_of(entries)),
        all_fit(map_of(entries)),
{
    assert forall|i: int| 0 <= i < entries.len() implies map_of(entries).dom().contains(
        #[trigger] entries[i].extension@,
    ) && map_of(entries)[entries[i].extension@] == entries[i].stats@ by {
        assert(has_key(entries, entries[i].extension@));
    }
}

proof fn lemma_map_of_push(entries: Seq<Entry>, entry: Entry)
    requires
        keys_distinct(entries),
        !has_key(entries, entry.extension@),
    ensures
        keys_distinct(entries.push(entry)),
        map_of(entries.push(entry)) == map_of(entries).insert(entry.extension@, entry.stats@),
{
    let longer = entries.push(entry);
    assert(keys_distinct(longer)) by {
        assert forall|i: int, j: int| 0 <= i < j < longer.len() implies longer[i].extension@
            != longer[j].extension@ by {
            if j == entries.len() {
                assert(entries[i].extension@ == longer[i].extension@);
            }
        }
    }
    lemma_map_of_lists(entries);
    lemma_map_of_lists(longer);
    let target = map_of(entries).insert(entry.extension@, entry.stats@);
    assert forall|key: Seq<char>| map_of(longer).dom().contains(key) <==> target.dom().contains(
        key,
    ) by {
        if has_key(longer, key) {
            let i = index_of(longer, key);
            if i < entries.len() {
                assert(entries[i].extension@ == key);
            }
        }
        if has_key(entries, key) {
            let i = index_of(entries, key);
            assert(longer[i].extension@ == key);
        }
        if key == entry.extension@ {
            assert(longer[entries.len() as int].extension@ == key);
        }
    }
    assert forall|key: Seq<char>| map_of(longer).dom().contains(key) implies map_of(longer)[key]
        == target[key] by {
        let i = index_of(longer, key);
        if i < entries.len() {
            assert(entries[i].extension@ == key);
        }
    }
    assert(map_of(longer) =~= target);
}

proof fn lemma_map_of_update(entries: Seq<Entry>, at: int, entry: Entry)
    requires
        keys_distinct(entries),
        0 <= at < entries.len(),
        entries[at].extension@ == entry.extension@,
    ensures
        keys_distinct(entries.update(at, entry)),
        map_of(entries.update(at, entry)) == map_of(entries).insert(
            entry.extension@,
            entry.stats@,
        ),
{
    let changed = entries.update(at, entry);
    assert(keys_distinct(changed)) by {
        assert forall|i: int, j: int| 0 <= i < j < changed.len() implies changed[i].extension@
            != changed[j].extension@ by {
            assert(changed[i].extension@ == entries[i].extension@);
            assert(changed[j].extension@ == entries[j].extension@);
        }
    }
    lemma_map_of_lists(entries);
    lemma_map_of_lists(changed);
    let target = map_of(entries).insert(entry.extension@, entry.stats@);
    assert forall|key: Seq<char>| map_of(changed).dom().contains(key) <==> target.dom().contains(
        key,
    ) by {
        if has_key(changed, key) {
            let i = index_of(changed, key);
            assert(entries[i].extension@ == key);
        }
        if has_key(entries, key) {
            let i = index_of(entries, key);
            assert(changed[i].extension@ == key);
        }
        if key == entry.extension@ {
            assert(changed[at].extension@ == key);
        }
    }
    assert forall|key: Seq<char>| map_of(changed).dom().contains(key) implies map_of(changed)[key]
        == target[key] by {
        let i = index_of(changed, key);
        assert(entries[i].extension@ == key);
        if i != at {
            assert(changed[i] == entries[i]);
        }
    }
    assert(map_of(changed) =~= target);
}

proof fn lemma_map_of_take(entries: Seq<Entry>, upto: int)
    requires
        keys_distinct(entries),
        0 <= upto < entries.len(),
    ensures
        keys_distinct(entries.take(upto)),
        !has_key(entries.take(upto), entries[upto].extension@),
        map_of(entries.take(upto + 1)) == map_of(entries.take(upto)).insert(
            entries[upto].extension@,
            entries[upto].stats@,
        ),
{
    let front = entries.take(upto);
    assert(keys_distinct(front)) by {
        assert forall|i: int, j: int| 0 <= i < j < front.len() implies front[i].extension@
            != front[j].extension@ by {
            assert(front[i] == entries[i] && front[j] == entries[j]);
        }
    }
    if has_key(front, entries[upto].extension@) {
        let i = index_of(front, entries[upto].extension@);
        assert(front[i] == entries[i]);
    }
    assert(entries.take(upto + 1) == front.push(entries[upto]));
    lemma_map_of_push(front, entries[upto]);
}

/// Merging in one more key of `b` changes the merge at that key alone.
proof fn lemma_merged_insert(
    a: Map<Seq<char>, Counts>,
    b: Map<Seq<char>, Counts>,
    key: Seq<char>,
    value: Counts,
)
    requires
        !b.dom().contains(key),
    ensures
        merged(a, b.insert(key, value)) == merged(a, b).insert(
            key,
            counts_at(a, key).plus(value),
        ),
{
    assert(merged(a, b.insert(key, value)) =~= merged(a, b).insert(
        key,
        counts_at(a, key).plus(value),
    ));
}

fn position(entries: &Vec<Entry>, extension: &String) -> (found: Option<usize>)
    ensures
        match found {
            Some(at) => at < entries.len() && entries[at as int].extension@ == extension@,
            None => !has_key(entries@, extension@),
        },
{
    let mut at: usize = 0;
    while at < entries.len()
        invariant
            at <= entries.len(),
            forall|i: int| 0 <= i < at ==> entries[i].extension@ != extension@,
        decreases entries.len() - at,
    {
        if entries[at].extension == *extension {
            return Some(at);
        }
        at = at + 1;
    }
    None
}

/// Accumulated statistics per extension. No extension occurs twice; the order
/// in which the extensions are held has no meaning.
pub struct AggregateMap {
    entries: Vec<Entry>,
}

impl View for AggregateMap {
    type V = Map<Seq<char>, Counts>;

    closed spec fn view(&self) -> Map<Seq<char>, Counts> {
        map_of(self.entries@)
    }
}

impl AggregateMap {
    #[verifier::type_invariant]
    spec fn keys_occur_once(self) -> bool {
        keys_distinct(self.entries@)
    }

    /// The empty aggregate, the identity of [`AggregateMap::merge`].
    pub fn new() -> (map: AggregateMap)
        ensures
            map@ == Map::<Seq<char>, Counts>::empty(),
    {
        let map = AggregateMap { entries: Vec::new() };
        assert(map@ =~= Map::<Seq<char>, Counts>::empty());
        map
    }

    /// The aggregate of a single file.
    pub fn singleton(extension: String, stats: FileStats) -> (map: AggregateMap)
        ensures
            map@ == single(extension@, stats@),
    {
        let ghost entry = Entry { extension, stats };
        let mut entries: Vec<Entry> = Vec::new();
        entries.push(Entry { extension, stats });
        proof {
            lemma_map_of_push(Seq::<Entry>::empty(), entry);
            assert(entries@ == Seq::<Entry>::empty().push(entry));
            assert(map_of(Seq::<Entry>::empty()) =~= Map::<Seq<char>, Counts>::empty());
        }
        AggregateMap { entries }
    }

    /// The extensions with their statistics, each once, in no particular order.
    pub fn entries(&self) -> (entries: &Vec<Entry>)
        ensures
            lists(entries@, self@),
    {
        proof {
            use_type_invariant(self);
            lemma_map_of_lists(self.entries@);
        }
        &self.entries
    }

    /// The statistics held under `extension`.
    pub fn get(&self, extension: &String) -> (stats: Option<FileStats>)
        ensures
            stats is Some <==> self@.dom().contains(extension@),
            stats matches Some(s) ==> s@ == self@[extension@],
    {
        proof {
            use_type_invariant(self);
            lemma_map_of_lists(self.entries@);
        }
        match position(&self.entries, extension) {
            Some(at) => Some(self.entries[at].stats),
            None => None,
        }
    }

    /// Merges `other` into `self`: for each extension of either, the
    /// field-wise sum. `None` exactly where one of those sums exceeds 64 bits.
    pub fn merge(self, other: &AggregateMap) -> (sum: Option<AggregateMap>)
        ensures
            sum is Some <==> all_fit(merged(self@, other@)),
            sum matches Some(map) ==> map@ == merged(self@, other@),
    {
        proof {
            use_type_invariant(&self);
            use_type_invariant(other);
            lemma_map_of_lists(other.entries@);
        }
        let ghost mine = self@;
        let AggregateMap { mut entries } = self;
        assert(map_of(other.entries@.take(0)) =~= Map::<Seq<char>, Counts>::empty());
        assert(merged(mine, Map::<Seq<char>, Counts>::empty()) =~= mine);
        let mut done: usize = 0;
        while done < other.entries.len()
            invariant
                done <= other.entries.len(),
                mine == self@,
                keys_distinct(other.entries@),
                lists(other.entries@, other@),
                keys_distinct(entries@),
                map_of(entries@) == merged(mine, map_of(other.entries@.take(done as int))),
            decreases other.entries.len() - done,
        {
            let item = &other.entries[done];
            let ghost seen = map_of(other.entries@.take(done as int));
            let ghost key = item.extension@;
            proof {
                lemma_map_of_take(other.entries@, done as int);
                lemma_map_of_lists(entries@);
            }
            match position(&entries, &item.extension) {
                Some(at) => {
                    assert(map_of(entries@)[key] == entries[at as int].stats@);
                    assert(entries[at as int].stats@ == counts_at(mine, key));
                    match entries[at].stats.checked_add(&item.stats) {
                        Some(total) => {
                            let ghost before = entries@;
                            entries[at].stats = total;
                            proof {
                                lemma_map_of_update(before, at as int, entries[at as int]);
                                assert(entries@ == before.update(at as int, entries[at as int]));
                                lemma_merged_insert(mine, seen, key, item.stats@);
                            }
                        },
                        None => {
                            proof {
                                let all = merged(mine, other@);
                                assert(other.entries@[done as int].extension@ == key);
                                assert(other@.dom().contains(key) && other@[key] == item.stats@);
                                assert(all.dom().contains(key));
                                assert(!all[key].fits());
                            }
                            return None;
                        },
                    }
                },
                None => {
                    let ghost before = entries@;
                    let entry = Entry { extension: item.extension.clone(), stats: item.stats };
                    proof {
                        lemma_map_of_push(before, entry);
                        lemma_merged_insert(mine, seen, key, item.stats@);
                        assert(!mine.dom().contains(key)) by {
                            if mine.dom().contains(key) {
                                assert(merged(mine, seen).dom().contains(key));
                            }
                        }
                    }
                    entries.push(entry);
                },
            }
            done = done + 1;
        }
        proof {
            assert(other.entries@.take(done as int) == other.entries@);
            lemma_map_of_lists(entries@);
        }
        Some(AggregateMap { entries })
    }
}

} // verus!
