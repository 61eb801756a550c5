//! Why files may be aggregated in any order and any grouping: the algebra of
//! the merge, stated over the mathematical aggregates.

use crate::aggregate::{merged, single};
use crate::stats::Counts;
use vstd::prelude::*;

verus! {

/// What one file adds to the aggregate: its statistics under its extension.
pub struct Contribution {
    pub extension: Seq<char>,
    pub counts: Counts,
}

/// The aggregate of a sequence of files, merged in one by one from the left.
pub open spec fn aggregate_of(files: Seq<Contribution>) -> Map<Seq<char>, Counts>
    decreases files.len(),
{
    if files.len() == 0 {
        Map::<Seq<char>, Counts>::empty()
    } else {
        merged(aggregate_of(files.drop_last()), single(files.last().extension, files.last().counts))
    }
}

/// The field-wise sum of all contributions.
pub open spec fn sum_of(files: Seq<Contribution>) -> Counts
    decreases files.len(),
{
    if files.len() == 0 {
        Counts::zero()
    } else {
        sum_of(files.drop_last()).plus(files.last().counts)
    }
}

/// The field-wise sum over all extensions of a finite aggregate.
pub open spec fn total(m: Map<Seq<char>, Counts>) -> Counts
    decreases m.dom().len(),
    when m.dom().finite()
{
    if m.dom().len() == 0 {
        Counts::zero()
    } else {
        let key = m.dom().choose();
        m[key].plus(total(m.remove(key)))
    }
}

/// A way to reduce files to one aggregate: a group is aggregated from the
/// left, and two partial results are merged.
pub enum Reduction {
    Group(Seq<Contribution>),
    Join(Box<Reduction>, Box<Reduction>),
}

impl Reduction {
    /// The files that the reduction covers, from left to right.
    pub open spec fn files(self) -> Seq<Contribution>
        decreases self,
    {
        match self {
            Reduction::Group(files) => files,
            Reduction::Join(left, right) => left.files() + right.files(),
        }
    }

    /// The aggregate that the reduction ends with.
    pub open spec fn result(self) -> Map<Seq<char>, Counts>
        decreases self,
    {
        match self {
            Reduction::Group(files) => aggregate_of(files),
            Reduction::Join(left, right) => merged(left.result(), right.result()),
        }
    }
}

/// The merge does not depend on the order of its arguments.
pub proof fn lemma_merge_commutative(a: Map<Seq<char>, Counts>, b: Map<Seq<char>, Counts>)
    ensures
        merged(a, b) == merged(b, a),
{
    assert(merged(a, b) =~= merged(b, a));
}

/// The merge does not depend on how three aggregates are grouped.
pub proof fn lemma_merge_associative(
    a: Map<Seq<char>, Counts>,
    b: Map<Seq<char>, Counts>,
    c: Map<Seq<char>, Counts>,
)
    ensures
        merged(merged(a, b), c) == merged(a, merged(b, c)),
{
    assert(merged(merged(a, b), c) =~= merged(a, merged(b, c)));
}

/// The empty aggregate is the identity of the merge.
pub proof fn lemma_merge_identity(a: Map<Seq<char>, Counts>)
    ensures
        merged(a, Map::<Seq<char>, Counts>::empty()) == a,
        merged(Map::<Seq<char>, Counts>::empty(), a) == a,
{
    assert(merged(a, Map::<Seq<char>, Counts>::empty()) =~= a);
    assert(merged(Map::<Seq<char>, Counts>::empty(), a) =~= a);
}

/// Aggregating two runs of files and merging the results gives the aggregate
/// of the two runs put together.
pub proof fn lemma_aggregate_of_concat(first: Seq<Contribution>, second: Seq<Contribution>)
    ensures
        aggregate_of(first + second) == merged(aggregate_of(first), aggregate_of(second)),
    decreases second.len(),
{
    if second.len() == 0 {
        assert(first + second == first);
        lemma_merge_identity(aggregate_of(first));
    } else {
        let all = first + second;
        assert(all.drop_last() == first + second.drop_last());
        assert(all.last() == second.last());
        lemma_aggregate_of_concat(first, second.drop_last());
        lemma_merge_associative(
            aggregate_of(first),
            aggregate_of(second.drop_last()),
            single(second.last().extension, second.last().counts),
        );
    }
}

/// Every reduction of the same files, whatever its shape, ends with the
/// aggregate of those files.
pub proof fn lemma_reduction_shape(reduction: Reduction)
    ensures
        reduction.result() == aggregate_of(reduction.files()),
    decreases reduction,
{
    match reduction {
        Reduction::Group(files) => {},
        Reduction::Join(left, right) => {
            lemma_reduction_shape(*left);
            lemma_reduction_shape(*right);
            lemma_aggregate_of_concat(left.files(), right.files());
        },
    }
}

/// Taking one file out of a sequence and merging it back in gives the
/// aggregate of the whole sequence.
proof fn lemma_aggregate_of_remove(files: Seq<Contribution>, at: int)
    requires
        0 <= at < files.len(),
    ensures
        aggregate_of(files) == merged(
            aggregate_of(files.remove(at)),
            single(files[at].extension, files[at].counts),
        ),
{
    let front = files.take(at);
    let back = files.skip(at + 1);
    let one = seq![files[at]];
    let alone = single(files[at].extension, files[at].counts);
    assert(files == (front + one) + back);
    assert(files.remove(at) == front + back);
    assert(aggregate_of(one) == merged(Map::<Seq<char>, Counts>::empty(), alone)) by {
        reveal_with_fuel(aggregate_of, 2);
        assert(one.drop_last() == Seq::<Contribution>::empty());
    }
    lemma_merge_identity(alone);
    lemma_aggregate_of_concat(front, one);
    lemma_aggregate_of_concat(front + one, back);
    lemma_aggregate_of_concat(front, back);
    lemma_merge_associative(aggregate_of(front), alone, aggregate_of(back));
    lemma_merge_commutative(alone, aggregate_of(back));
    lemma_merge_associative(aggregate_of(front), aggregate_of(back), alone);
}

/// The aggregate of a collection of files does not depend on the order in
/// which the files are taken.
pub proof fn lemma_aggregate_of_any_order(one: Seq<Contribution>, other: Seq<Contribution>)
    requires
        one.to_multiset() == other.to_multiset(),
    ensures
        aggregate_of(one) == aggregate_of(other),
    decreases one.len(),
{
    one.to_multiset_ensures();
    other.to_multiset_ensures();
    if one.len() == 0 {
        assert(other.len() == 0);
    } else {
        let last = one.last();
        assert(one.contains(last));
        assert(one.to_multiset().count(last) > 0);
        assert(other.to_multiset().count(last) > 0);
        assert(other.contains(last));
        let at = choose|at: int| 0 <= at < other.len() && other[at] == last;
        assert(one.drop_last() == one.remove(one.len() - 1));
        assert(one.remove(one.len() - 1).to_multiset() == other.remove(at).to_multiset());
        lemma_aggregate_of_any_order(one.drop_last(), other.remove(at));
        lemma_aggregate_of_remove(other, at);
    }
}

/// Two reductions that cover the same files, in whatever order and grouping,
/// end with the same aggregate.
pub proof fn lemma_reductions_agree(one: Reduction, other: Reduction)
    requires
        one.files().to_multiset() == other.files().to_multiset(),
    ensures
        one.result() == other.result(),
{
    lemma_reduction_shape(one);
    lemma_reduction_shape(other);
    lemma_aggregate_of_any_order(one.files(), other.files());
}

/// The keys of the aggregate of finitely many files are finitely many.
pub proof fn lemma_aggregate_of_finite(files: Seq<Contribution>)
    ensures
        aggregate_of(files).dom().finite(),
    decreases files.len(),
{
    if files.len() > 0 {
        lemma_aggregate_of_finite(files.drop_last());
        let rest = aggregate_of(files.drop_last());
        assert(aggregate_of(files).dom() =~= rest.dom().insert(files.last().extension));
    }
}

/// The total of an aggregate is what it holds under one key plus the total of
/// the rest.
proof fn lemma_total_remove(m: Map<Seq<char>, Counts>, key: Seq<char>)
    requires
        m.dom().finite(),
        m.dom().contains(key),
    ensures
        total(m) == m[key].plus(total(m.remove(key))),
    decreases m.dom().len(),
{
    let chosen = m.dom().choose();
    if chosen != key {
        lemma_total_remove(m.remove(chosen), key);
        lemma_total_remove(m.remove(key), chosen);
        assert(m.remove(chosen).remove(key) =~= m.remove(key).remove(chosen));
    }
}

/// Merging one file into an aggregate adds its counts to the total.
proof fn lemma_total_merged_single(m: Map<Seq<char>, Counts>, key: Seq<char>, counts: Counts)
    requires
        m.dom().finite(),
    ensures
        total(merged(m, single(key, counts))) == total(m).plus(counts),
{
    let sum = merged(m, single(key, counts));
    assert(sum.dom() =~= m.dom().insert(key));
    lemma_total_remove(sum, key);
    if m.dom().contains(key) {
        lemma_total_remove(m, key);
        assert(sum.remove(key) =~= m.remove(key));
    } else {
        assert(sum.remove(key) =~= m);
    }
}

/// The total over the extensions of an aggregate is the sum over the files
/// that went into it.
pub proof fn lemma_total_of_aggregate(files: Seq<Contribution>)
    ensures
        total(aggregate_of(files)) == sum_of(files),
    decreases files.len(),
{
    if files.len() > 0 {
        lemma_total_of_aggregate(files.drop_last());
        lemma_aggregate_of_finite(files.drop_last());
        lemma_total_merged_single(
            aggregate_of(files.drop_last()),
            files.last().extension,
            files.last().counts,
        );
    } else {
        assert(aggregate_of(files).dom() =~= Set::<Seq<char>>::empty());
    }
}

/// Every file is counted once: where each file contributes a file count of
/// one, whatever its token and line counts, the file counts of the aggregate
/// add up to the number of files.
pub proof fn lemma_every_file_counted(files: Seq<Contribution>)
    requires
        forall|i: int| 0 <= i < files.len() ==> (#[trigger] files[i]).counts.files == 1,
    ensures
        total(aggregate_of(files)).files == files.len(),
{
    lemma_total_of_aggregate(files);
    lemma_sum_of_files(files);
}

proof fn lemma_sum_of_files(files: Seq<Contribution>)
    requires
        forall|i: int| 0 <= i < files.len() ==> (#[trigger] files[i]).counts.files == 1,
    ensures
        sum_of(files).files == files.len(),
    decreases files.len(),
{
    if files.len() > 0 {
        let front = files.drop_last();
        assert forall|i: int| 0 <= i < front.len() implies (#[trigger] front[i]).counts.files
            == 1 by {
            assert(front[i] == files[i]);
        }
        lemma_sum_of_files(front);
    }
}

} // verus!
