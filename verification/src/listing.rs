//! The order of the archive listing: newest file first.
use crate::db::{files_view, ArchiveFile, ArchiveFileView, FileTime};
use itertools::Itertools;
use std::cmp::Ordering;
use vstd::prelude::*;

verus! {

/// Whether `a` is later than `b`.
pub open spec fn is_newer(a: FileTime, b: FileTime) -> bool {
    a.secs > b.secs || (a.secs == b.secs && a.nanos > b.nanos)
}

/// `file` entered into a list that is newest first: behind every file that is
/// at least as new.
pub open spec fn entered_by_age(sorted: Seq<ArchiveFileView>, file: ArchiveFileView) -> Seq<
    ArchiveFileView,
>
    decreases sorted.len(),
{
    if sorted.len() > 0 && is_newer(file.created, sorted.last().created) {
        entered_by_age(sorted.drop_last(), file).push(sorted.last())
    } else {
        sorted.push(file)
    }
}

/// The files ordered by creation time, newest first; files of one creation
/// time keep the order in which they came.
pub open spec fn newest_first(files: Seq<ArchiveFileView>) -> Seq<ArchiveFileView>
    decreases files.len(),
{
    if files.len() == 0 {
        Seq::empty()
    } else {
        entered_by_age(newest_first(files.drop_last()), files.last())
    }
}

/// Orders two files for a listing that is newest first: the newer one is the
/// lesser.
pub fn by_age(a: &ArchiveFile, b: &ArchiveFile) -> (r: Ordering)
    ensures
        r is Less <==> is_newer(a.created, b.created),
        r is Greater <==> is_newer(b.created, a.created),
{
    if a.created.secs > b.created.secs {
        Ordering::Less
    } else if a.created.secs < b.created.secs {
        Ordering::Greater
    } else if a.created.nanos > b.created.nanos {
        Ordering::Less
    } else if a.created.nanos < b.created.nanos {
        Ordering::Greater
    } else {
        Ordering::Equal
    }
}

/// `itertools::Itertools::sorted_by` under `by_age`: a stable sort, so the
/// files come out newest first and files that `by_age` holds equal stay in
/// their order.
#[verifier::external_body]
fn sorted_by_age(files: Vec<ArchiveFile>) -> (r: Vec<ArchiveFile>)
    ensures
        files_view(r@) == newest_first(files_view(files@)),
{
    files.into_iter().sorted_by(|a, b| by_age(a, b)).collect()
}

/// The files of a listing in the order in which the page shows them.
pub fn order_listing(files: Vec<ArchiveFile>) -> (r: Vec<ArchiveFile>)
    ensures
        files_view(r@) == newest_first(files_view(files@)),
{
    sorted_by_age(files)
}

/// The sum of the sizes of the files.
pub open spec fn total_size(files: Seq<ArchiveFileView>) -> nat
    decreases files.len(),
{
    if files.len() == 0 {
        0
    } else {
        total_size(files.drop_last()) + files.last().size as nat
    }
}

/// Whether no file of the list is followed by a newer one.
pub open spec fn is_newest_first(files: Seq<ArchiveFileView>) -> bool {
    forall|i: int, j: int|
        0 <= i < j < files.len() ==> !is_newer(#[trigger] files[j].created, #[trigger] files[i].created)
}

/// Entering a file into a list that is newest first keeps it so, and adds
/// that file and no other.
pub proof fn lemma_entered_by_age(sorted: Seq<ArchiveFileView>, file: ArchiveFileView)
    requires
        is_newest_first(sorted),
    ensures
        is_newest_first(entered_by_age(sorted, file)),
        entered_by_age(sorted, file).len() == sorted.len() + 1,
        entered_by_age(sorted, file).to_multiset() == sorted.to_multiset().insert(file),
        total_size(entered_by_age(sorted, file)) == total_size(sorted) + file.size,
    decreases sorted.len(),
{
    broadcast use vstd::seq_lib::group_to_multiset_ensures;

    let result = entered_by_age(sorted, file);
    if sorted.len() > 0 && is_newer(file.created, sorted.last().created) {
        let front = sorted.drop_last();
        let last = sorted.last();
        assert(is_newest_first(front)) by {
            assert forall|i: int, j: int| 0 <= i < j < front.len() implies !is_newer(
                #[trigger] front[j].created,
                #[trigger] front[i].created,
            ) by {
                assert(front[i] == sorted[i] && front[j] == sorted[j]);
            }
        }
        lemma_entered_by_age(front, file);
        let inner = entered_by_age(front, file);
        assert(result == inner.push(last));
        assert(result.drop_last() =~= inner);
        assert(sorted =~= front.push(last));
        // every element of `inner` is `file` or an element of `front`
        assert forall|i: int, j: int| 0 <= i < j < result.len() implies !is_newer(
            #[trigger] result[j].created,
            #[trigger] result[i].created,
        ) by {
            if j < inner.len() {
                assert(result[i] == inner[i] && result[j] == inner[j]);
            } else {
                assert(result[j] == last);
                assert(result[i] == inner[i]);
                assert(inner.to_multiset().count(inner[i]) > 0);
                if inner[i] == file {
                } else {
                    assert(front.to_multiset().count(inner[i]) > 0);
                    assert(front.contains(inner[i]));
                    let k = choose|k: int| 0 <= k < front.len() && front[k] == inner[i];
                    assert(sorted[k] == inner[i]);
                    assert(!is_newer(sorted[sorted.len() - 1].created, sorted[k].created));
                }
            }
        }
        assert(front.push(last).to_multiset() =~= front.to_multiset().insert(last));
        assert(result.to_multiset() =~= sorted.to_multiset().insert(file));
    } else {
        assert(result.drop_last() =~= sorted);
        assert forall|i: int, j: int| 0 <= i < j < result.len() implies !is_newer(
            #[trigger] result[j].created,
            #[trigger] result[i].created,
        ) by {
            if j < sorted.len() {
                assert(result[i] == sorted[i] && result[j] == sorted[j]);
            } else if sorted.len() > 0 {
                assert(result[i] == sorted[i]);
                assert(!is_newer(file.created, sorted[sorted.len() - 1].created));
                if i < sorted.len() - 1 {
                    assert(!is_newer(sorted[sorted.len() - 1].created, sorted[i].created));
                }
            }
        }
    }
}

/// The listing order holds the same files, no file before a newer one, and the
/// sizes add up to the same total.
pub proof fn lemma_newest_first(files: Seq<ArchiveFileView>)
    ensures
        is_newest_first(newest_first(files)),
        newest_first(files).len() == files.len(),
        newest_first(files).to_multiset() == files.to_multiset(),
        total_size(newest_first(files)) == total_size(files),
    decreases files.len(),
{
    broadcast use vstd::seq_lib::group_to_multiset_ensures;

    if files.len() == 0 {
    } else {
        lemma_newest_first(files.drop_last());
        lemma_entered_by_age(newest_first(files.drop_last()), files.last());
        assert(files =~= files.drop_last().push(files.last()));
    }
}

} // verus!
