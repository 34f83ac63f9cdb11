//! The deduplication index: an ordered, persistent map from event identifier
//! to creation time, kept by `sled`.
//!
//! The contracts here speak of what the store holds as a map from key bytes to
//! value bytes. They describe a store that this process alone writes to, through
//! one handle.
use itertools::Itertools;
use vstd::bytes::{spec_u64_from_le_bytes, spec_u64_to_le_bytes, u64_from_le_bytes, u64_to_le_bytes};
use vstd::prelude::*;

verus! {

/// `sled::Db`, the handle of the store; nothing of its inside is used.
#[verifier::external_type_specification]
#[verifier::external_body]
pub struct ExDb(sled::Db);

/// `sled::Error`, carried from the store to `classify`.
#[verifier::external_type_specification]
#[verifier::external_body]
pub struct ExError(sled::Error);

/// What the store holds: for each key, its value.
pub uninterp spec fn index_entries(db: sled::Db) -> Map<Seq<u8>, Seq<u8>>;

/// Why the store failed.
#[derive(Clone, Copy, Debug, PartialEq, Eq, Structural)]
pub enum IndexError {
    /// The collection no longer exists.
    CollectionNotFound,
    /// The store was used in a way that it does not support.
    Unsupported,
    /// The store met a bug of its own.
    ReportableBug,
    /// A read or a write of the file system failed.
    Io,
    /// The storage file is corrupt.
    Corruption,
}

impl IndexError {
    /// Whether the process must stop: true of corruption alone.
    pub fn is_fatal(self) -> (r: bool)
        ensures
            r == (self == IndexError::Corruption),
    {
        match self {
            IndexError::Corruption => true,
            _ => false,
        }
    }
}

/// Names the variant of a `sled::Error`.
#[verifier::external_body]
pub(crate) fn classify(e: sled::Error) -> IndexError {
    match e {
        sled::Error::CollectionNotFound(_) => IndexError::CollectionNotFound,
        sled::Error::Unsupported(_) => IndexError::Unsupported,
        sled::Error::ReportableBug(_) => IndexError::ReportableBug,
        sled::Error::Io(_) => IndexError::Io,
        sled::Error::Corruption { .. } => IndexError::Corruption,
    }
}

/// `sled::open`: opens the store at `path`, creating it where it is missing.
/// What it then holds is whatever was on disk.
#[verifier::external_body]
pub(crate) fn index_open(path: &str) -> Result<sled::Db, sled::Error> {
    sled::open(path)
}

/// `sled::Tree::contains_key`: where the read succeeds, whether the store
/// holds a value for `key`.
#[verifier::external_body]
pub(crate) fn index_contains(db: &sled::Db, key: &[u8]) -> (r: Result<bool, sled::Error>)
    ensures
        r matches Ok(found) ==> found == index_entries(*db).contains_key(key@),
{
    db.contains_key(key)
}

/// `sled::Tree::insert`: where it succeeds, the store holds `value` for `key`
/// and is otherwise unchanged, and the result is the value that `key` had
/// before, if it had one. Nothing is claimed of the store after a failure.
#[verifier::external_body]
pub(crate) fn index_insert(db: &mut sled::Db, key: &[u8], value: &[u8]) -> (r: Result<
    Option<Vec<u8>>,
    sled::Error,
>)
    ensures
        r matches Ok(previous) ==> {
            &&& index_entries(*final(db)) == index_entries(*old(db)).insert(key@, value@)
            &&& previous is Some <==> index_entries(*old(db)).contains_key(key@)
            &&& previous matches Some(v) ==> v@ == index_entries(*old(db))[key@]
        },
{
    db.insert(key, value).map(|previous| previous.map(|v| v.to_vec()))
}

/// Whether `a` comes before `b` in the order of the store: byte by byte, a
/// proper prefix first.
pub open spec fn key_before(a: Seq<u8>, b: Seq<u8>) -> bool
    decreases a.len(),
{
    if b.len() == 0 {
        false
    } else if a.len() == 0 {
        true
    } else if a[0] != b[0] {
        a[0] < b[0]
    } else {
        key_before(a.skip(1), b.skip(1))
    }
}

/// Whether `items` is the beginning of a scan of `entries`: keys ascending,
/// each item an entry, and no entry left out before the last item.
pub open spec fn begins_scan(items: Seq<(Vec<u8>, Vec<u8>)>, entries: Map<Seq<u8>, Seq<u8>>) -> bool {
    &&& forall|i: int, j: int|
        0 <= i < j < items.len() ==> key_before(#[trigger] items[i].0@, #[trigger] items[j].0@)
    &&& forall|i: int|
        0 <= i < items.len() ==> entries.contains_key(#[trigger] items[i].0@)
            && entries[items[i].0@] == items[i].1@
    &&& forall|key: Seq<u8>, j: int|
        0 <= j < items.len() && #[trigger] entries.contains_key(key) && key_before(
            key,
            #[trigger] items[j].0@,
        ) ==> exists|i: int| 0 <= i < j && items[i].0@ == key
}

/// Whether `items` is a whole scan of `entries`: the beginning of a scan that
/// leaves no entry out.
pub open spec fn is_scan(items: Seq<(Vec<u8>, Vec<u8>)>, entries: Map<Seq<u8>, Seq<u8>>) -> bool {
    &&& begins_scan(items, entries)
    &&& forall|key: Seq<u8>| #[trigger]
        entries.contains_key(key) ==> exists|i: int| 0 <= i < items.len() && items[i].0@ == key
}

/// The items that the steps of a walk read, in order; a read that failed
/// gives none.
pub open spec fn items_read(steps: Seq<Result<(Vec<u8>, Vec<u8>), sled::Error>>) -> Seq<
    (Vec<u8>, Vec<u8>),
>
    decreases steps.len(),
{
    if steps.len() == 0 {
        Seq::empty()
    } else {
        match steps.last() {
            Ok(item) => items_read(steps.drop_last()).push(item),
            Err(_) => items_read(steps.drop_last()),
        }
    }
}

/// Whether every step of a walk read an item.
pub open spec fn all_read(steps: Seq<Result<(Vec<u8>, Vec<u8>), sled::Error>>) -> bool {
    forall|i: int| 0 <= i < steps.len() ==> (#[trigger] steps[i]) is Ok
}

/// `sled::Tree::iter`, walked to its end or up to and including the first read
/// that fails (`itertools::Itertools::take_while_inclusive`): the items come in
/// the order of their keys, each copied out as a pair of byte vectors. A walk
/// in which no read failed has come by every entry. sled gives up with a panic
/// where one step of the walk visits a million nodes.
#[verifier::external_body]
pub(crate) fn index_walk(db: &sled::Db) -> (r: Vec<Result<(Vec<u8>, Vec<u8>), sled::Error>>)
    ensures
        forall|i: int| 0 <= i < r@.len() - 1 ==> (#[trigger] r@[i]) is Ok,
        begins_scan(items_read(r@), index_entries(*db)),
        all_read(r@) ==> is_scan(items_read(r@), index_entries(*db)),
{
    db.iter().take_while_inclusive(|step| step.is_ok()).map(
        |step| step.map(|(k, v)| (k.to_vec(), v.to_vec())),
    ).collect()
}

/// Walks the index from its first key. The result holds the items that were
/// read and, where a read failed and ended the walk, why; without a failure
/// the items are all that the index holds.
pub(crate) fn index_scan(db: &sled::Db) -> (r: (Vec<(Vec<u8>, Vec<u8>)>, Option<IndexError>))
    ensures
        begins_scan(r.0@, index_entries(*db)),
        r.1 is None ==> is_scan(r.0@, index_entries(*db)),
{
    let steps = index_walk(db);
    let ghost all = steps@;
    let mut items: Vec<(Vec<u8>, Vec<u8>)> = Vec::new();
    let mut failure: Option<IndexError> = None;
    for step in it: steps
        invariant
            it.seq() == all,
            items@ == items_read(all.take(it.index() as int)),
            failure is None ==> all_read(all.take(it.index() as int)),
    {
        proof {
            let next = all.take(it.index() + 1);
            assert(next.drop_last() =~= all.take(it.index() as int));
            assert(next.last() == all[it.index() as int]);
        }
        match step {
            Ok(item) => {
                items.push(item);
            },
            Err(e) => {
                failure = Some(classify(e));
            },
        }
    }
    assert(all.take(all.len() as int) =~= all);
    (items, failure)
}

/// No key comes before itself.
pub proof fn lemma_key_before_irreflexive(key: Seq<u8>)
    ensures
        !key_before(key, key),
    decreases key.len(),
{
    if key.len() > 0 {
        lemma_key_before_irreflexive(key.skip(1));
    }
}

/// The keys of the items.
pub open spec fn keys_of(items: Seq<(Vec<u8>, Vec<u8>)>) -> Set<Seq<u8>> {
    Set::new(|key: Seq<u8>| exists|i: int| 0 <= i < items.len() && items[i].0@ == key)
}

/// Items whose keys ascend have as many keys as there are items.
pub proof fn lemma_keys_counted(items: Seq<(Vec<u8>, Vec<u8>)>)
    requires
        forall|i: int, j: int|
            0 <= i < j < items.len() ==> key_before(#[trigger] items[i].0@, #[trigger] items[j].0@),
    ensures
        keys_of(items).finite(),
        keys_of(items).len() == items.len(),
    decreases items.len(),
{
    if items.len() == 0 {
        assert(keys_of(items) =~= Set::empty());
    } else {
        let front = items.drop_last();
        let last = items.last().0@;
        assert(forall|i: int| 0 <= i < front.len() ==> front[i] == items[i]);
        lemma_keys_counted(front);
        assert(!keys_of(front).contains(last)) by {
            if keys_of(front).contains(last) {
                let i = choose|i: int| 0 <= i < front.len() && front[i].0@ == last;
                assert(key_before(items[i].0@, items[items.len() - 1].0@));
                lemma_key_before_irreflexive(last);
            }
        }
        assert(keys_of(items) =~= keys_of(front).insert(last)) by {
            assert forall|key: Seq<u8>| keys_of(items).contains(key) implies keys_of(
                front,
            ).insert(last).contains(key) by {
                let i = choose|i: int| 0 <= i < items.len() && items[i].0@ == key;
                if i < front.len() {
                    assert(front[i].0@ == key);
                }
            }
            assert forall|key: Seq<u8>| keys_of(front).insert(last).contains(
                key,
            ) implies keys_of(items).contains(key) by {
                if key == last {
                    assert(items[items.len() - 1].0@ == key);
                } else {
                    let i = choose|i: int| 0 <= i < front.len() && front[i].0@ == key;
                    assert(items[i].0@ == key);
                }
            }
        }
    }
}

/// A whole scan has one item for each key of the index: the index holds
/// finitely many keys, and as many as the scan has items.
pub proof fn lemma_scan_counts(items: Seq<(Vec<u8>, Vec<u8>)>, entries: Map<Seq<u8>, Seq<u8>>)
    requires
        is_scan(items, entries),
    ensures
        entries.dom().finite(),
        entries.dom().len() == items.len(),
{
    lemma_keys_counted(items);
    assert(entries.dom() =~= keys_of(items)) by {
        assert forall|key: Seq<u8>| entries.dom().contains(key) implies keys_of(items).contains(
            key,
        ) by {
            assert(entries.contains_key(key));
        }
        assert forall|key: Seq<u8>| keys_of(items).contains(key) implies entries.dom().contains(
            key,
        ) by {
            let i = choose|i: int| 0 <= i < items.len() && items[i].0@ == key;
            assert(entries.contains_key(items[i].0@));
        }
    }
}

/// The value stored for an event: its creation time as eight bytes, least
/// significant first.
pub open spec fn stamp(created_at: u64) -> Seq<u8> {
    spec_u64_to_le_bytes(created_at)
}

/// The creation time that a stored value stands for: that of its eight bytes,
/// and zero for a value of any other length.
pub open spec fn stamp_value(value: Seq<u8>) -> u64 {
    if value.len() == 8 {
        spec_u64_from_le_bytes(value)
    } else {
        0
    }
}

/// The identifiers and creation times that a scan reports: those of its items
/// up to the first whose key is no identifier of 32 bytes.
pub open spec fn known_ids(items: Seq<(Vec<u8>, Vec<u8>)>) -> Seq<(Seq<u8>, u64)>
    decreases items.len(),
{
    if items.len() == 0 || items[0].0@.len() != 32 {
        Seq::empty()
    } else {
        seq![(items[0].0@, stamp_value(items[0].1@))] + known_ids(items.skip(1))
    }
}

/// The identifiers of a list as byte sequences, with their creation times.
pub open spec fn ids_view(ids: Seq<(Vec<u8>, u64)>) -> Seq<(Seq<u8>, u64)> {
    ids.map_values(|p: (Vec<u8>, u64)| (p.0@, p.1))
}

/// The value to store for a creation time.
pub fn encode_stamp(created_at: u64) -> (r: Vec<u8>)
    ensures
        r@ == stamp(created_at),
        r@.len() == 8,
{
    u64_to_le_bytes(created_at)
}

/// The creation time that a stored value stands for.
pub fn decode_stamp(value: &[u8]) -> (r: u64)
    ensures
        r == stamp_value(value@),
{
    if value.len() == 8 {
        u64_from_le_bytes(value)
    } else {
        0
    }
}

/// Decodes the items of a scan, stopping before the first key that is no
/// identifier.
pub fn decode_ids(items: &Vec<(Vec<u8>, Vec<u8>)>) -> (r: Vec<(Vec<u8>, u64)>)
    ensures
        ids_view(r@) == known_ids(items@),
{
    let mut out: Vec<(Vec<u8>, u64)> = Vec::new();
    let mut i: usize = 0;
    assert(items@.skip(0) =~= items@);
    while i < items.len() && items[i].0.len() == 32
        invariant
            i <= items.len(),
            known_ids(items@) == ids_view(out@) + known_ids(items@.skip(i as int)),
        decreases items.len() - i,
    {
        let ghost before = ids_view(out@);
        let key = items[i].0.clone();
        let time = decode_stamp(items[i].1.as_slice());
        out.push((key, time));
        proof {
            assert(items@.skip(i as int).skip(1) =~= items@.skip(i + 1));
            assert(ids_view(out@) =~= before + seq![(items@[i as int].0@, time)]);
        }
        i += 1;
    }
    out
}

/// A creation time is read back from its stored value.
pub proof fn lemma_stamp_round_trip(created_at: u64)
    ensures
        stamp_value(stamp(created_at)) == created_at,
{
    vstd::bytes::lemma_auto_spec_u64_to_from_le_bytes();
}

} // verus!
