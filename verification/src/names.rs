//! How archive files are named and where they live: `events_YYYYMMDD.jsonl`
//! while a day is being written, `events_YYYYMMDD.jsonl.zst` once it is closed
//! and compressed.
use crate::text::{
    after_last, before_first, chars_of, extend, find_after_last, find_first, is_digit, last_index,
    lemma_first_index_is, lemma_last_index_is, same_text, slice_of,
};
use vstd::prelude::*;

verus! {

/// A date token: eight ASCII digits, `YYYYMMDD`.
pub open spec fn is_date_token(s: Seq<char>) -> bool {
    &&& s.len() == 8
    &&& forall|i: int| 0 <= i < 8 ==> is_digit(#[trigger] s[i])
}

/// The name of the live archive file of a day.
pub open spec fn live_name(date: Seq<char>) -> Seq<char> {
    "events_"@ + date + ".jsonl"@
}

/// The name that a file has once it is compressed.
pub open spec fn compressed_path(path: Seq<char>) -> Seq<char> {
    path + ".zst"@
}

/// Whether `name` is the name of an archive file of the day `date`, live or
/// compressed.
pub open spec fn names_day(name: Seq<char>, date: Seq<char>) -> bool {
    name == live_name(date) || name == compressed_path(live_name(date))
}

/// Whether `name` is the name of an archive file.
pub open spec fn is_archive_name(name: Seq<char>) -> bool {
    exists|date: Seq<char>| is_date_token(date) && names_day(name, date)
}

/// `name` below the directory `dir`.
pub open spec fn joined(dir: Seq<char>, name: Seq<char>) -> Seq<char> {
    if dir.len() == 0 {
        name
    } else if dir.last() == '/' {
        dir + name
    } else {
        dir + seq!['/'] + name
    }
}

/// The path of the live archive file of a day below `dir`.
pub open spec fn live_path(dir: Seq<char>, date: Seq<char>) -> Seq<char> {
    joined(dir, live_name(date))
}

/// A path without what does not count at its end: slashes, and components
/// that are a single dot.
pub open spec fn without_trailing(path: Seq<char>) -> Seq<char>
    decreases path.len(),
{
    if path.len() > 0 && path.last() == '/' {
        without_trailing(path.drop_last())
    } else if path.len() >= 2 && path.last() == '.' && path[path.len() - 2] == '/' {
        without_trailing(path.drop_last())
    } else {
        path
    }
}

/// The last component of a path: what follows the last `/` once the end that
/// does not count is taken off. `a/b`, `a/b/` and `a/b/.` all end in `b`.
pub open spec fn base_name(path: Seq<char>) -> Seq<char> {
    after_last(without_trailing(path), '/')
}

/// A file name without its last extension. A name without a dot, or whose
/// only dot is its first character, is its own stem.
pub open spec fn file_stem(name: Seq<char>) -> Seq<char> {
    if last_index(name, '.') <= 0 {
        name
    } else {
        name.take(last_index(name, '.'))
    }
}

/// The part of a path in which the date of an archive file stands: of the stem
/// of the last component, what follows the last `_`, up to the first dot.
pub open spec fn date_field(path: Seq<char>) -> Seq<char> {
    before_first(after_last(file_stem(base_name(path)), '_'), '.')
}

/// Whether `s` is a date token.
pub fn check_date_token(s: &[char]) -> (r: bool)
    ensures
        r == is_date_token(s@),
{
    if s.len() != 8 {
        return false;
    }
    let mut i: usize = 0;
    while i < 8
        invariant
            i <= 8,
            s.len() == 8,
            forall|j: int| 0 <= j < i ==> is_digit(#[trigger] s@[j]),
        decreases 8 - i,
    {
        if !('0' <= s[i] && s[i] <= '9') {
            return false;
        }
        i += 1;
    }
    true
}

/// The name of the live archive file of the day `date`.
pub fn live_file_name(date: &[char]) -> (r: Vec<char>)
    ensures
        r@ == live_name(date@),
{
    let mut out = chars_of("events_");
    extend(&mut out, date);
    let extension = chars_of(".jsonl");
    extend(&mut out, extension.as_slice());
    out
}

/// The path of the compressed sibling of the file at `path`.
pub fn compressed_file_path(path: &[char]) -> (r: Vec<char>)
    ensures
        r@ == compressed_path(path@),
{
    let mut out: Vec<char> = Vec::new();
    extend(&mut out, path);
    let extension = chars_of(".zst");
    extend(&mut out, extension.as_slice());
    out
}

/// The path of `name` below the directory `dir`.
pub fn join_path(dir: &[char], name: &[char]) -> (r: Vec<char>)
    ensures
        r@ == joined(dir@, name@),
{
    let mut out: Vec<char> = Vec::new();
    extend(&mut out, dir);
    if dir.len() > 0 && dir[dir.len() - 1] != '/' {
        out.push('/');
    }
    extend(&mut out, name);
    out
}

/// The path of the live archive file of the day `date` below `dir`.
pub fn live_file_path(dir: &[char], date: &[char]) -> (r: Vec<char>)
    ensures
        r@ == live_path(dir@, date@),
{
    let name = live_file_name(date);
    join_path(dir, name.as_slice())
}

/// The day of an archive file, from its name; `None` for any other name.
pub fn archive_day(name: &[char]) -> (r: Option<Vec<char>>)
    ensures
        r is Some <==> is_archive_name(name@),
        r matches Some(date) ==> is_date_token(date@) && names_day(name@, date@),
{
    proof {
        reveal_strlit("events_");
        reveal_strlit(".jsonl");
        reveal_strlit(".zst");
    }
    if name.len() < 15 {
        assert forall|date: Seq<char>| is_date_token(date) implies !names_day(name@, date) by {}
        return None;
    }
    let date = slice_of(name, 7, 15);
    if check_date_token(date.as_slice()) {
        let live = live_file_name(date.as_slice());
        if same_text(name, live.as_slice()) {
            return Some(date);
        }
        let compressed = compressed_file_path(live.as_slice());
        if same_text(name, compressed.as_slice()) {
            return Some(date);
        }
    }
    assert forall|other: Seq<char>| is_date_token(other) implies !names_day(name@, other) by {
        if names_day(name@, other) {
            assert(name@.subrange(7, 15) =~= other);
        }
    }
    None
}

/// The last component of `path`.
pub fn file_name(path: &[char]) -> (r: Vec<char>)
    ensures
        r@ == base_name(path@),
{
    let mut end: usize = path.len();
    assert(path@.take(end as int) =~= path@);
    loop
        invariant
            end <= path.len(),
            without_trailing(path@) == without_trailing(path@.take(end as int)),
        ensures
            end <= path.len(),
            without_trailing(path@) == path@.take(end as int),
        decreases end,
    {
        let slash = end > 0 && path[end - 1] == '/';
        let dot = end >= 2 && path[end - 1] == '.' && path[end - 2] == '/';
        if !slash && !dot {
            break ;
        }
        assert(path@.take(end as int).drop_last() =~= path@.take(end - 1));
        end -= 1;
    }
    let kept = slice_of(path, 0, end);
    assert(kept@ =~= path@.take(end as int));
    let from = find_after_last(kept.as_slice(), '/');
    slice_of(kept.as_slice(), from, end)
}

/// The file name `name` without its last extension.
pub fn stem_of(name: &[char]) -> (r: Vec<char>)
    ensures
        r@ == file_stem(name@),
{
    let after = find_after_last(name, '.');
    if after <= 1 {
        slice_of(name, 0, name.len())
    } else {
        slice_of(name, 0, after - 1)
    }
}

/// The part of `path` in which the date of an archive file stands.
pub fn date_field_of(path: &[char]) -> (r: Vec<char>)
    ensures
        r@ == date_field(path@),
{
    let name = file_name(path);
    let stem = stem_of(name.as_slice());
    let from = find_after_last(stem.as_slice(), '_');
    let tail = slice_of(stem.as_slice(), from, stem.len());
    let to = find_first(tail.as_slice(), '.');
    slice_of(tail.as_slice(), 0, to)
}

/// A name without `/` that does not end in a dot is the last component of its
/// path below any directory.
pub proof fn lemma_base_name_of_joined(dir: Seq<char>, name: Seq<char>)
    requires
        name.len() > 0,
        name.last() != '.',
        forall|i: int| 0 <= i < name.len() ==> name[i] != '/',
    ensures
        base_name(joined(dir, name)) == name,
{
    let path = joined(dir, name);
    assert(path.last() == name.last());
    assert(without_trailing(path) == path);
    let at = path.len() - name.len() - 1;
    assert(forall|i: int| 0 <= i < name.len() ==> path[at + 1 + i] == name[i]);
    if dir.len() == 0 {
        assert(path =~= name);
    }
    lemma_last_index_is(path, '/', at);
    assert(path.skip(at + 1) =~= name);
}

/// The name of a live archive file holds no `/`, is an archive name, and
/// carries its day in its date field.
pub proof fn lemma_live_name(date: Seq<char>)
    requires
        is_date_token(date),
    ensures
        is_archive_name(live_name(date)),
        is_archive_name(compressed_path(live_name(date))),
        forall|i: int| 0 <= i < live_name(date).len() ==> live_name(date)[i] != '/',
        date_field(live_name(date)) == date,
        date_field(compressed_path(live_name(date))) == date,
        live_name(date).len() > 0 && live_name(date).last() != '.',
        compressed_path(live_name(date)).len() > 0 && compressed_path(live_name(date)).last()
            != '.',
        forall|i: int|
            0 <= i < compressed_path(live_name(date)).len() ==> compressed_path(
                live_name(date),
            )[i] != '/',
{
    reveal_strlit("events_");
    reveal_strlit(".jsonl");
    reveal_strlit(".zst");
    let name = live_name(date);
    let packed = compressed_path(name);
    assert(names_day(name, date));
    assert(names_day(packed, date));
    assert forall|i: int| 0 <= i < name.len() implies name[i] != '/' by {
        if 7 <= i < 15 {
            assert(is_digit(date[i - 7]));
        }
    }
    assert forall|i: int| 0 <= i < packed.len() implies packed[i] != '/' by {
        if i < name.len() {
            assert(packed[i] == name[i]);
        }
    }
    assert forall|i: int| 7 <= i < 15 implies name[i] != '.' && name[i] != '_' by {
        assert(is_digit(date[i - 7]));
    }
    assert(name.last() == 'l' && packed.last() == 't');
    assert(without_trailing(name) == name && without_trailing(packed) == packed);
    // the live name: stem `events_<date>`
    lemma_last_index_is(name, '/', -1);
    assert(name.skip(0) =~= name);
    lemma_last_index_is(name, '.', 15);
    let stem = name.take(15);
    lemma_last_index_is(stem, '_', 6);
    let tail = stem.skip(7);
    assert(tail =~= date);
    assert forall|i: int| 0 <= i < 8 implies date[i] != '.' by {
        assert(is_digit(date[i]));
    }
    lemma_first_index_is(tail, '.', 8);
    assert(tail.take(8) =~= date);
    // the compressed name: stem `events_<date>.jsonl`
    lemma_last_index_is(packed, '/', -1);
    assert(packed.skip(0) =~= packed);
    lemma_last_index_is(packed, '.', 21);
    let long_stem = packed.take(21);
    assert(long_stem =~= name);
    lemma_last_index_is(long_stem, '_', 6);
    let long_tail = long_stem.skip(7);
    assert(forall|i: int| 0 <= i < 8 ==> long_tail[i] == date[i]);
    lemma_first_index_is(long_tail, '.', 8);
    assert(long_tail.take(8) =~= date);
}

} // verus!
