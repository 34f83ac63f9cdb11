//! The ingest coordinator and the archive directory.
//!
//! `FlatFileDatabase` admits an event in two steps. `save_event` consults the
//! index and the write policies and, where the event is new and admitted,
//! enters it in the index and returns the plan of the write. The caller performs
//! the plan on the file system and reports the outcome to `complete_write`.
use crate::event::{Event, EventView};
use crate::index::{
    begins_scan, classify, decode_ids, encode_stamp, ids_view, index_contains, index_entries,
    index_insert, index_open, index_scan, known_ids, lemma_scan_counts, stamp, IndexError,
};
use crate::names::{archive_day, base_name, file_name, is_archive_name, join_path, joined};
use crate::policy::{
    chain_view, evaluate, first_rejection, lemma_first_rejection, PolicyResult, WritePolicy,
    WritePolicyView,
};
use crate::text::{chars_of, has_prefix, matches_at, occurs_at, slice_of, string_of};
use crate::writer::{
    after_write, line_of, plan_fits, plan_for, utc_date, write_result, FlatFileWriter, WriteError,
    WriteOutcome, WritePlan, WritePlanView, WriterView,
};
use vstd::prelude::*;

verus! {

/// A time of the file system: seconds since the epoch, and the nanoseconds
/// within the second.
#[derive(Clone, Copy, Debug, PartialEq, Eq, Structural)]
pub struct FileTime {
    pub secs: i64,
    pub nanos: u32,
}

/// The nanoseconds of a second.
pub const NANOS_PER_SEC: u32 = 1_000_000_000;

/// The time that lies `secs` seconds and `nanos` nanoseconds from the epoch,
/// after it or before it. Seconds beyond the range of the type count as its
/// last second, and nanoseconds that fill a second as its last nanosecond.
pub open spec fn time_from_epoch(before: bool, secs: u64, nanos: u32) -> FileTime {
    let whole: i64 = if secs > i64::MAX {
        i64::MAX
    } else {
        secs as i64
    };
    let part: u32 = if nanos >= NANOS_PER_SEC {
        (NANOS_PER_SEC - 1) as u32
    } else {
        nanos
    };
    if !before {
        FileTime { secs: whole, nanos: part }
    } else if part == 0 {
        FileTime { secs: (-whole) as i64, nanos: 0 }
    } else {
        FileTime { secs: (-whole - 1) as i64, nanos: (NANOS_PER_SEC - part) as u32 }
    }
}

/// The time that a listing shows for a file: that of its creation where the
/// file system keeps one, else that of its last change, else the epoch.
pub open spec fn listed_time(created: Option<FileTime>, modified: Option<FileTime>) -> FileTime {
    match created {
        Some(time) => time,
        None => match modified {
            Some(time) => time,
            None => FileTime { secs: 0, nanos: 0 },
        },
    }
}

impl FileTime {
    /// The time at a distance from the epoch, as a clock reports it.
    pub fn from_epoch(before: bool, secs: u64, nanos: u32) -> (r: FileTime)
        ensures
            r == time_from_epoch(before, secs, nanos),
    {
        let whole: i64 = if secs > i64::MAX as u64 {
            i64::MAX
        } else {
            secs as i64
        };
        let part: u32 = if nanos >= NANOS_PER_SEC {
            NANOS_PER_SEC - 1
        } else {
            nanos
        };
        if !before {
            FileTime { secs: whole, nanos: part }
        } else if part == 0 {
            FileTime { secs: -whole, nanos: 0 }
        } else {
            FileTime { secs: -whole - 1, nanos: NANOS_PER_SEC - part }
        }
    }

    /// The time to list for a file whose creation and last change are known
    /// or not.
    pub fn of_file(created: Option<FileTime>, modified: Option<FileTime>) -> (r: FileTime)
        ensures
            r == listed_time(created, modified),
    {
        match created {
            Some(time) => time,
            None => match modified {
                Some(time) => time,
                None => FileTime { secs: 0, nanos: 0 },
            },
        }
    }
}

/// An archive file on disk.
#[derive(Debug, Clone)]
pub struct ArchiveFile {
    pub path: String,
    pub size: u64,
    pub created: FileTime,
}

pub struct ArchiveFileView {
    pub path: Seq<char>,
    pub size: u64,
    pub created: FileTime,
}

impl View for ArchiveFile {
    type V = ArchiveFileView;

    open spec fn view(&self) -> ArchiveFileView {
        ArchiveFileView { path: self.path@, size: self.size, created: self.created }
    }
}

/// The views of a list of files, in order.
pub open spec fn files_view(files: Seq<ArchiveFile>) -> Seq<ArchiveFileView> {
    files.map_values(|f: ArchiveFile| f@)
}

/// What a read of the archive directory found under one name.
pub struct DirEntry {
    pub path: String,
    pub is_dir: bool,
    pub size: u64,
    pub created: FileTime,
}

/// What the file system says of one path that exists.
#[derive(Clone, Debug)]
pub struct FileStat {
    pub is_file: bool,
    pub size: u64,
    pub created: FileTime,
    /// The archive directory, with every link on the way resolved.
    pub canonical_dir: String,
    /// The path itself, with every link on the way resolved.
    pub canonical_path: String,
}

/// Whether an entry of the directory is listed: it is no directory, and its
/// name is that of an archive file.
pub open spec fn is_listed(entry: DirEntry) -> bool {
    !entry.is_dir && is_archive_name(base_name(entry.path@))
}

/// The listing of a directory: its listed entries, in the order read.
pub open spec fn listing(entries: Seq<DirEntry>) -> Seq<ArchiveFileView>
    decreases entries.len(),
{
    if entries.len() == 0 {
        Seq::empty()
    } else {
        let entry = entries.last();
        let before = listing(entries.drop_last());
        if is_listed(entry) {
            before.push(
                ArchiveFileView { path: entry.path@, size: entry.size, created: entry.created },
            )
        } else {
            before
        }
    }
}

/// Whether the component of `path` that begins at `at` is `..`: two dots with
/// a slash or an end of the path on either side.
pub open spec fn is_parent_component(path: Seq<char>, at: int) -> bool {
    &&& occurs_at(path, at, ".."@)
    &&& (at == 0 || path[at - 1] == '/')
    &&& (at + 2 == path.len() || path[at + 2] == '/')
}

/// Whether a component of `path` is `..`.
pub open spec fn has_parent_component(path: Seq<char>) -> bool {
    exists|at: int| is_parent_component(path, at)
}

/// The path below the archive directory that a request path asks for: the
/// request path without its leading `/`. There is none where the request path
/// does not begin with exactly one `/`, names nothing, or has a component
/// `..`. Dots inside a name, as in `a..b`, are part of the name.
pub open spec fn requested(path: Seq<char>) -> Option<Seq<char>> {
    if path.len() >= 2 && path[0] == '/' && path[1] != '/' && !has_parent_component(path) {
        Some(path.skip(1))
    } else {
        None
    }
}

/// Whether `target` lies below the directory `dir`, both written as the file
/// system resolves them: `target` continues `dir` behind a slash.
pub open spec fn lies_within(dir: Seq<char>, target: Seq<char>) -> bool {
    &&& dir.len() > 0
    &&& has_prefix(target, dir)
    &&& target.len() > dir.len()
    &&& (dir.last() == '/' || target[dir.len() as int] == '/')
}

/// Whether a component of `path` is `..`.
pub fn names_parent(path: &[char]) -> (r: bool)
    ensures
        r == has_parent_component(path@),
{
    let dots = chars_of("..");
    proof {
        reveal_strlit("..");
    }
    let mut at: usize = 0;
    while at < path.len()
        invariant
            at <= path.len(),
            dots@ == ".."@,
            dots@.len() == 2,
            forall|k: int| 0 <= k < at ==> !is_parent_component(path@, k),
        decreases path.len() - at,
    {
        if matches_at(path, at, dots.as_slice()) && (at == 0 || path[at - 1] == '/') && (at + 2
            == path.len() || path[at + 2] == '/') {
            assert(is_parent_component(path@, at as int));
            return true;
        }
        at += 1;
    }
    assert forall|k: int| !is_parent_component(path@, k) by {
        if k >= path@.len() {
            assert(!occurs_at(path@, k, ".."@));
        }
    }
    false
}

/// Whether `target` lies below the directory `dir`.
pub fn is_within(dir: &[char], target: &[char]) -> (r: bool)
    ensures
        r == lies_within(dir@, target@),
{
    if dir.len() == 0 || target.len() <= dir.len() {
        return false;
    }
    matches_at(target, 0, dir) && (dir[dir.len() - 1] == '/' || target[dir.len()] == '/')
}

/// Whether the index knows an identifier.
#[derive(Clone, Copy, Debug, PartialEq, Eq, Structural)]
pub enum DatabaseEventStatus {
    Saved,
    NotExistent,
}

/// The status of an identifier that the index holds, or does not hold.
pub open spec fn status_for(found: bool) -> DatabaseEventStatus {
    if found {
        DatabaseEventStatus::Saved
    } else {
        DatabaseEventStatus::NotExistent
    }
}

/// What a lookup returns for what the index answered: the status of the
/// identifier where the index could be read, and the error of the index where
/// it could not.
pub fn lookup_status(answer: Result<bool, IndexError>) -> (r: Result<
    DatabaseEventStatus,
    IndexError,
>)
    ensures
        r == match answer {
            Ok(found) => Ok::<DatabaseEventStatus, IndexError>(status_for(found)),
            Err(e) => Err::<DatabaseEventStatus, IndexError>(e),
        },
{
    match answer {
        Ok(true) => Ok(DatabaseEventStatus::Saved),
        Ok(false) => Ok(DatabaseEventStatus::NotExistent),
        Err(e) => Err(e),
    }
}

/// What is decided of an event before anything is written.
pub enum Admission {
    Duplicate,
    Rejected(String),
    Admitted,
}

pub enum AdmissionView {
    Duplicate,
    Rejected(Seq<char>),
    Admitted,
}

impl View for Admission {
    type V = AdmissionView;

    open spec fn view(&self) -> AdmissionView {
        match self {
            Admission::Duplicate => AdmissionView::Duplicate,
            Admission::Rejected(reason) => AdmissionView::Rejected(reason@),
            Admission::Admitted => AdmissionView::Admitted,
        }
    }
}

/// The admission of an event of kind `kind`: a duplicate where the index knows
/// it, whatever the policies say; else rejected with the reason of the first
/// policy that rejects it; else admitted.
pub open spec fn admission_of(
    status: DatabaseEventStatus,
    policies: Seq<WritePolicyView>,
    kind: u16,
) -> AdmissionView {
    if status == DatabaseEventStatus::Saved {
        AdmissionView::Duplicate
    } else {
        match first_rejection(policies, kind) {
            Some(reason) => AdmissionView::Rejected(reason),
            None => AdmissionView::Admitted,
        }
    }
}

/// Decides the admission of `event`, given what the index said of it.
pub fn admission(status: DatabaseEventStatus, policies: &Vec<WritePolicy>, event: &Event) -> (r:
    Admission)
    ensures
        r@ == admission_of(status, chain_view(policies@), event@.kind),
{
    match status {
        DatabaseEventStatus::Saved => Admission::Duplicate,
        DatabaseEventStatus::NotExistent => match evaluate(policies, event) {
            PolicyResult::Reject(reason) => Admission::Rejected(reason),
            PolicyResult::Accept => Admission::Admitted,
        },
    }
}

/// Why a save failed.
#[derive(Clone, Copy, Debug, PartialEq, Eq, Structural)]
pub enum SaveError {
    /// The index could not be read.
    Lookup(IndexError),
    /// The index could not be written.
    Insert(IndexError),
    /// The line was not written; the index already holds the event.
    Write(WriteError),
}

/// How a save ended.
pub enum SaveEventStatus {
    Saved,
    Duplicate,
    Rejected(String),
    Error(SaveError),
}

pub enum SaveEventStatusView {
    Saved,
    Duplicate,
    Rejected(Seq<char>),
    Error(SaveError),
}

impl View for SaveEventStatus {
    type V = SaveEventStatusView;

    open spec fn view(&self) -> SaveEventStatusView {
        match self {
            SaveEventStatus::Saved => SaveEventStatusView::Saved,
            SaveEventStatus::Duplicate => SaveEventStatusView::Duplicate,
            SaveEventStatus::Rejected(reason) => SaveEventStatusView::Rejected(reason@),
            SaveEventStatus::Error(e) => SaveEventStatusView::Error(*e),
        }
    }
}

/// What `save_event` leaves to do: nothing, or a write.
pub enum SaveStep {
    Done(SaveEventStatus),
    Write(WritePlan),
}

pub enum SaveStepView {
    Done(SaveEventStatusView),
    Write(WritePlanView),
}

impl View for SaveStep {
    type V = SaveStepView;

    open spec fn view(&self) -> SaveStepView {
        match self {
            SaveStep::Done(status) => SaveStepView::Done(status@),
            SaveStep::Write(plan) => SaveStepView::Write(plan@),
        }
    }
}

/// Why the database could not be opened.
#[derive(Clone, Copy, Debug, PartialEq, Eq, Structural)]
pub enum OpenError {
    /// The time has no date token.
    Clock,
    Index(IndexError),
}

/// The state of the coordinator.
pub struct DatabaseView {
    pub out_dir: Seq<char>,
    /// The index: identifier to stored creation time.
    pub index: Map<Seq<u8>, Seq<u8>>,
    pub writer: WriterView,
    /// The count of events that the listing page shows.
    pub count: u64,
    pub policies: Seq<WritePolicyView>,
}

/// The count after the index has gained an identifier: one more, and never
/// less.
pub open spec fn counted(count: u64) -> u64 {
    if count < u64::MAX {
        (count + 1) as u64
    } else {
        count
    }
}

/// How `save_event` relates the state before it, the event, the time, its
/// result and the state after it.
///
/// A duplicate, a rejection and a failed lookup change nothing. A failed insert
/// leaves all but the index as it was. Where the event is new and admitted and
/// the insert succeeds, the index holds the event's creation time under its
/// identifier and the count is one more, and the result is the plan of the
/// write, or a clock error where the time has no date token.
pub open spec fn save_began(
    pre: DatabaseView,
    event: EventView,
    now: i64,
    step: SaveStepView,
    post: DatabaseView,
) -> bool {
    let known = pre.index.contains_key(event.id);
    let rejection = first_rejection(pre.policies, event.kind);
    let entered = DatabaseView {
        index: pre.index.insert(event.id, stamp(event.created_at)),
        count: counted(pre.count),
        ..pre
    };
    match step {
        SaveStepView::Done(SaveEventStatusView::Saved) => false,
        SaveStepView::Done(SaveEventStatusView::Duplicate) => known && post == pre,
        SaveStepView::Done(SaveEventStatusView::Rejected(reason)) => !known && rejection == Some(
            reason,
        ) && post == pre,
        SaveStepView::Done(SaveEventStatusView::Error(SaveError::Lookup(_))) => post == pre,
        SaveStepView::Done(SaveEventStatusView::Error(SaveError::Insert(_))) => !known
            && rejection is None && post == (DatabaseView { index: post.index, ..pre }),
        SaveStepView::Done(SaveEventStatusView::Error(SaveError::Write(e))) => !known
            && rejection is None && e == WriteError::Clock && utc_date(now) is None && post
            == entered,
        SaveStepView::Write(plan) => !known && rejection is None && utc_date(now) is Some && plan
            == plan_for(pre.writer, utc_date(now)->0, event.json) && post == entered,
    }
}

/// The state after the outcome of a write is reported: the writer as
/// `after_write` has it. The index and the count, which follows the index, are
/// as `save_event` left them.
pub open spec fn write_completed(pre: DatabaseView, plan: WritePlanView, outcome: WriteOutcome) -> DatabaseView {
    DatabaseView { writer: after_write(pre.writer, plan, outcome), ..pre }
}

/// The status of a save whose write ended with `outcome`.
pub open spec fn completed_status(pre: DatabaseView, plan: WritePlanView, outcome: WriteOutcome) -> SaveEventStatusView {
    match write_result(pre.writer, plan, outcome) {
        Ok(_) => SaveEventStatusView::Saved,
        Err(e) => SaveEventStatusView::Error(SaveError::Write(e)),
    }
}

/// The ingest coordinator: the index, the rotating writer, the write policies
/// and the count of saved events.
pub struct FlatFileDatabase {
    out_dir: String,
    database: sled::Db,
    file: FlatFileWriter,
    item_count: u64,
    policies: Vec<WritePolicy>,
}

impl View for FlatFileDatabase {
    type V = DatabaseView;

    closed spec fn view(&self) -> DatabaseView {
        DatabaseView {
            out_dir: self.out_dir@,
            index: index_entries(self.database),
            writer: self.file@,
            count: self.item_count,
            policies: chain_view(self.policies@),
        }
    }
}

impl FlatFileDatabase {
    /// The coordinator over an index that is open: it works in `dir` with the
    /// writer `file` and the chain `policies`, and starts its count at `found`,
    /// the number of identifiers that a walk of the index came by. The index is
    /// this coordinator's alone from here on.
    pub fn opened(
        dir: String,
        database: sled::Db,
        file: FlatFileWriter,
        found: usize,
        policies: Vec<WritePolicy>,
    ) -> (db: Self)
        ensures
            db@ == (DatabaseView {
                out_dir: dir@,
                index: index_entries(database),
                writer: file@,
                count: found as u64,
                policies: chain_view(policies@),
            }),
    {
        FlatFileDatabase { out_dir: dir, database, file, item_count: found as u64, policies }
    }

    /// Opens the index below `dir` and starts a writer on the day of `now`, with
    /// no file open. The clock is looked at first: where `now` has no date
    /// token, nothing is opened. The index is then walked once, and the count
    /// starts at the number of identifiers that it holds; an index that cannot
    /// be read to its end does not open.
    pub fn new(dir: String, policies: Vec<WritePolicy>, now: i64) -> (r: Result<Self, OpenError>)
        ensures
            utc_date(now) is None ==> r == Err::<Self, OpenError>(OpenError::Clock),
            r matches Err(e) ==> (e == OpenError::Clock <==> utc_date(now) is None),
            r matches Ok(db) ==> {
                &&& db@.out_dir == dir@
                &&& db@.policies == chain_view(policies@)
                &&& db@.writer == (WriterView {
                    dir: dir@,
                    current_date: utc_date(now)->0,
                    current_handle: None,
                    ledger: Seq::empty(),
                })
                &&& db@.writer.wf()
                &&& db@.index.dom().finite()
                &&& db@.count == db@.index.dom().len()
            },
    {
        let file = match FlatFileWriter::new(dir.clone(), now) {
            Some(file) => file,
            None => {
                return Err(OpenError::Clock);
            },
        };
        let dir_chars = chars_of(dir.as_str());
        let name = chars_of("index");
        let index_path = join_path(dir_chars.as_slice(), name.as_slice());
        let index_path = string_of(index_path.as_slice());
        match index_open(index_path.as_str()) {
            Ok(database) => match index_scan(&database) {
                (items, None) => {
                    proof {
                        lemma_scan_counts(items@, index_entries(database));
                    }
                    Ok(Self::opened(dir, database, file, items.len(), policies))
                },
                (_, Some(e)) => Err(OpenError::Index(e)),
            },
            Err(e) => Err(OpenError::Index(classify(e))),
        }
    }

    /// Whether the index knows `event_id`.
    pub fn check_id(&self, event_id: &[u8]) -> (r: Result<DatabaseEventStatus, IndexError>)
        ensures
            r matches Ok(status) ==> (status == DatabaseEventStatus::Saved
                <==> self@.index.contains_key(event_id@)),
    {
        let answer = match index_contains(&self.database, event_id) {
            Ok(found) => Ok(found),
            Err(e) => Err(classify(e)),
        };
        lookup_status(answer)
    }

    /// The first step of a save: looks the event up, asks the policies, enters
    /// the event in the index and plans the write.
    pub fn save_event(&mut self, event: &Event, now: i64) -> (r: SaveStep)
        ensures
            save_began(old(self)@, event@, now, r@, final(self)@),
    {
        let status = match self.check_id(event.id().as_slice()) {
            Ok(status) => status,
            Err(e) => {
                return SaveStep::Done(SaveEventStatus::Error(SaveError::Lookup(e)));
            },
        };
        match admission(status, &self.policies, event) {
            Admission::Duplicate => {
                return SaveStep::Done(SaveEventStatus::Duplicate);
            },
            Admission::Rejected(reason) => {
                return SaveStep::Done(SaveEventStatus::Rejected(reason));
            },
            Admission::Admitted => {},
        }
        let value = encode_stamp(event.created_at());
        match index_insert(&mut self.database, event.id().as_slice(), value.as_slice()) {
            Ok(_) => {
                if self.item_count < u64::MAX {
                    self.item_count = self.item_count + 1;
                }
            },
            Err(e) => {
                return SaveStep::Done(SaveEventStatus::Error(SaveError::Insert(classify(e))));
            },
        }
        match self.file.write_event(event, now) {
            Ok(plan) => SaveStep::Write(plan),
            Err(e) => SaveStep::Done(SaveEventStatus::Error(SaveError::Write(e))),
        }
    }

    /// Records what became of a write that was planned by `write_event`: the
    /// writer moves on, the index and the count stay as they are.
    pub fn record_write(&mut self, plan: &WritePlan, outcome: WriteOutcome) -> (r: Result<
        (),
        WriteError,
    >)
        ensures
            final(self)@ == (DatabaseView {
                writer: after_write(old(self)@.writer, plan@, outcome),
                ..old(self)@
            }),
            r == write_result(old(self)@.writer, plan@, outcome),
            final(self)@.writer.wf(),
    {
        self.file.complete(plan, outcome)
    }

    /// The second step of a save: records what became of the write.
    pub fn complete_write(&mut self, plan: &WritePlan, outcome: WriteOutcome) -> (r:
        SaveEventStatus)
        ensures
            final(self)@ == write_completed(old(self)@, plan@, outcome),
            r@ == completed_status(old(self)@, plan@, outcome),
            final(self)@.writer.wf(),
    {
        match self.file.complete(plan, outcome) {
            Ok(_) => SaveEventStatus::Saved,
            Err(e) => SaveEventStatus::Error(SaveError::Write(e)),
        }
    }

    /// The plan of a write at the time `now`, as the writer makes it.
    pub fn write_event(&self, ev: &Event, now: i64) -> (r: Result<WritePlan, WriteError>)
        ensures
            r is Ok <==> utc_date(now) is Some,
            r matches Ok(plan) ==> plan@ == plan_for(self@.writer, utc_date(now)->0, ev@.json)
                && plan_fits(self@.writer, plan@),
            r matches Err(e) ==> e == WriteError::Clock,
    {
        self.file.write_event(ev, now)
    }

    /// The archive files among the entries read from the archive directory.
    pub fn list_files(&self, entries: Vec<DirEntry>) -> (r: Vec<ArchiveFile>)
        ensures
            files_view(r@) == listing(entries@),
    {
        let mut files: Vec<ArchiveFile> = Vec::new();
        let mut i: usize = 0;
        while i < entries.len()
            invariant
                i <= entries.len(),
                files_view(files@) == listing(entries@.take(i as int)),
            decreases entries.len() - i,
        {
            let ghost before = files_view(files@);
            let entry = &entries[i];
            proof {
                assert(entries@.take(i + 1).drop_last() =~= entries@.take(i as int));
                assert(entries@.take(i + 1).last() == entries@[i as int]);
            }
            if !entry.is_dir {
                let path = chars_of(entry.path.as_str());
                let name = file_name(path.as_slice());
                if archive_day(name.as_slice()).is_some() {
                    files.push(
                        ArchiveFile {
                            path: entry.path.clone(),
                            size: entry.size,
                            created: entry.created,
                        },
                    );
                    assert(files_view(files@) =~= before.push(
                        ArchiveFileView {
                            path: entry.path@,
                            size: entry.size,
                            created: entry.created,
                        },
                    ));
                }
            }
            i += 1;
        }
        assert(entries@.take(entries@.len() as int) =~= entries@);
        files
    }

    /// The path on disk that a request path asks for, for the caller to look
    /// at; `None` where the request is not for a file below the archive
    /// directory.
    pub fn resolve(&self, path: &str) -> (r: Option<String>)
        ensures
            r is Some <==> requested(path@) is Some,
            r matches Some(p) ==> p@ == joined(self@.out_dir, requested(path@)->0),
    {
        let chars = chars_of(path);
        if chars.len() < 2 || chars[0] != '/' || chars[1] == '/' {
            return None;
        }
        if names_parent(chars.as_slice()) {
            return None;
        }
        let relative = slice_of(chars.as_slice(), 1, chars.len());
        let dir = chars_of(self.out_dir.as_str());
        let full = join_path(dir.as_slice(), relative.as_slice());
        Some(string_of(full.as_slice()))
    }

    /// The archive file that a request path asks for, given what the file
    /// system holds at `resolve(path)`: found if and only if the request
    /// resolves, a regular file is there, and that file, with every link
    /// resolved, lies below the archive directory.
    pub fn get_file(&self, path: &str, found: Option<FileStat>) -> (r: Option<ArchiveFile>)
        ensures
            r is Some <==> requested(path@) is Some && found is Some && found->0.is_file
                && lies_within(found->0.canonical_dir@, found->0.canonical_path@),
            r matches Some(file) ==> file@ == (ArchiveFileView {
                path: joined(self@.out_dir, requested(path@)->0),
                size: found->0.size,
                created: found->0.created,
            }),
    {
        match (self.resolve(path), found) {
            (Some(full), Some(stat)) => {
                let dir = chars_of(stat.canonical_dir.as_str());
                let target = chars_of(stat.canonical_path.as_str());
                if stat.is_file && is_within(dir.as_slice(), target.as_slice()) {
                    Some(ArchiveFile { path: full, size: stat.size, created: stat.created })
                } else {
                    None
                }
            },
            _ => None,
        }
    }

    /// The identifiers that the index knows, with their creation times, in the
    /// order of the index: those of the beginning of a scan, up to the first
    /// key that is no identifier.
    pub fn list_ids(&self) -> (r: Vec<(Vec<u8>, u64)>)
        ensures
            exists|items: Seq<(Vec<u8>, Vec<u8>)>|
                begins_scan(items, self@.index) && ids_view(r@) == known_ids(items),
    {
        let (items, _) = index_scan(&self.database);
        let ids = decode_ids(&items);
        assert(begins_scan(items@, self@.index) && ids_view(ids@) == known_ids(items@));
        ids
    }

    /// The count of events for the listing page.
    pub fn count_keys(&self) -> (r: u64)
        ensures
            r == self@.count,
    {
        self.item_count
    }

    /// The directory of the archive.
    pub fn out_dir(&self) -> (r: &str)
        ensures
            r@ == self@.out_dir,
    {
        self.out_dir.as_str()
    }

    /// The rotating writer.
    pub fn writer(&self) -> (r: &FlatFileWriter)
        ensures
            r@ == self@.writer,
            r@.wf(),
    {
        let _ = self.file.dir();
        &self.file
    }
}

/// One save from its first step to its end: the state before, the event and
/// the time, what `save_event` returned and left, the outcome reported for the
/// write where there was one, and the state at the end.
pub struct Saving {
    pub before: DatabaseView,
    pub event: EventView,
    pub now: i64,
    pub step: SaveStepView,
    pub entered: DatabaseView,
    pub outcome: WriteOutcome,
    pub after: DatabaseView,
}

impl Saving {
    /// Whether the parts fit together as `save_event` and `complete_write`
    /// relate them.
    #[verifier::opaque]
    pub open spec fn valid(self) -> bool {
        &&& save_began(self.before, self.event, self.now, self.step, self.entered)
        &&& match self.step {
            SaveStepView::Done(_) => self.after == self.entered,
            SaveStepView::Write(plan) => self.after == write_completed(
                self.entered,
                plan,
                self.outcome,
            ),
        }
    }

    /// How the save ended.
    pub open spec fn status(self) -> SaveEventStatusView {
        match self.step {
            SaveStepView::Done(status) => status,
            SaveStepView::Write(plan) => completed_status(self.entered, plan, self.outcome),
        }
    }

    /// Whether the index could not be read.
    pub open spec fn lookup_failed(self) -> bool {
        self.status() matches SaveEventStatusView::Error(SaveError::Lookup(_))
    }

    /// Whether the index could not be written.
    pub open spec fn insert_failed(self) -> bool {
        self.status() matches SaveEventStatusView::Error(SaveError::Insert(_))
    }

    /// Whether the event was entered in the index: the save came as far as the
    /// write, whatever became of that.
    pub open spec fn entered(self) -> bool {
        match self.step {
            SaveStepView::Write(_) => true,
            SaveStepView::Done(SaveEventStatusView::Error(SaveError::Write(_))) => true,
            _ => false,
        }
    }
}

/// The lines of a ledger, oldest first.
pub open spec fn ledger_lines(ledger: Seq<(Seq<char>, Seq<u8>)>) -> Seq<Seq<u8>> {
    ledger.map_values(|entry: (Seq<char>, Seq<u8>)| entry.1)
}

/// Whether the save at `at` begins in the state in which the one before it
/// ended.
pub open spec fn continues(run: Seq<Saving>, at: int) -> bool {
    run[at].before == run[at - 1].after
}

/// Whether `run` is a run of saves, each beginning in the state in which the
/// one before it ended.
pub open spec fn is_run(run: Seq<Saving>) -> bool {
    &&& forall|i: int| 0 <= i < run.len() ==> (#[trigger] run[i]).valid()
    &&& forall|i: int| 0 < i < run.len() ==> #[trigger] continues(run, i)
}

/// The lines of the events that a run saved, in the order of the saves.
pub open spec fn saved_lines(run: Seq<Saving>) -> Seq<Seq<u8>>
    decreases run.len(),
{
    if run.len() == 0 {
        Seq::empty()
    } else if run.last().status() is Saved {
        saved_lines(run.drop_last()).push(line_of(run.last().event.json))
    } else {
        saved_lines(run.drop_last())
    }
}

/// What one save does to the archive. A save that ends as saved enters the
/// event in the index, counts it, and adds exactly one line to the ledger: the
/// line of the event, for the live file of the day. A save that ends in any
/// other way adds no line. The count follows the index: it is one more exactly
/// where the index has gained the identifier, written or not, and never falls.
pub proof fn lemma_one_save(s: Saving)
    requires
        s.valid(),
        s.before.writer.wf(),
    ensures
        s.after.writer.wf(),
        s.status() is Saved ==> {
            &&& !s.before.index.contains_key(s.event.id)
            &&& s.after.index == s.before.index.insert(s.event.id, stamp(s.event.created_at))
            &&& utc_date(s.now) is Some
            &&& s.after.writer.ledger == s.before.writer.ledger.push(
                (live_path_of(s.before, utc_date(s.now)->0), line_of(s.event.json)),
            )
            &&& s.after.count == counted(s.before.count)
        },
        !(s.status() is Saved) ==> s.after.writer.ledger == s.before.writer.ledger,
        s.entered() ==> {
            &&& s.after.index == s.before.index.insert(s.event.id, stamp(s.event.created_at))
            &&& s.after.count == counted(s.before.count)
        },
        !s.entered() && !s.insert_failed() ==> {
            &&& s.after.index == s.before.index
            &&& s.after.count == s.before.count
        },
        s.after.count >= s.before.count,
{
    reveal(Saving::valid);
}

/// The count is the number of identifiers in the index. Where that is so
/// before a save, with the count below the largest that it can hold, it is so
/// after the save, unless the write of the index failed.
pub proof fn lemma_count_is_index_size(s: Saving)
    requires
        s.valid(),
        s.before.index.dom().finite(),
        s.before.count == s.before.index.dom().len(),
        s.before.count < u64::MAX,
        !s.insert_failed(),
    ensures
        s.after.index.dom().finite(),
        s.after.count == s.after.index.dom().len(),
{
    reveal(Saving::valid);
    if s.entered() {
        assert(s.after.index.dom() =~= s.before.index.dom().insert(s.event.id));
    }
}

/// The path of the live file of a day in the directory of the writer.
pub open spec fn live_path_of(state: DatabaseView, date: Seq<char>) -> Seq<char> {
    crate::names::live_path(state.writer.dir, date)
}

/// Saving is idempotent. After a save of an event has ended as saved, the next
/// save of the same event, at whatever time, ends as a duplicate and changes
/// nothing, so that the two saves together add one line. Left out is the case
/// that the index cannot be read for the second save.
pub proof fn lemma_saved_then_duplicate(first: Saving, second: Saving)
    requires
        first.valid(),
        second.valid(),
        first.before.writer.wf(),
        first.status() is Saved,
        second.before == first.after,
        second.event == first.event,
        !second.lookup_failed(),
    ensures
        second.status() is Duplicate,
        second.after == first.after,
        ledger_lines(second.after.writer.ledger) == ledger_lines(first.before.writer.ledger).push(
            line_of(first.event.json),
        ),
{
    reveal(Saving::valid);
    lemma_one_save(first);
    assert(first.after.index.contains_key(first.event.id));
    let path = live_path_of(first.before, utc_date(first.now)->0);
    assert(ledger_lines(first.before.writer.ledger.push((path, line_of(first.event.json))))
        =~= ledger_lines(first.before.writer.ledger).push(line_of(first.event.json)));
}

/// Policies take precedence over everything but the duplicate check. Where the
/// index does not know the event and some policy rejects its kind, the save
/// ends as rejected, with the reason of the first policy in the chain that
/// rejects, and neither the index nor the writer nor the count changes. Left
/// out is the case that the index cannot be read.
pub proof fn lemma_policy_precedence(s: Saving, rejecting: int)
    requires
        s.valid(),
        !s.before.index.contains_key(s.event.id),
        0 <= rejecting < s.before.policies.len(),
        s.before.policies[rejecting].decision(s.event.kind) is Some,
        !s.lookup_failed(),
    ensures
        s.after == s.before,
        exists|first: int|
            {
                &&& 0 <= first <= rejecting
                &&& (#[trigger] s.before.policies[first]).decision(s.event.kind) matches Some(
                    reason,
                ) && s.status() == SaveEventStatusView::Rejected(reason)
                &&& forall|j: int|
                    0 <= j < first ==> (#[trigger] s.before.policies[j]).decision(s.event.kind)
                        is None
            },
{
    reveal(Saving::valid);
    lemma_first_rejection(s.before.policies, s.event.kind);
    let first = choose|i: int|
        {
            &&& 0 <= i < s.before.policies.len()
            &&& (#[trigger] s.before.policies[i]).decision(s.event.kind) == first_rejection(
                s.before.policies,
                s.event.kind,
            )
            &&& forall|j: int|
                0 <= j < i ==> (#[trigger] s.before.policies[j]).decision(s.event.kind) is None
        };
    if first > rejecting {
        assert(s.before.policies[rejecting].decision(s.event.kind) is None);
    }
    assert(s.before.policies[first].decision(s.event.kind) matches Some(reason) && s.status()
        == SaveEventStatusView::Rejected(reason));
}

/// A run without its last save is a run, and the last save begins where it
/// ends.
proof fn lemma_run_front(run: Seq<Saving>)
    requires
        run.len() > 1,
        is_run(run),
    ensures
        is_run(run.drop_last()),
        run.drop_last()[0] == run[0],
        run.last().before == run.drop_last().last().after,
        run.last().valid(),
{
    let front = run.drop_last();
    assert forall|i: int| 0 < i < front.len() implies #[trigger] continues(front, i) by {
        assert(continues(run, i));
    }
    assert(continues(run, run.len() - 1));
}

/// The archive holds what was saved. Over any run of saves, the ledger gains
/// the lines of the events whose save ended as saved, in the order of the
/// saves, and nothing else; the count never falls.
pub proof fn lemma_archive_is_what_was_saved(run: Seq<Saving>)
    requires
        run.len() > 0,
        is_run(run),
        run[0].before.writer.wf(),
    ensures
        run.last().after.writer.wf(),
        ledger_lines(run.last().after.writer.ledger) == ledger_lines(run[0].before.writer.ledger)
            + saved_lines(run),
        run.last().after.count >= run[0].before.count,
    decreases run.len(),
{
    let last = run.last();
    let start = ledger_lines(run[0].before.writer.ledger);
    let front = run.drop_last();
    if run.len() == 1 {
        assert(saved_lines(front) =~= Seq::empty());
        assert(last == run[0]);
    } else {
        lemma_run_front(run);
        lemma_archive_is_what_was_saved(front);
    }
    assert(last.valid());
    assert(ledger_lines(last.before.writer.ledger) == start + saved_lines(front));
    lemma_one_save(last);
    if last.status() is Saved {
        let path = live_path_of(last.before, utc_date(last.now)->0);
        let line = line_of(last.event.json);
        assert(ledger_lines(last.before.writer.ledger.push((path, line))) =~= ledger_lines(
            last.before.writer.ledger,
        ).push(line));
        assert(saved_lines(run) == saved_lines(front).push(line));
        assert((start + saved_lines(front)).push(line) =~= start + saved_lines(front).push(line));
    } else {
        assert(saved_lines(run) == saved_lines(front));
    }
}

/// As bags of lines: after a run of saves from an empty archive, the lines of
/// the archive are the lines of the events that were saved, each as often as it
/// was saved.
pub proof fn lemma_archive_round_trip(run: Seq<Saving>)
    requires
        run.len() > 0,
        is_run(run),
        run[0].before.writer.wf(),
        run[0].before.writer.ledger.len() == 0,
    ensures
        ledger_lines(run.last().after.writer.ledger).to_multiset() == saved_lines(
            run,
        ).to_multiset(),
{
    lemma_archive_is_what_was_saved(run);
    assert(ledger_lines(run[0].before.writer.ledger) =~= Seq::empty());
    assert(Seq::<Seq<u8>>::empty() + saved_lines(run) =~= saved_lines(run));
}

/// The index forgets nothing. A save in which the write of the index does not
/// fail leaves every identifier that was known, known.
pub proof fn lemma_index_grows(s: Saving, id: Seq<u8>)
    requires
        s.valid(),
        !s.insert_failed(),
        s.before.index.contains_key(id),
    ensures
        s.after.index.contains_key(id),
{
    reveal(Saving::valid);
}

/// No line without an entry in the index. At the end of a run of saves in
/// which no write of the index fails, the index knows the identifier of every
/// event whose save ended as saved.
pub proof fn lemma_saved_is_indexed(run: Seq<Saving>, at: int)
    requires
        is_run(run),
        0 <= at < run.len(),
        forall|i: int| 0 <= i < run.len() ==> !(#[trigger] run[i]).insert_failed(),
        run[at].status() is Saved,
        run[at].before.writer.wf(),
    ensures
        run.last().after.index.contains_key(run[at].event.id),
    decreases run.len(),
{
    if at == run.len() - 1 {
        lemma_one_save(run[at]);
    } else {
        lemma_run_front(run);
        let front = run.drop_last();
        assert(forall|i: int| 0 <= i < front.len() ==> front[i] == run[i]);
        lemma_saved_is_indexed(front, at);
        lemma_index_grows(run.last(), run[at].event.id);
    }
}

/// Path safety. A request path with a component `..`, and so one in which
/// `/..` stands before a slash or at the end, asks for nothing; nor does one
/// that still begins with `/` once its leading `/` is taken off. What a request
/// path does ask for has no component `..`, does not begin with `/`, and lies
/// below the archive directory as the path is written.
pub proof fn lemma_path_safety(dir: Seq<char>, path: Seq<char>)
    ensures
        has_parent_component(path) ==> requested(path) is None,
        forall|at: int|
            #[trigger] occurs_at(path, at, "/.."@) && (at + 3 == path.len() || path[at + 3] == '/')
                ==> requested(path) is None,
        path.len() >= 2 && path[1] == '/' ==> requested(path) is None,
        requested(path) matches Some(relative) ==> {
            &&& relative.len() > 0
            &&& relative[0] != '/'
            &&& !has_parent_component(relative)
            &&& has_prefix(joined(dir, relative), dir)
        },
{
    reveal_strlit("..");
    reveal_strlit("/..");
    assert forall|at: int|
        #[trigger] occurs_at(path, at, "/.."@) && (at + 3 == path.len() || path[at + 3]
            == '/') implies requested(path) is None by {
        let found = path.subrange(at, at + 3);
        assert(found[0] == '/' && found[1] == '.' && found[2] == '.');
        assert(path.subrange(at + 1, at + 3) =~= ".."@);
        assert(is_parent_component(path, at + 1));
    }
    if requested(path) is Some {
        let relative = path.skip(1);
        if has_parent_component(relative) {
            let at = choose|at: int| is_parent_component(relative, at);
            assert(path.subrange(at + 1, at + 3) =~= relative.subrange(at, at + 2));
            assert(is_parent_component(path, at + 1));
        }
        let full = joined(dir, relative);
        assert(full.subrange(0, dir.len() as int) =~= dir);
    }
}

/// Dots inside a name are no way out. A request path of one component that is
/// not `..` asks for that component, however many dots it holds.
pub proof fn lemma_single_component(name: Seq<char>)
    requires
        name.len() > 0,
        name != ".."@,
        forall|i: int| 0 <= i < name.len() ==> name[i] != '/',
    ensures
        requested(seq!['/'] + name) == Some(name),
{
    reveal_strlit("..");
    let path = seq!['/'] + name;
    assert(path.skip(1) =~= name);
    assert forall|at: int| !is_parent_component(path, at) by {
        if is_parent_component(path, at) {
            if at == 0 {
                assert(path.subrange(0, 2)[0] == '.');
            } else {
                assert(path[at - 1] == '/');
                assert(at == 1);
                assert(at + 2 == path.len());
                assert(path.subrange(1, 3) =~= name);
            }
        }
    }
}

} // verus!
