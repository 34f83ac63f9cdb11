//! The rotating writer: which archive file an event line goes to, when the
//! open file is closed and handed to compaction, and what the writer holds
//! after each attempt.
//!
//! The writer decides; the caller performs the file operations of a
//! [`WritePlan`] and reports how far it got.
use crate::event::Event;
use crate::names::{
    base_name, check_date_token, compressed_path, date_field, date_field_of, is_archive_name,
    is_date_token, lemma_base_name_of_joined, lemma_live_name, live_file_path, live_name, live_path,
};
use crate::text::{chars_of, same_text, string_of};
use vstd::prelude::*;
use vstd::string::StrSliceExecFns;

verus! {

/// What `chrono` writes for the UTC time `secs` seconds after the epoch under
/// the format `fmt`; `None` where it has no such time or cannot format it.
pub uninterp spec fn utc_formatted(secs: i64, fmt: Seq<char>) -> Option<Seq<char>>;

/// The seconds from the epoch to midnight UTC of the date that `chrono` reads
/// from `token` under the format `fmt`; `None` where it reads none.
pub uninterp spec fn date_midnight(token: Seq<char>, fmt: Seq<char>) -> Option<i64>;

/// `chrono::DateTime::from_timestamp` followed by `format` and
/// `DelayedFormat::write_to`: the UTC time `secs` seconds after the epoch,
/// written under `fmt`. The result is `None` where the time is out of chrono's
/// range or the format cannot be written.
#[verifier::external_body]
fn format_utc(secs: i64, fmt: &str) -> (r: Option<String>)
    ensures
        r is Some <==> utc_formatted(secs, fmt@) is Some,
        r matches Some(s) ==> utc_formatted(secs, fmt@) == Some(s@),
{
    let time = chrono::DateTime::from_timestamp(secs, 0)?;
    let mut out = String::new();
    time.format(fmt).write_to(&mut out).ok()?;
    Some(out)
}

/// `chrono::NaiveDate::parse_from_str`, the date then taken at midnight UTC as
/// seconds since the epoch (`and_hms_opt(0, 0, 0)`, `and_utc`, `timestamp`).
#[verifier::external_body]
fn parse_date(token: &str, fmt: &str) -> (r: Option<i64>)
    ensures
        r == date_midnight(token@, fmt@),
{
    let date = chrono::NaiveDate::parse_from_str(token, fmt).ok()?;
    Some(date.and_hms_opt(0, 0, 0)?.and_utc().timestamp())
}

/// The format of the date in an archive file's name.
pub const EVENT_FORMAT: &'static str = "%Y%m%d";

/// The date token of the UTC day in which `secs` falls; `None` where the day
/// has no eight-digit token.
pub open spec fn utc_date(secs: i64) -> Option<Seq<char>> {
    match utc_formatted(secs, EVENT_FORMAT@) {
        Some(token) => if is_date_token(token) {
            Some(token)
        } else {
            None
        },
        None => None,
    }
}

/// The bytes of one archive line: the UTF-8 form of the JSON text, then a line
/// feed.
pub open spec fn line_of(json: Seq<char>) -> Seq<u8> {
    vstd::utf8::encode_utf8(json).push(10u8)
}

/// The state of the writer.
pub struct WriterView {
    /// The directory of the archive.
    pub dir: Seq<char>,
    /// The day that the writer is on.
    pub current_date: Seq<char>,
    /// The path of the file that is open for appending, if one is.
    pub current_handle: Option<Seq<char>>,
    /// Every line whose append was reported as done, with its file, oldest
    /// first.
    pub ledger: Seq<(Seq<char>, Seq<u8>)>,
}

impl WriterView {
    /// The day is a date token, and an open file is the live file of that day.
    pub open spec fn wf(self) -> bool {
        &&& is_date_token(self.current_date)
        &&& self.current_handle matches Some(path) ==> path == live_path(
            self.dir,
            self.current_date,
        )
    }
}

/// What one write asks of the caller, in this order: flush and close `rotate`
/// and hand it to compaction; open `open` for appending, creating it if it is
/// missing; append `line` to `path`.
pub struct WritePlan {
    pub date: String,
    pub rotate: Option<String>,
    pub open: Option<String>,
    pub path: String,
    pub line: Vec<u8>,
}

/// A plan as the contracts read it.
pub struct WritePlanView {
    pub date: Seq<char>,
    pub rotate: Option<Seq<char>>,
    pub open: Option<Seq<char>>,
    pub path: Seq<char>,
    pub line: Seq<u8>,
}

/// The text of a string that may be absent.
pub open spec fn text_of(s: Option<String>) -> Option<Seq<char>> {
    match s {
        Some(s) => Some(s@),
        None => None,
    }
}

impl View for WritePlan {
    type V = WritePlanView;

    open spec fn view(&self) -> WritePlanView {
        WritePlanView {
            date: self.date@,
            rotate: text_of(self.rotate),
            open: text_of(self.open),
            path: self.path@,
            line: self.line@,
        }
    }
}

/// How far the caller got with a plan.
#[derive(Clone, Copy, Debug, PartialEq, Eq, Structural)]
pub enum WriteOutcome {
    /// The line is appended.
    Written,
    /// The file to rotate could not be flushed; nothing else was tried.
    FlushFailed,
    /// The file to open could not be opened; nothing was appended.
    OpenFailed,
    /// The file is open, and the append failed.
    AppendFailed,
}

/// Why a write failed.
#[derive(Clone, Copy, Debug, PartialEq, Eq, Structural)]
pub enum WriteError {
    /// The time has no date token.
    Clock,
    /// The plan is not one of this writer.
    Plan,
    Flush,
    Open,
    Append,
}

/// The plan of a writer in state `w` for the line of `json` on the day `today`.
/// A file that is open is rotated if and only if the day has changed; a file is
/// opened after a rotation and whenever none is open; the line always goes to
/// the live file of `today`.
pub open spec fn plan_for(w: WriterView, today: Seq<char>, json: Seq<char>) -> WritePlanView {
    WritePlanView {
        date: today,
        rotate: if today != w.current_date {
            w.current_handle
        } else {
            None
        },
        open: if today != w.current_date || w.current_handle is None {
            Some(live_path(w.dir, today))
        } else {
            None
        },
        path: live_path(w.dir, today),
        line: line_of(json),
    }
}

/// Whether `plan` names a day and the live file of that day in the writer's
/// directory.
pub open spec fn plan_fits(w: WriterView, plan: WritePlanView) -> bool {
    &&& is_date_token(plan.date)
    &&& plan.path == live_path(w.dir, plan.date)
}

/// The writer after the caller reports `outcome` for `plan`. A plan that does
/// not fit changes nothing. After a failed flush no file is open and the day
/// is unchanged. Otherwise the writer is on the plan's day: with no file open
/// after a failed open, with the plan's file open after an append, and with one
/// more line in the ledger if the append was done.
pub open spec fn after_write(w: WriterView, plan: WritePlanView, outcome: WriteOutcome) -> WriterView {
    if !plan_fits(w, plan) {
        w
    } else {
        match outcome {
            WriteOutcome::FlushFailed => WriterView { current_handle: None, ..w },
            WriteOutcome::OpenFailed => WriterView {
                current_date: plan.date,
                current_handle: None,
                ..w
            },
            WriteOutcome::AppendFailed => WriterView {
                current_date: plan.date,
                current_handle: Some(plan.path),
                ..w
            },
            WriteOutcome::Written => WriterView {
                current_date: plan.date,
                current_handle: Some(plan.path),
                ledger: w.ledger.push((plan.path, plan.line)),
                ..w
            },
        }
    }
}

/// What the caller is told after it reports `outcome` for `plan`.
pub open spec fn write_result(w: WriterView, plan: WritePlanView, outcome: WriteOutcome) -> Result<
    (),
    WriteError,
> {
    if !plan_fits(w, plan) {
        Err(WriteError::Plan)
    } else {
        match outcome {
            WriteOutcome::Written => Ok(()),
            WriteOutcome::FlushFailed => Err(WriteError::Flush),
            WriteOutcome::OpenFailed => Err(WriteError::Open),
            WriteOutcome::AppendFailed => Err(WriteError::Append),
        }
    }
}

/// The rotating writer.
pub struct FlatFileWriter {
    dir: String,
    current_date: String,
    current_handle: Option<String>,
    ledger: Ghost<Seq<(Seq<char>, Seq<u8>)>>,
}

impl View for FlatFileWriter {
    type V = WriterView;

    closed spec fn view(&self) -> WriterView {
        WriterView {
            dir: self.dir@,
            current_date: self.current_date@,
            current_handle: text_of(self.current_handle),
            ledger: self.ledger@,
        }
    }
}

/// The date token of the UTC day in which `now` falls.
pub fn date_token(now: i64) -> (r: Option<String>)
    ensures
        r is Some <==> utc_date(now) is Some,
        r matches Some(token) ==> utc_date(now) == Some(token@),
{
    match format_utc(now, EVENT_FORMAT) {
        Some(token) => {
            let chars = chars_of(token.as_str());
            if check_date_token(chars.as_slice()) {
                Some(token)
            } else {
                None
            }
        },
        None => None,
    }
}

impl FlatFileWriter {
    #[verifier::type_invariant]
    spec fn inv(&self) -> bool {
        self@.wf()
    }

    /// A writer for the directory `dir` that starts on the day of `now` with
    /// no file open; `None` where that day has no date token.
    pub fn new(dir: String, now: i64) -> (r: Option<Self>)
        ensures
            r is Some <==> utc_date(now) is Some,
            r matches Some(w) ==> w@ == (WriterView {
                dir: dir@,
                current_date: utc_date(now)->0,
                current_handle: None,
                ledger: Seq::empty(),
            }) && w@.wf(),
    {
        match date_token(now) {
            Some(current_date) => Some(
                FlatFileWriter {
                    dir,
                    current_date,
                    current_handle: None,
                    ledger: Ghost(Seq::empty()),
                },
            ),
            None => None,
        }
    }

    pub fn dir(&self) -> (r: &str)
        ensures
            r@ == self@.dir,
            self@.wf(),
    {
        proof {
            use_type_invariant(self);
        }
        self.dir.as_str()
    }

    pub fn current_date(&self) -> (r: &str)
        ensures
            r@ == self@.current_date,
            self@.wf(),
    {
        proof {
            use_type_invariant(self);
        }
        self.current_date.as_str()
    }

    pub fn current_handle(&self) -> (r: Option<&str>)
        ensures
            r is Some <==> self@.current_handle is Some,
            r matches Some(path) ==> self@.current_handle == Some(path@),
            self@.wf(),
    {
        proof {
            use_type_invariant(self);
        }
        match &self.current_handle {
            Some(path) => Some(path.as_str()),
            None => None,
        }
    }

    /// The plan for the line of `ev` on the day `today`; `None` where `today`
    /// is no date token. The writer itself changes only in `complete`.
    pub fn write_event_on(&self, ev: &Event, today: &str) -> (r: Option<WritePlan>)
        ensures
            self@.wf(),
            r is Some <==> is_date_token(today@),
            r matches Some(plan) ==> plan@ == plan_for(self@, today@, ev@.json) && plan_fits(
                self@,
                plan@,
            ),
    {
        proof {
            use_type_invariant(self);
        }
        let day = chars_of(today);
        if !check_date_token(day.as_slice()) {
            return None;
        }
        let current = chars_of(self.current_date.as_str());
        let rolled = !same_text(day.as_slice(), current.as_slice());
        let dir = chars_of(self.dir.as_str());
        let target = live_file_path(dir.as_slice(), day.as_slice());
        let path = string_of(target.as_slice());
        let rotate = if rolled {
            self.current_handle.clone()
        } else {
            None
        };
        let open = if rolled || self.current_handle.is_none() {
            Some(path.clone())
        } else {
            None
        };
        let mut line = ev.as_json().as_bytes_vec();
        line.push(10u8);
        Some(WritePlan { date: string_of(day.as_slice()), rotate, open, path, line })
    }

    /// The plan for the line of `ev` at the time `now`, in seconds since the
    /// epoch: that of `write_event_on` for the UTC day of `now`.
    pub fn write_event(&self, ev: &Event, now: i64) -> (r: Result<WritePlan, WriteError>)
        ensures
            self@.wf(),
            r is Ok <==> utc_date(now) is Some,
            r matches Ok(plan) ==> plan@ == plan_for(self@, utc_date(now)->0, ev@.json)
                && plan_fits(self@, plan@),
            r matches Err(e) ==> e == WriteError::Clock,
    {
        proof {
            use_type_invariant(self);
        }
        match date_token(now) {
            Some(today) => match self.write_event_on(ev, today.as_str()) {
                Some(plan) => Ok(plan),
                None => Err(WriteError::Clock),
            },
            None => Err(WriteError::Clock),
        }
    }

    /// Records what became of `plan`.
    pub fn complete(&mut self, plan: &WritePlan, outcome: WriteOutcome) -> (r: Result<
        (),
        WriteError,
    >)
        ensures
            final(self)@ == after_write(old(self)@, plan@, outcome),
            r == write_result(old(self)@, plan@, outcome),
            final(self)@.wf(),
    {
        proof {
            use_type_invariant(&*self);
        }
        let day = chars_of(plan.date.as_str());
        let dir = chars_of(self.dir.as_str());
        let path = chars_of(plan.path.as_str());
        let expected = live_file_path(dir.as_slice(), day.as_slice());
        if !check_date_token(day.as_slice()) || !same_text(path.as_slice(), expected.as_slice()) {
            return Err(WriteError::Plan);
        }
        self.current_handle = None;
        match outcome {
            WriteOutcome::FlushFailed => Err(WriteError::Flush),
            WriteOutcome::OpenFailed => {
                self.current_date = plan.date.clone();
                Err(WriteError::Open)
            },
            WriteOutcome::AppendFailed => {
                self.current_date = plan.date.clone();
                self.current_handle = Some(plan.path.clone());
                Err(WriteError::Append)
            },
            WriteOutcome::Written => {
                self.current_date = plan.date.clone();
                self.current_handle = Some(plan.path.clone());
                self.ledger = Ghost(self.ledger@.push((plan.path@, plan.line@)));
                Ok(())
            },
        }
    }

    /// The start, in seconds since the epoch, of the UTC day that the name of
    /// the archive file at `path` carries; `None` where its date field is no
    /// date.
    pub fn parse_timestamp(path: &str) -> (r: Option<i64>)
        ensures
            r == date_midnight(date_field(path@), EVENT_FORMAT@),
    {
        let chars = chars_of(path);
        let field = date_field_of(chars.as_slice());
        let token = string_of(field.as_slice());
        parse_date(token.as_str(), EVENT_FORMAT)
    }
}

/// Day rotation. Where a file is open and the day has changed, the plan closes
/// the file of the old day and hands it to compaction, opens the live file of
/// the new day and appends the line there; the name of that file is an archive
/// name and carries the new day. Once the line is written the writer is on the
/// new day with that file open, and the ledger has gained the line.
pub proof fn lemma_day_rotation(w: WriterView, today: Seq<char>, json: Seq<char>)
    requires
        w.wf(),
        is_date_token(today),
        today != w.current_date,
        w.current_handle is Some,
    ensures
        ({
            let plan = plan_for(w, today, json);
            let after = after_write(w, plan, WriteOutcome::Written);
            &&& plan.rotate == Some(live_path(w.dir, w.current_date))
            &&& plan.open == Some(live_path(w.dir, today))
            &&& plan.path == live_path(w.dir, today)
            &&& plan.path != live_path(w.dir, w.current_date)
            &&& base_name(plan.path) == live_name(today)
            &&& is_archive_name(base_name(plan.path))
            &&& date_field(plan.path) == today
            &&& is_archive_name(base_name(compressed_path(plan.rotate->0)))
            &&& after.current_date == today
            &&& after.current_handle == Some(plan.path)
            &&& after.ledger == w.ledger.push((plan.path, line_of(json)))
            &&& after.wf()
        }),
{
    lemma_live_file(w.dir, today);
    lemma_live_file(w.dir, w.current_date);
    assert(live_name(today) != live_name(w.current_date)) by {
        if live_name(today) == live_name(w.current_date) {
            reveal_strlit("events_");
            assert(live_name(today).subrange(7, 15) =~= today);
            assert(live_name(w.current_date).subrange(7, 15) =~= w.current_date);
        }
    }
}

/// The live file of a day lies in the directory under the live name of the
/// day, and so does its compressed sibling under that name with `.zst`; both
/// names are archive names and carry the day.
pub proof fn lemma_live_file(dir: Seq<char>, date: Seq<char>)
    requires
        is_date_token(date),
    ensures
        base_name(live_path(dir, date)) == live_name(date),
        base_name(compressed_path(live_path(dir, date))) == compressed_path(live_name(date)),
        is_archive_name(base_name(live_path(dir, date))),
        is_archive_name(base_name(compressed_path(live_path(dir, date)))),
        date_field(live_path(dir, date)) == date,
        date_field(compressed_path(live_path(dir, date))) == date,
{
    lemma_live_name(date);
    let name = live_name(date);
    let packed = compressed_path(name);
    lemma_base_name_of_joined(dir, name);
    lemma_base_name_of_joined(dir, packed);
    assert(compressed_path(live_path(dir, date)) =~= crate::names::joined(dir, packed));
    lemma_base_name_of_joined(Seq::empty(), name);
    lemma_base_name_of_joined(Seq::empty(), packed);
}

/// Within one day the writer keeps its file: a plan for the day that the writer
/// is on rotates nothing, and opens a file only where none is open.
pub proof fn lemma_same_day(w: WriterView, json: Seq<char>)
    requires
        w.wf(),
    ensures
        ({
            let plan = plan_for(w, w.current_date, json);
            &&& plan.rotate is None
            &&& plan.open is Some <==> w.current_handle is None
            &&& w.current_handle matches Some(path) ==> plan.path == path
        }),
{
}

} // verus!
