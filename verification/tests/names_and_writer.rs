use archive_relay::compactor::{Compaction, CompactionAction, CompactionStage};
use archive_relay::event::Event;
use archive_relay::names::{
    archive_day, check_date_token, compressed_file_path, date_field_of, file_name, join_path,
    live_file_name, live_file_path, stem_of,
};
use archive_relay::writer::{
    date_token, FlatFileWriter, WriteError, WriteOutcome, EVENT_FORMAT,
};

fn chars(s: &str) -> Vec<char> {
    s.chars().collect()
}

fn text(v: Vec<char>) -> String {
    v.into_iter().collect()
}

fn event(id: u8, kind: u16, json: &str) -> Event {
    Event::new([id; 32], 1_700_000_000, kind, json.to_string()).unwrap()
}

// 2024-01-01T23:59:59Z and two seconds later
const BEFORE_MIDNIGHT: i64 = 1704153599;
const AFTER_MIDNIGHT: i64 = 1704153601;

#[test]
fn date_tokens_are_eight_digits() {
    assert!(check_date_token(&chars("20240101")));
    assert!(check_date_token(&chars("00000000")));
    assert!(!check_date_token(&chars("2024010")));
    assert!(!check_date_token(&chars("202401011")));
    assert!(!check_date_token(&chars("2024-1-1")));
    assert!(!check_date_token(&chars("2024010a")));
    assert!(!check_date_token(&chars("")));
    assert!(!check_date_token(&chars("２０２４０１０１")));
}

#[test]
fn archive_files_are_named_after_their_day() {
    assert_eq!(text(live_file_name(&chars("20240101"))), "events_20240101.jsonl");
    assert_eq!(
        text(compressed_file_path(&chars("data/events_20240101.jsonl"))),
        "data/events_20240101.jsonl.zst"
    );
    assert_eq!(
        text(live_file_path(&chars("./data"), &chars("20240102"))),
        "./data/events_20240102.jsonl"
    );
}

#[test]
fn paths_are_joined_with_one_separator() {
    assert_eq!(text(join_path(&chars("data"), &chars("index"))), "data/index");
    assert_eq!(text(join_path(&chars("data/"), &chars("index"))), "data/index");
    assert_eq!(text(join_path(&chars(""), &chars("index"))), "index");
    assert_eq!(text(join_path(&chars("/"), &chars("index"))), "/index");
    assert_eq!(text(join_path(&chars("/var/lib/archive"), &chars("a/b"))), "/var/lib/archive/a/b");
}

#[test]
fn archive_names_are_recognised() {
    assert_eq!(archive_day(&chars("events_20240101.jsonl")), Some(chars("20240101")));
    assert_eq!(archive_day(&chars("events_20240101.jsonl.zst")), Some(chars("20240101")));
    assert_eq!(archive_day(&chars("events_19991231.jsonl")), Some(chars("19991231")));
    assert_eq!(archive_day(&chars("events_2024010.jsonl")), None);
    assert_eq!(archive_day(&chars("events_202401011.jsonl")), None);
    assert_eq!(archive_day(&chars("events_2024010a.jsonl")), None);
    assert_eq!(archive_day(&chars("events_20240101.json")), None);
    assert_eq!(archive_day(&chars("events_20240101.jsonl.zstd")), None);
    assert_eq!(archive_day(&chars("events_20240101.jsonl.zs")), None);
    assert_eq!(archive_day(&chars("event_20240101.jsonl")), None);
    assert_eq!(archive_day(&chars("Events_20240101.jsonl")), None);
    assert_eq!(archive_day(&chars("events_20240101")), None);
    assert_eq!(archive_day(&chars("index")), None);
    assert_eq!(archive_day(&chars("")), None);
    assert_eq!(archive_day(&chars("x/events_20240101.jsonl")), None);
}

#[test]
fn names_stems_and_date_fields_are_cut_out_of_paths() {
    assert_eq!(text(file_name(&chars("data/events_20240101.jsonl"))), "events_20240101.jsonl");
    assert_eq!(text(file_name(&chars("events_20240101.jsonl"))), "events_20240101.jsonl");
    assert_eq!(text(file_name(&chars("/a/b/c"))), "c");
    assert_eq!(text(file_name(&chars("a/b/"))), "b");
    assert_eq!(text(file_name(&chars("a/b//"))), "b");
    assert_eq!(text(file_name(&chars("a/b/."))), "b");
    assert_eq!(text(file_name(&chars("a/b/./"))), "b");
    assert_eq!(text(file_name(&chars("a/b."))), "b.");
    assert_eq!(text(file_name(&chars("/"))), "");
    assert_eq!(text(file_name(&chars("/."))), "");
    assert_eq!(text(file_name(&chars(""))), "");
    assert_eq!(text(file_name(&chars("."))), ".");
    assert_eq!(text(file_name(&chars("a/.."))), "..");
    assert_eq!(text(stem_of(&chars("events_20240101.jsonl"))), "events_20240101");
    assert_eq!(text(stem_of(&chars("events_20240101.jsonl.zst"))), "events_20240101.jsonl");
    assert_eq!(text(stem_of(&chars("noext"))), "noext");
    assert_eq!(text(stem_of(&chars(".hidden"))), ".hidden");
    assert_eq!(text(stem_of(&chars(""))), "");
    assert_eq!(text(date_field_of(&chars("data/events_20240101.jsonl"))), "20240101");
    assert_eq!(text(date_field_of(&chars("data/events_20240101.jsonl.zst"))), "20240101");
    assert_eq!(text(date_field_of(&chars("a_b/c_d_19700102.x.y"))), "19700102");
    assert_eq!(text(date_field_of(&chars("plain"))), "plain");
    assert_eq!(text(date_field_of(&chars("data/events_20240101.jsonl/"))), "20240101");
    assert_eq!(text(date_field_of(&chars("data/events_20240101.jsonl/."))), "20240101");
}

#[test]
fn the_day_of_a_time_is_its_utc_date() {
    assert_eq!(EVENT_FORMAT, "%Y%m%d");
    assert_eq!(date_token(0), Some("19700101".to_string()));
    assert_eq!(date_token(86399), Some("19700101".to_string()));
    assert_eq!(date_token(86400), Some("19700102".to_string()));
    assert_eq!(date_token(-1), Some("19691231".to_string()));
    assert_eq!(date_token(BEFORE_MIDNIGHT), Some("20240101".to_string()));
    assert_eq!(date_token(AFTER_MIDNIGHT), Some("20240102".to_string()));
    assert_eq!(date_token(1_700_000_000), Some("20231114".to_string()));
    // the last second of the year 9999, and the first of the year 10000
    assert_eq!(date_token(253402300799), Some("99991231".to_string()));
    assert_eq!(date_token(253402300800), None);
    // before the year 0 the year carries a sign
    assert_eq!(date_token(-62198755200), None);
    assert_eq!(date_token(i64::MAX), None);
    assert_eq!(date_token(i64::MIN), None);
}

#[test]
fn parse_timestamp_reads_the_day_from_the_file_name() {
    assert_eq!(FlatFileWriter::parse_timestamp("data/events_20240101.jsonl"), Some(1704067200));
    assert_eq!(
        FlatFileWriter::parse_timestamp("/var/data/events_20240102.jsonl.zst"),
        Some(1704153600)
    );
    assert_eq!(FlatFileWriter::parse_timestamp("events_19700101.jsonl"), Some(0));
    assert_eq!(FlatFileWriter::parse_timestamp("data/events_20240101.jsonl/"), Some(1704067200));
    assert_eq!(FlatFileWriter::parse_timestamp("events_19691231.jsonl"), Some(-86400));
    assert_eq!(FlatFileWriter::parse_timestamp("events_20240230.jsonl"), None);
    assert_eq!(FlatFileWriter::parse_timestamp("events_2024.jsonl"), None);
    assert_eq!(FlatFileWriter::parse_timestamp("index"), None);
    assert_eq!(FlatFileWriter::parse_timestamp(""), None);
}

#[test]
fn a_new_writer_is_on_the_day_of_its_start_with_no_file_open() {
    let writer = FlatFileWriter::new("data".to_string(), BEFORE_MIDNIGHT).unwrap();
    assert_eq!(writer.dir(), "data");
    assert_eq!(writer.current_date(), "20240101");
    assert_eq!(writer.current_handle(), None);
    assert!(FlatFileWriter::new("data".to_string(), 253402300800).is_none());
}

#[test]
fn the_first_write_opens_the_live_file_of_the_day() {
    let mut writer = FlatFileWriter::new("data".to_string(), BEFORE_MIDNIGHT).unwrap();
    let e = event(0xaa, 1, "{\"kind\":1}");
    let plan = writer.write_event(&e, BEFORE_MIDNIGHT).unwrap();
    assert_eq!(plan.date, "20240101");
    assert_eq!(plan.rotate, None);
    assert_eq!(plan.open, Some("data/events_20240101.jsonl".to_string()));
    assert_eq!(plan.path, "data/events_20240101.jsonl");
    assert_eq!(plan.line, b"{\"kind\":1}\n".to_vec());
    // planning changes nothing
    assert_eq!(writer.current_handle(), None);
    assert_eq!(writer.complete(&plan, WriteOutcome::Written), Ok(()));
    assert_eq!(writer.current_handle(), Some("data/events_20240101.jsonl"));
    assert_eq!(writer.current_date(), "20240101");
    // the next write of the day appends to the open file
    let plan = writer.write_event(&e, BEFORE_MIDNIGHT).unwrap();
    assert_eq!(plan.rotate, None);
    assert_eq!(plan.open, None);
    assert_eq!(plan.path, "data/events_20240101.jsonl");
}

#[test]
fn a_line_is_the_utf8_text_and_one_line_feed() {
    let writer = FlatFileWriter::new("d".to_string(), 0).unwrap();
    let e = event(1, 1, "{\"content\":\"grüße ☃\"}");
    let plan = writer.write_event(&e, 0).unwrap();
    let mut expected = "{\"content\":\"grüße ☃\"}".as_bytes().to_vec();
    expected.push(b'\n');
    assert_eq!(plan.line, expected);
    let empty = event(2, 1, "");
    assert_eq!(writer.write_event(&empty, 0).unwrap().line, vec![b'\n']);
}

#[test]
fn a_write_after_midnight_rotates_the_open_file() {
    let mut writer = FlatFileWriter::new("out".to_string(), BEFORE_MIDNIGHT).unwrap();
    let a = event(1, 1, "{\"n\":\"a\"}");
    let b = event(2, 1, "{\"n\":\"b\"}");
    let plan = writer.write_event(&a, BEFORE_MIDNIGHT).unwrap();
    assert_eq!(writer.complete(&plan, WriteOutcome::Written), Ok(()));
    let plan = writer.write_event(&b, AFTER_MIDNIGHT).unwrap();
    assert_eq!(plan.date, "20240102");
    assert_eq!(plan.rotate, Some("out/events_20240101.jsonl".to_string()));
    assert_eq!(plan.open, Some("out/events_20240102.jsonl".to_string()));
    assert_eq!(plan.path, "out/events_20240102.jsonl");
    assert_eq!(plan.line, b"{\"n\":\"b\"}\n".to_vec());
    assert_eq!(writer.complete(&plan, WriteOutcome::Written), Ok(()));
    assert_eq!(writer.current_date(), "20240102");
    assert_eq!(writer.current_handle(), Some("out/events_20240102.jsonl"));
    // the file that was closed is compressed into its sibling
    let compaction = Compaction::new(plan.rotate.unwrap());
    assert_eq!(compaction.source(), "out/events_20240101.jsonl");
    assert_eq!(compaction.target(), "out/events_20240101.jsonl.zst");
}

#[test]
fn the_writer_follows_the_clock_backwards_too() {
    let mut writer = FlatFileWriter::new("out".to_string(), AFTER_MIDNIGHT).unwrap();
    let e = event(1, 1, "{}");
    let plan = writer.write_event(&e, AFTER_MIDNIGHT).unwrap();
    assert_eq!(writer.complete(&plan, WriteOutcome::Written), Ok(()));
    let plan = writer.write_event(&e, BEFORE_MIDNIGHT).unwrap();
    assert_eq!(plan.rotate, Some("out/events_20240102.jsonl".to_string()));
    assert_eq!(plan.path, "out/events_20240101.jsonl");
}

#[test]
fn a_day_change_without_an_open_file_rotates_nothing() {
    let writer = FlatFileWriter::new("out".to_string(), BEFORE_MIDNIGHT).unwrap();
    let e = event(1, 1, "{}");
    let plan = writer.write_event(&e, AFTER_MIDNIGHT).unwrap();
    assert_eq!(plan.rotate, None);
    assert_eq!(plan.open, Some("out/events_20240102.jsonl".to_string()));
}

#[test]
fn write_event_on_takes_the_day_as_given() {
    let writer = FlatFileWriter::new("out".to_string(), 0).unwrap();
    let e = event(1, 1, "{}");
    let plan = writer.write_event_on(&e, "20300101").unwrap();
    assert_eq!(plan.path, "out/events_20300101.jsonl");
    assert!(writer.write_event_on(&e, "2030-01-01").is_none());
    assert!(writer.write_event_on(&e, "").is_none());
}

#[test]
fn a_write_without_a_day_fails_with_a_clock_error() {
    let writer = FlatFileWriter::new("out".to_string(), 0).unwrap();
    let e = event(1, 1, "{}");
    assert_eq!(writer.write_event(&e, 253402300800).err(), Some(WriteError::Clock));
}

#[test]
fn a_failed_flush_leaves_no_file_open_and_keeps_the_day() {
    let mut writer = FlatFileWriter::new("out".to_string(), BEFORE_MIDNIGHT).unwrap();
    let e = event(1, 1, "{}");
    let plan = writer.write_event(&e, BEFORE_MIDNIGHT).unwrap();
    assert_eq!(writer.complete(&plan, WriteOutcome::Written), Ok(()));
    let plan = writer.write_event(&e, AFTER_MIDNIGHT).unwrap();
    assert_eq!(writer.complete(&plan, WriteOutcome::FlushFailed), Err(WriteError::Flush));
    assert_eq!(writer.current_handle(), None);
    assert_eq!(writer.current_date(), "20240101");
}

#[test]
fn a_failed_open_moves_to_the_day_with_no_file_open() {
    let mut writer = FlatFileWriter::new("out".to_string(), BEFORE_MIDNIGHT).unwrap();
    let e = event(1, 1, "{}");
    let plan = writer.write_event(&e, AFTER_MIDNIGHT).unwrap();
    assert_eq!(writer.complete(&plan, WriteOutcome::OpenFailed), Err(WriteError::Open));
    assert_eq!(writer.current_handle(), None);
    assert_eq!(writer.current_date(), "20240102");
}

#[test]
fn a_failed_append_keeps_the_file_open() {
    let mut writer = FlatFileWriter::new("out".to_string(), BEFORE_MIDNIGHT).unwrap();
    let e = event(1, 1, "{}");
    let plan = writer.write_event(&e, BEFORE_MIDNIGHT).unwrap();
    assert_eq!(writer.complete(&plan, WriteOutcome::AppendFailed), Err(WriteError::Append));
    assert_eq!(writer.current_handle(), Some("out/events_20240101.jsonl"));
}

#[test]
fn a_plan_of_another_writer_is_refused() {
    let mut writer = FlatFileWriter::new("out".to_string(), BEFORE_MIDNIGHT).unwrap();
    let other = FlatFileWriter::new("elsewhere".to_string(), BEFORE_MIDNIGHT).unwrap();
    let e = event(1, 1, "{}");
    let mut plan = other.write_event(&e, BEFORE_MIDNIGHT).unwrap();
    assert_eq!(writer.complete(&plan, WriteOutcome::Written), Err(WriteError::Plan));
    assert_eq!(writer.current_handle(), None);
    plan.path = "out/events_20240101.jsonl".to_string();
    plan.date = "2024".to_string();
    assert_eq!(writer.complete(&plan, WriteOutcome::Written), Err(WriteError::Plan));
    assert_eq!(writer.current_date(), "20240101");
}

fn run(compaction: &mut Compaction, results: &[bool]) -> Vec<CompactionAction> {
    let mut actions = Vec::new();
    for ok in results {
        actions.push(compaction.step(*ok));
    }
    actions
}

#[test]
fn a_compaction_removes_the_source_last() {
    let mut compaction = Compaction::new("d/events_20240101.jsonl".to_string());
    assert_eq!(compaction.stage(), CompactionStage::Ready);
    let actions = run(&mut compaction, &[true; 8]);
    assert_eq!(
        actions,
        vec![
            CompactionAction::OpenSource,
            CompactionAction::CreateTarget,
            CompactionAction::Copy,
            CompactionAction::Finish,
            CompactionAction::Measure,
            CompactionAction::RemoveSource,
            CompactionAction::Stop,
            CompactionAction::Stop,
        ]
    );
    assert_eq!(compaction.stage(), CompactionStage::Done);
}

#[test]
fn a_failed_step_ends_the_compaction_with_the_source_in_place() {
    for failing in 1..6usize {
        let mut results = [true; 8];
        results[failing] = false;
        let mut compaction = Compaction::new("d/events_20240101.jsonl".to_string());
        let actions = run(&mut compaction, &results);
        assert!(!actions.contains(&CompactionAction::RemoveSource), "failing step {}", failing);
        assert_eq!(actions[failing], CompactionAction::Stop);
        assert_eq!(compaction.stage(), CompactionStage::Failed);
    }
    // the first call starts the compaction whatever it is told
    let mut compaction = Compaction::new("x".to_string());
    assert_eq!(compaction.step(false), CompactionAction::OpenSource);
    // a removal that fails is a failure too
    let mut compaction = Compaction::new("x".to_string());
    let actions = run(&mut compaction, &[true, true, true, true, true, true, false]);
    assert_eq!(actions[5], CompactionAction::RemoveSource);
    assert_eq!(actions[6], CompactionAction::Stop);
    assert_eq!(compaction.stage(), CompactionStage::Failed);
}
