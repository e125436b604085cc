use waddle::directory_watch::{
    parse_records, watch_overflow, Debounce, InotifyRecord, WatchTable, MAX_WATCHES,
};

const IN_MODIFY: u32 = 0x2;
const IN_MOVED_FROM: u32 = 0x40;
const IN_DELETE: u32 = 0x200;

fn record(wd: i32, mask: u32, name: &[u8], padded: usize) -> Vec<u8> {
    let mut bytes = Vec::new();
    bytes.extend_from_slice(&wd.to_le_bytes());
    bytes.extend_from_slice(&mask.to_le_bytes());
    bytes.extend_from_slice(&0u32.to_le_bytes());
    bytes.extend_from_slice(&(padded as u32).to_le_bytes());
    bytes.extend_from_slice(name);
    bytes.resize(16 + padded, 0);
    bytes
}

fn paths(list: &[&str]) -> Vec<String> {
    list.iter().map(|p| (*p).to_owned()).collect()
}

#[test]
fn records_are_read_with_their_names_up_to_the_padding() {
    let mut buffer = record(3, IN_DELETE, b"gone.txt", 16);
    buffer.extend(record(-1, IN_MODIFY, b"", 0));
    buffer.extend(record(4, IN_MOVED_FROM, b"x", 4));
    assert_eq!(
        parse_records(&buffer),
        vec![
            InotifyRecord { wd: 3, mask: IN_DELETE, name: b"gone.txt".to_vec() },
            InotifyRecord { wd: -1, mask: IN_MODIFY, name: Vec::new() },
            InotifyRecord { wd: 4, mask: IN_MOVED_FROM, name: b"x".to_vec() },
        ]
    );
}

#[test]
fn a_truncated_record_ends_the_read() {
    let mut buffer = record(1, IN_MODIFY, b"a", 4);
    let mut cut = record(2, IN_MODIFY, b"bbbb", 8);
    cut.truncate(20);
    buffer.extend(cut);
    assert_eq!(parse_records(&buffer).len(), 1);
    assert!(parse_records(&buffer[..10]).is_empty());
    assert!(parse_records(&[]).is_empty());
}

#[test]
fn the_table_answers_with_the_last_folder_recorded_for_a_descriptor() {
    let mut table = WatchTable::new();
    table.insert(1, "/a".to_owned());
    table.insert(2, "/b".to_owned());
    table.insert(1, "/c".to_owned());
    assert_eq!(table.directory_of(1).map(String::as_str), Some("/c"));
    assert_eq!(table.directory_of(2).map(String::as_str), Some("/b"));
    table.forget(1);
    assert_eq!(table.directory_of(1), None);
    assert_eq!(table.directory_of(2).map(String::as_str), Some("/b"));
}

#[test]
fn a_new_folder_set_removes_stale_watches_and_adds_new_folders_once() {
    let mut table = WatchTable::default();
    table.insert(1, "/keep".to_owned());
    table.insert(2, "/drop".to_owned());
    let plan = table.plan(&paths(&["/new", "/keep", "/new", "/other"]));
    assert_eq!(plan.remove, vec![2]);
    assert_eq!(plan.add, paths(&["/new", "/other"]));
    assert!(!watch_overflow(&paths(&["/a"])));
}

#[test]
fn requests_beyond_the_watch_limit_are_cut() {
    let many: Vec<String> = (0..MAX_WATCHES + 3).map(|i| format!("/d{i}")).collect();
    assert!(watch_overflow(&many));
    let plan = WatchTable::new().plan(&many);
    assert_eq!(plan.add.len(), MAX_WATCHES);
    assert_eq!(plan.add[0], "/d0");
    assert_eq!(plan.add[MAX_WATCHES - 1], format!("/d{}", MAX_WATCHES - 1));
}

#[test]
fn a_burst_becomes_one_change_after_the_debounce_delay() {
    let mut table = WatchTable::new();
    table.insert(5, "/watched".to_owned());
    let mut debounce = Debounce::new();
    let mut buffer = record(5, IN_MODIFY, b"", 0);
    buffer.extend(record(5, IN_DELETE, b"deleted", 8));
    buffer.extend(record(5, IN_MOVED_FROM, b"moved", 8));
    buffer.extend(record(5, IN_DELETE, b"deleted", 8));
    buffer.extend(record(9, IN_DELETE, b"unknown", 8));
    debounce.collect(&buffer, &table, 1_000);

    assert!(debounce.take_ready(1_119).is_empty());
    let events = debounce.take_ready(1_120);
    assert_eq!(events.len(), 1);
    assert_eq!(events[0].path, "/watched");
    assert_eq!(events[0].removed, paths(&["/watched/deleted", "/watched/moved"]));
    assert!(!events[0].watch_failed);
    assert!(debounce.take_ready(5_000).is_empty());
}

#[test]
fn a_later_change_restarts_the_delay_for_its_folder_only() {
    let mut debounce = Debounce::new();
    debounce.note("/one".to_owned(), None, 100);
    debounce.note("/two".to_owned(), Some("/two/x".to_owned()), 150);
    debounce.note("/one".to_owned(), None, 200);
    let events = debounce.take_ready(270);
    assert_eq!(events.len(), 1);
    assert_eq!(events[0].path, "/two");
    assert_eq!(events[0].removed, paths(&["/two/x"]));
    let events = debounce.take_ready(320);
    assert_eq!(events.len(), 1);
    assert_eq!(events[0].path, "/one");
    assert!(events[0].removed.is_empty());
}

#[test]
fn carrying_out_a_plan_watches_exactly_the_requested_folders() {
    let mut table = WatchTable::new();
    table.insert(1, "/keep".to_owned());
    table.insert(2, "/drop".to_owned());
    let request = paths(&["/keep", "/new", "/keep"]);
    let plan = table.plan(&request);
    for wd in plan.remove {
        table.forget(wd);
    }
    for (offset, path) in plan.add.into_iter().enumerate() {
        table.insert(10 + offset as i32, path);
    }
    assert_eq!(table.directory_of(1).map(String::as_str), Some("/keep"));
    assert_eq!(table.directory_of(2), None);
    assert_eq!(table.directory_of(10).map(String::as_str), Some("/new"));
    let again = table.plan(&request);
    assert!(again.remove.is_empty());
    assert!(again.add.is_empty());
}
