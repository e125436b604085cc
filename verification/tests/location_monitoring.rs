use std::sync::{Arc, Mutex};

use waddle::location_monitoring::{
    Adapter, Change, LocationMonitoring, Locations, Poll, WatchEvent,
};

#[derive(Clone, Default)]
struct MemoryAdapter {
    watched: Arc<Mutex<Vec<String>>>,
    overflow: bool,
}

impl Adapter for MemoryAdapter {
    fn watch_many(&self, paths: Vec<String>) -> bool {
        *self.watched.lock().unwrap() = paths;
        self.overflow
    }
}

fn event(path: &str) -> WatchEvent {
    WatchEvent { path: path.to_owned(), removed: Vec::new(), watch_failed: false }
}

#[test]
fn roles_are_classified_through_one_interface() {
    let adapter = MemoryAdapter::default();
    let mut monitoring = LocationMonitoring::new(adapter.clone());
    monitoring.sync_locations(Locations {
        current: "/t/current".to_owned(),
        current_is_displayed: true,
        pending_cut_paths: vec!["/t/cut/moved.txt".to_owned()],
        expanded: vec!["/t/expanded".to_owned(), "/t/current".to_owned()],
        displayed_sources: vec!["/t/recent-source".to_owned()],
    });

    assert_eq!(monitoring.watched_paths().len(), 4);
    assert_eq!(
        adapter.watched.lock().unwrap().as_slice(),
        ["/t/current", "/t/cut", "/t/expanded", "/t/recent-source"]
    );
    assert_eq!(
        monitoring.handle(event("/t/current"), None),
        Change {
            refresh_current: true,
            invalidate_tree: Some("/t/current".to_owned()),
            ..Change::default()
        }
    );
    assert!(monitoring.is_cut_parent(&"/t/cut".to_owned()));
    let cut = monitoring.handle(event("/t/cut"), Some("Cut completed".to_owned()));
    assert!(cut.resync);
    assert_eq!(cut.notice.as_deref(), Some("Cut completed"));
    let ignored = monitoring.handle(event("/t/current"), Some("not a cut parent".to_owned()));
    assert_eq!(ignored.notice, None);
    assert!(monitoring.handle(event("/t/recent-source"), None).refresh_displayed);
    assert_eq!(monitoring.handle(event("/elsewhere"), None), Change::default());
}

#[test]
fn a_failed_watch_switches_to_polling() {
    let mut monitoring = LocationMonitoring::new(MemoryAdapter::default());
    monitoring.sync_locations(Locations {
        current: "/t/current".to_owned(),
        current_is_displayed: true,
        pending_cut_paths: Vec::new(),
        expanded: vec!["/t/expanded".to_owned()],
        displayed_sources: Vec::new(),
    });
    assert_eq!(monitoring.poll(false), Poll::default());
    let failed = WatchEvent { path: String::new(), removed: Vec::new(), watch_failed: true };
    assert_eq!(monitoring.handle(failed, None), Change::default());
    assert_eq!(
        monitoring.poll(false),
        Poll { refresh_location: true, invalidate_tree: vec!["/t/expanded".to_owned()] }
    );
    assert_eq!(
        monitoring.poll(true),
        Poll { refresh_location: false, invalidate_tree: vec!["/t/expanded".to_owned()] }
    );
}

#[test]
fn an_undisplayed_current_folder_is_watched_without_a_role() {
    let adapter = MemoryAdapter { overflow: true, ..MemoryAdapter::default() };
    let mut monitoring = LocationMonitoring::new(adapter.clone());
    monitoring.sync_locations(Locations {
        current: "/unavailable".to_owned(),
        current_is_displayed: false,
        pending_cut_paths: vec!["/".to_owned()],
        expanded: Vec::new(),
        displayed_sources: Vec::new(),
    });
    assert_eq!(adapter.watched.lock().unwrap().as_slice(), ["/unavailable"]);
    assert_eq!(monitoring.handle(event("/unavailable"), None), Change::default());
    assert!(monitoring.poll(false).refresh_location);
}

#[test]
fn location_monitoring_does_not_probe_candidate_paths() {
    let temp = tempfile::tempdir().unwrap();
    let unavailable = temp.path().join("unavailable-automount").to_str().unwrap().to_owned();
    let adapter = MemoryAdapter::default();
    let mut monitoring = LocationMonitoring::new(adapter.clone());

    monitoring.sync_locations(Locations {
        current: unavailable.clone(),
        current_is_displayed: true,
        pending_cut_paths: Vec::new(),
        expanded: vec![unavailable.clone()],
        displayed_sources: Vec::new(),
    });

    assert_eq!(adapter.watched.lock().unwrap().as_slice(), [unavailable.as_str()]);
    assert!(monitoring.watched_paths().contains(&unavailable));
}

#[test]
fn one_folder_written_two_ways_is_watched_once() {
    let adapter = MemoryAdapter::default();
    let mut monitoring = LocationMonitoring::new(adapter.clone());
    monitoring.sync_locations(Locations {
        current: "/u/b".to_owned(),
        current_is_displayed: true,
        pending_cut_paths: vec!["/u/a/file".to_owned()],
        expanded: vec!["/u/b/".to_owned(), "/u/a".to_owned(), "/u".to_owned()],
        displayed_sources: vec!["/u//a".to_owned()],
    });
    assert_eq!(monitoring.watched_paths(), ["/u/b", "/u/a", "/u"]);
    assert_eq!(adapter.watched.lock().unwrap().as_slice(), ["/u", "/u/a", "/u/b"]);
    let change = monitoring.handle(event("/u/b/"), None);
    assert!(change.refresh_current);
    assert_eq!(change.invalidate_tree.as_deref(), Some("/u/b/"));
    assert!(monitoring.handle(event("/u/a"), None).refresh_displayed);
    assert!(monitoring.is_cut_parent(&"/u/a/".to_owned()));
}
