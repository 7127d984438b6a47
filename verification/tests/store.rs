use wizards_bot::bushfire::{BushfireError, Entry, EntryId};
use wizards_bot::datastore::Datastore;
use wizards_bot::geo::GeoPoint;
use wizards_bot::orchestrator::{
    append_failure_message, begin_poll, entries_to_notify, poll_failure_message, PollOutcome,
    PollSchedule,
};

fn entry(id: &str) -> Entry {
    Entry {
        category: None,
        content: None,
        id: EntryId(id.to_string()),
        published: None,
        title: None,
        updated: None,
        point: None,
    }
}

#[test]
fn store_roundtrip() {
    // Appending to an empty store, then reloading from the artifact's
    // lines, yields a mirror holding exactly that id.
    let mut store = Datastore::new(None);
    let id = EntryId("IF39-1919322".to_string());
    assert!(!store.contains(&id));
    store.append(id.clone(), true);
    assert!(store.contains(&id));

    // the artifact now holds the one line the append wrote
    let reloaded = Datastore::new(Some(vec!["IF39-1919322".to_string()]));
    assert!(reloaded.contains(&id));
    assert!(!reloaded.contains(&EntryId("IF39-0000000".to_string())));
}

#[test]
fn load_passes_over_empty_lines() {
    let store = Datastore::new(Some(vec![
        "".to_string(),
        "IF39-1".to_string(),
        "".to_string(),
        "IF39-2".to_string(),
    ]));
    assert!(store.contains(&EntryId("IF39-1".to_string())));
    assert!(store.contains(&EntryId("IF39-2".to_string())));
    assert!(!store.contains(&EntryId("".to_string())));
}

#[test]
fn duplicate_lines_and_appends_are_one_record() {
    let store = Datastore::new(Some(vec!["IF39-1".to_string(), "IF39-1".to_string()]));
    assert!(store.contains(&EntryId("IF39-1".to_string())));

    let mut grown = Datastore::new(None);
    grown.append(EntryId("IF39-1".to_string()), true);
    grown.append(EntryId("IF39-1".to_string()), true);
    assert!(grown.contains(&EntryId("IF39-1".to_string())));
    let plan = entries_to_notify(&grown, vec![entry("IF39-1")]);
    assert!(plan.is_empty());
}

#[test]
fn failed_append_leaves_id_unseen() {
    let mut store = Datastore::new(None);
    let id = EntryId("IF39-1919322".to_string());
    store.append(id.clone(), false);
    assert!(!store.contains(&id));
}

#[test]
fn recorded_entry_is_not_planned_again() {
    // Idempotence: once the id is recorded, a later cycle with the
    // same feed content must not invoke the Dispatcher for it.
    let mut store = Datastore::new(None);
    let first = entries_to_notify(&store, vec![entry("IF39-1")]);
    assert_eq!(first.len(), 1);

    store.append(EntryId("IF39-1".to_string()), true);
    let second = entries_to_notify(&store, vec![entry("IF39-1")]);
    assert!(second.is_empty());
}

#[test]
fn entry_is_redispatched_after_append_failure() {
    // At-least-once: a Dispatcher success followed by an append
    // failure leaves the id absent from the mirror, and the next poll
    // with the same entry invokes the Dispatcher again.
    let mut store = Datastore::new(None);
    let first = entries_to_notify(&store, vec![entry("IF39-1")]);
    assert_eq!(first.len(), 1);

    // dispatch succeeded, but writing the artifact failed
    store.append(EntryId("IF39-1".to_string()), false);
    assert!(!store.contains(&EntryId("IF39-1".to_string())));

    let again = entries_to_notify(&store, vec![entry("IF39-1")]);
    assert_eq!(again.len(), 1);
    assert_eq!(again[0].id, EntryId("IF39-1".to_string()));
}

#[test]
fn plan_keeps_document_order() {
    let store = Datastore::new(Some(vec!["IF39-2".to_string()]));
    let plan = entries_to_notify(&store, vec![entry("IF39-1"), entry("IF39-2"), entry("IF39-3")]);
    assert_eq!(plan.len(), 2);
    assert_eq!(plan[0].id, EntryId("IF39-1".to_string()));
    assert_eq!(plan[1].id, EntryId("IF39-3".to_string()));
}

#[test]
fn schedule_is_due_at_startup_then_every_cadence() {
    let mut s = PollSchedule::new();
    assert!(s.tick());
    for _ in 0..299 {
        assert!(!s.tick());
    }
    assert!(s.tick());
    assert!(!s.tick());
}

#[test]
fn poll_aborts_on_fetch_failure() {
    let store = Datastore::new(None);
    let reference = GeoPoint { lat: 0, lon: 0 };
    let r = begin_poll(
        &store,
        Err(BushfireError::Http("timed out".to_string())),
        reference,
    );
    match r {
        PollOutcome::Failed(e) => {
            assert_eq!(
                poll_failure_message(&e),
                "unable to poll bushfire feed: HTTP request error: timed out"
            );
        },
        PollOutcome::Dispatch(_) => panic!("a failed fetch must not dispatch"),
    }
}

#[test]
fn poll_aborts_on_parse_failure() {
    let store = Datastore::new(None);
    let reference = GeoPoint { lat: 0, lon: 0 };
    let r = begin_poll(&store, Ok("not xml <".to_string()), reference);
    assert!(matches!(r, PollOutcome::Failed(BushfireError::Xml(_))));
}

#[test]
fn poll_dispatches_unseen_near_entries() {
    let xml = r#"<?xml version="1.0" encoding="UTF-8"?>
<feed xmlns:georss="http://www.georss.org/georss" xmlns="http://www.w3.org/2005/Atom">
    <entry>
        <id>IF39-1</id>
    </entry>
    <entry>
        <id>IF39-2</id>
    </entry>
</feed>"#;
    let store = Datastore::new(Some(vec!["IF39-1".to_string()]));
    let reference = GeoPoint { lat: 0, lon: 0 };
    match begin_poll(&store, Ok(xml.to_string()), reference) {
        PollOutcome::Dispatch(es) => {
            assert_eq!(es.len(), 1);
            assert_eq!(es[0].id, EntryId("IF39-2".to_string()));
        },
        PollOutcome::Failed(_) => panic!("a good feed must dispatch"),
    }
}

#[test]
fn append_failure_report_text() {
    assert_eq!(
        append_failure_message("disk full"),
        "Unable to append entry to bushfire datastore: disk full"
    );
}
