use std::path::PathBuf;

use kas_selector::activity::{Activity, BindingMap, EventScripts};
use kas_selector::event::ActivityEvent;
use kas_selector::locale::Key;
use kas_selector::source::ActivitySource;

#[test]
fn from_activity_data_contains_exactly() {
    let sample_data = r#"
            [RUNNING] abc-12d-a Activity A (icon-a)
            [STOPPED] abc-12d-b activity B (icon-b)
            [CURRENT] abc-12d-d Long Named Activity (icon-d)
            [RUNNING] abc-12d-e Filing Taxes & Accounting (icon-e)
        "#
    .trim();

    let activities = Activity::from_activity_data(sample_data, BindingMap::new()).unwrap();

    let actual: Vec<_> = activities
        .iter()
        .map(|a| (a.name().clone(), a.id().clone()))
        .collect();

    assert_eq!(
        actual,
        vec![
            ("Activity A".to_string(), "abc-12d-a".to_string()),
            ("activity B".to_string(), "abc-12d-b".to_string()),
            ("Long Named Activity".to_string(), "abc-12d-d".to_string()),
            (
                "Filing Taxes & Accounting".to_string(),
                "abc-12d-e".to_string(),
            ),
        ]
    );
}

#[test]
fn from_activity_data_populates_event_scripts() {
    let sample_data = r#"
            [RUNNING] abc-12d-a Activity A (icon-a)
            [RUNNING] abc-12d-b Activity B (icon-b)
        "#
    .trim();

    let mut map = BindingMap::new();

    let mut events_a = EventScripts::new();
    events_a.insert(
        ActivityEvent::Activated,
        PathBuf::from("/scripts/a/activated/kas-script.sh"),
    );
    events_a.insert(
        ActivityEvent::Started,
        PathBuf::from("/scripts/a/started/kas-script.sh"),
    );

    let mut events_b = EventScripts::new();
    events_b.insert(
        ActivityEvent::Deactivated,
        PathBuf::from("/scripts/b/deactivated/kas-script.sh"),
    );

    map.insert("abc-12d-a".into(), events_a.clone());
    map.insert("abc-12d-b".into(), events_b.clone());

    let activities = Activity::from_activity_data(sample_data, map).unwrap();

    assert_eq!(activities.len(), 2);

    let a = activities.iter().find(|a| a.id() == "abc-12d-a").unwrap();
    assert_eq!(scripts_of(a.event_scripts()), scripts_of(&events_a));

    let b = activities.iter().find(|a| a.id() == "abc-12d-b").unwrap();
    assert_eq!(scripts_of(b.event_scripts()), scripts_of(&events_b));
}

fn scripts_of(s: &EventScripts) -> Vec<Option<PathBuf>> {
    ActivityEvent::all()
        .iter()
        .map(|e| s.get(e).cloned())
        .collect()
}

fn sample_activity() -> Activity {
    Activity::new("TestActivity".into(), "a-1".into(), EventScripts::new())
}

#[test]
fn set_then_get_returns_the_script() {
    let mut a = sample_activity();
    for e in ActivityEvent::all() {
        assert!(a.get_script(&e).is_none());
    }
    a.set_script(ActivityEvent::Started, PathBuf::from("/s/b.sh"));
    assert_eq!(a.get_script(&ActivityEvent::Started), Some(&PathBuf::from("/s/b.sh")));
    assert!(a.get_script(&ActivityEvent::Stopped).is_none());
    a.set_script(ActivityEvent::Started, PathBuf::from("/s/c.sh"));
    assert_eq!(a.get_script(&ActivityEvent::Started), Some(&PathBuf::from("/s/c.sh")));
}

#[test]
fn delete_then_get_returns_none() {
    let mut a = sample_activity();
    a.set_script(ActivityEvent::Activated, PathBuf::from("/s/a.sh"));
    a.set_script(ActivityEvent::Stopped, PathBuf::from("/s/z.sh"));
    a.delete_script(ActivityEvent::Activated);
    assert!(a.get_script(&ActivityEvent::Activated).is_none());
    assert_eq!(a.get_script(&ActivityEvent::Stopped), Some(&PathBuf::from("/s/z.sh")));
    a.delete_script(ActivityEvent::Activated);
    assert!(a.get_script(&ActivityEvent::Activated).is_none());
    assert_eq!(a.name(), "TestActivity");
    assert_eq!(a.id(), "a-1");
}

#[test]
fn event_scripts_emptiness() {
    let mut s = EventScripts::new();
    assert!(s.is_empty());
    s.insert(ActivityEvent::Deactivated, PathBuf::from("/x.sh"));
    assert!(!s.is_empty());
    s.remove(ActivityEvent::Deactivated);
    assert!(s.is_empty());
}

#[test]
fn binding_map_later_insert_replaces() {
    let mut map = BindingMap::new();
    assert!(map.get("a").is_none());
    let mut first = EventScripts::new();
    first.insert(ActivityEvent::Started, PathBuf::from("/1.sh"));
    let mut second = EventScripts::new();
    second.insert(ActivityEvent::Stopped, PathBuf::from("/2.sh"));
    map.insert("a".into(), first);
    map.insert("b".into(), EventScripts::new());
    map.insert("a".into(), second);
    let got = map.get("a").unwrap();
    assert!(got.get(&ActivityEvent::Started).is_none());
    assert_eq!(got.get(&ActivityEvent::Stopped), Some(&PathBuf::from("/2.sh")));
    assert!(map.get("b").unwrap().is_empty());
    assert!(map.get("c").is_none());
}

#[test]
fn activity_without_bindings_starts_empty() {
    let mut map = BindingMap::new();
    let mut s = EventScripts::new();
    s.insert(ActivityEvent::Activated, PathBuf::from("/s/a.sh"));
    map.insert("other".into(), s);
    let acts = Activity::from_activity_data("[RUNNING] abc Name (i)", map).unwrap();
    assert_eq!(acts.len(), 1);
    assert!(acts[0].event_scripts().is_empty());
}

#[test]
fn from_source_reports_malformed_records() {
    let r = Activity::from_source(ActivitySource::RecordList, "([('id-a')],)", BindingMap::new());
    assert!(r.is_err());
    let ok = Activity::from_source(
        ActivitySource::RecordList,
        "([('id-a', 'Activity A', 0)],)",
        BindingMap::new(),
    )
    .unwrap();
    assert_eq!(ok[0].id(), "id-a");
    assert_eq!(ok[0].name(), "Activity A");
}

#[test]
fn event_tokens_and_keys() {
    let tokens: Vec<&str> = ActivityEvent::all().iter().map(|e| e.token()).collect();
    assert_eq!(tokens, vec!["activated", "deactivated", "started", "stopped"]);
    for e in ActivityEvent::all() {
        assert_eq!(ActivityEvent::from_token(e.token()), Some(e));
    }
    assert_eq!(ActivityEvent::from_token("Activated"), None);
    assert_eq!(ActivityEvent::from_token("paused"), None);
    assert_eq!(ActivityEvent::Activated.as_key(), Key::EventActivated);
    assert_eq!(ActivityEvent::Deactivated.as_key(), Key::EventDeactivated);
    assert_eq!(ActivityEvent::Started.as_key(), Key::EventStarted);
    assert_eq!(ActivityEvent::Stopped.as_key(), Key::EventStopped);
}

#[test]
fn key_names_are_kebab_case() {
    assert_eq!(Key::Title.name(), "title");
    assert_eq!(Key::EventDeactivated.name(), "event-deactivated");
    assert_eq!(Key::ErrorSaveFailed.name(), "error-save-failed");
    assert_eq!(Key::SavingData.name(), "saving-data");
    assert_eq!(Key::all().len(), 15);
}
