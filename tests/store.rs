use std::collections::BTreeMap;
use std::path::PathBuf;

use kas_selector::activity::{Activity, BindingMap, EventScripts};
use kas_selector::error::Application;
use kas_selector::event::ActivityEvent;
use kas_selector::script_filename::ShellScriptFilename;
use kas_selector::source::ActivitySource;
use kas_selector::store::{
    bindings_from_scan, dest_segments, link_step, save_error, save_plan, LinkJob,
    ScannedActivityDir, ScannedEventDir,
};

/// A stand-in for the link tree: (activity id, event token) to link target.
type Tree = BTreeMap<(String, String), PathBuf>;

/// Runs the save pass against the stand-in tree, as the application does on disk.
fn save_into(tree: &mut Tree, activities: &[Activity]) {
    for job in save_plan(activities) {
        let key = (job.id.clone(), job.event.token().to_string());
        let step = link_step(&job, tree.contains_key(&key));
        if step.remove_existing {
            tree.remove(&key);
        }
        if let Some(target) = step.link_to {
            assert!(step.make_dir);
            assert!(!tree.contains_key(&key), "link place must be free");
            tree.insert(key, target);
        }
    }
}

/// What a scan of the stand-in tree reports, with an extra unknown folder.
fn scan_of(tree: &Tree) -> Vec<ScannedActivityDir> {
    let mut dirs: Vec<ScannedActivityDir> = Vec::new();
    for ((id, token), target) in tree {
        if dirs.last().map(|d| &d.id != id).unwrap_or(true) {
            dirs.push(ScannedActivityDir {
                id: id.clone(),
                events: vec![ScannedEventDir { name: "unknown".into(), script: Some("/u".into()) }],
            });
        }
        dirs.last_mut().unwrap().events.push(ScannedEventDir {
            name: token.clone(),
            script: Some(target.clone()),
        });
    }
    dirs
}

fn activity(id: &str, name: &str, bound: &[(ActivityEvent, &str)]) -> Activity {
    let mut s = EventScripts::new();
    for (e, p) in bound {
        s.insert(*e, PathBuf::from(p));
    }
    Activity::new(name.into(), id.into(), s)
}

#[test]
fn plan_visits_every_event_of_every_activity() {
    let acts = vec![
        activity("a-1", "One", &[(ActivityEvent::Started, "/s/1.sh")]),
        activity("a-2", "Two", &[]),
    ];
    let plan = save_plan(&acts);
    assert_eq!(plan.len(), 8);
    let ids: Vec<&str> = plan.iter().map(|j| j.id.as_str()).collect();
    assert_eq!(ids, vec!["a-1", "a-1", "a-1", "a-1", "a-2", "a-2", "a-2", "a-2"]);
    let events: Vec<ActivityEvent> = plan[..4].iter().map(|j| j.event).collect();
    assert_eq!(events, ActivityEvent::all());
    assert_eq!(plan[2].target, Some(PathBuf::from("/s/1.sh")));
    assert_eq!(plan[2].name, "One");
    assert!(plan.iter().enumerate().all(|(i, j)| i == 2 || j.target.is_none()));
}

#[test]
fn link_step_decisions() {
    let bound = LinkJob {
        name: "A".into(),
        id: "a".into(),
        event: ActivityEvent::Activated,
        target: Some(PathBuf::from("/t.sh")),
    };
    let s = link_step(&bound, true);
    assert!(s.remove_existing && s.make_dir);
    assert_eq!(s.link_to, Some(PathBuf::from("/t.sh")));
    let s = link_step(&bound, false);
    assert!(!s.remove_existing && s.make_dir);

    let unbound = LinkJob { target: None, ..bound };
    let s = link_step(&unbound, true);
    assert!(s.remove_existing && !s.make_dir && s.link_to.is_none());
    let s = link_step(&unbound, false);
    assert!(!s.remove_existing && !s.make_dir && s.link_to.is_none());
}

#[test]
fn destination_layout() {
    let job = LinkJob {
        name: "TestActivity".into(),
        id: "a-1".into(),
        event: ActivityEvent::Started,
        target: None,
    };
    let f = ShellScriptFilename::parse("kas-script.sh").unwrap();
    assert_eq!(dest_segments(&job, &f), vec!["a-1", "started", "kas-script.sh"]);
    match save_error(&job, "/r/a-1/started/kas-script.sh".into()) {
        Application::SaveDataError { activity, event, script_path } => {
            assert_eq!(activity, "TestActivity");
            assert_eq!(event, "started");
            assert_eq!(script_path, "/r/a-1/started/kas-script.sh");
        }
        other => panic!("unexpected error: {:?}", other),
    }
}

#[test]
fn scan_keeps_known_events_and_skips_empty_activities() {
    let dirs = vec![
        ScannedActivityDir {
            id: "abc-12d-x".into(),
            events: vec![
                ScannedEventDir { name: "activated".into(), script: Some("/s/x.sh".into()) },
                ScannedEventDir { name: "Started".into(), script: Some("/s/y.sh".into()) },
                ScannedEventDir { name: "stopped".into(), script: None },
            ],
        },
        ScannedActivityDir {
            id: "abc-12d-y".into(),
            events: vec![ScannedEventDir { name: "stopped".into(), script: None }],
        },
    ];
    let map = bindings_from_scan(&dirs);
    let x = map.get("abc-12d-x").unwrap();
    assert_eq!(x.get(&ActivityEvent::Activated), Some(&PathBuf::from("/s/x.sh")));
    assert!(x.get(&ActivityEvent::Started).is_none());
    assert!(x.get(&ActivityEvent::Stopped).is_none());
    assert!(map.get("abc-12d-y").is_none());
}

#[test]
fn save_then_scan_round_trip() {
    let acts = vec![
        activity("a-1", "One", &[(ActivityEvent::Activated, "/s/1.sh"), (ActivityEvent::Stopped, "/s/2.sh")]),
        activity("a-2", "Two", &[]),
        activity("a-3", "Three", &[(ActivityEvent::Deactivated, "/s/3.sh")]),
    ];
    let mut tree = Tree::new();
    tree.insert(("a-1".into(), "started".into()), PathBuf::from("/old.sh"));
    tree.insert(("a-2".into(), "activated".into()), PathBuf::from("/old.sh"));
    save_into(&mut tree, &acts);
    let map = bindings_from_scan(&scan_of(&tree));
    for a in &acts {
        for e in ActivityEvent::all() {
            let loaded = map.get(a.id()).and_then(|s| s.get(&e));
            assert_eq!(loaded, a.get_script(&e), "{} {:?}", a.id(), e);
        }
    }
    assert!(map.get("a-2").is_none());
}

#[test]
fn saving_twice_changes_nothing() {
    let acts = vec![
        activity("a-1", "One", &[(ActivityEvent::Started, "/s/1.sh")]),
        activity("a-2", "Two", &[(ActivityEvent::Stopped, "/s/2.sh")]),
    ];
    let mut tree = Tree::new();
    save_into(&mut tree, &acts);
    let first = tree.clone();
    save_into(&mut tree, &acts);
    assert_eq!(tree, first);
}

#[test]
fn clearing_an_event_removes_its_link() {
    let mut acts = vec![activity("a-1", "TestActivity", &[(ActivityEvent::Started, "/hello.sh")])];
    let mut tree = Tree::new();
    save_into(&mut tree, &acts);
    assert!(tree.contains_key(&("a-1".to_string(), "started".to_string())));
    acts[0].delete_script(ActivityEvent::Started);
    save_into(&mut tree, &acts);
    assert!(tree.is_empty());
}

#[test]
fn example_end_to_end() {
    let text = "([('id-a', 'Activity A', '', 'icon-a', 1), ('id-b', 'activity B', '', 'icon-b', 0)],)";
    let mut tree = Tree::new();
    tree.insert(("id-a".into(), "activated".into()), PathBuf::from("/s/a.sh"));
    let scripts = bindings_from_scan(&scan_of(&tree));
    let mut acts = Activity::from_source(ActivitySource::RecordList, text, scripts).unwrap();
    let pairs: Vec<(&str, &str)> = acts.iter().map(|a| (a.id().as_str(), a.name().as_str())).collect();
    assert_eq!(pairs, vec![("id-a", "Activity A"), ("id-b", "activity B")]);
    assert_eq!(acts[0].get_script(&ActivityEvent::Activated), Some(&PathBuf::from("/s/a.sh")));
    assert!(acts[1].event_scripts().is_empty());

    acts[1].set_script(ActivityEvent::Started, PathBuf::from("/s/b.sh"));
    save_into(&mut tree, &acts);

    let f = ShellScriptFilename::parse("kas-script.sh").unwrap();
    let plan = save_plan(&acts);
    let b_started = plan.iter().find(|j| j.id == "id-b" && j.event == ActivityEvent::Started).unwrap();
    assert_eq!(dest_segments(b_started, &f), vec!["id-b", "started", "kas-script.sh"]);
    assert_eq!(tree.get(&("id-b".to_string(), "started".to_string())), Some(&PathBuf::from("/s/b.sh")));
    assert_eq!(tree.get(&("id-a".to_string(), "activated".to_string())), Some(&PathBuf::from("/s/a.sh")));
    assert_eq!(tree.len(), 2);
}

#[test]
fn unbound_map_entry_is_empty_activity() {
    let map = BindingMap::new();
    let acts = Activity::from_activity_data("[RUNNING] abc-1 A (i)", map).unwrap();
    assert!(save_plan(&acts).iter().all(|j| j.target.is_none()));
}
