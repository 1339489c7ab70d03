//! Activities and the scripts bound to their events.

use std::path::PathBuf;
use vstd::prelude::*;

use crate::error::Application;
use crate::event::ActivityEvent;
use crate::source::{
    is_malformed_error, listing_records, pairs_view, parse_listing, source_records, ActivitySource,
};
use crate::text::same_text;

verus! {

#[verifier::external_type_specification]
#[verifier::external_body]
pub struct ExPathBuf(std::path::PathBuf);

/// Relies on `<PathBuf as Clone>::clone`: the copy names the same path.
pub assume_specification[ <std::path::PathBuf as Clone>::clone ](p: &std::path::PathBuf) -> (r:
    std::path::PathBuf)
    ensures
        r == *p,
;

/// The scripts bound to the four events of one activity.
#[derive(Debug)]
pub struct EventScripts {
    activated: Option<PathBuf>,
    deactivated: Option<PathBuf>,
    started: Option<PathBuf>,
    stopped: Option<PathBuf>,
}

impl EventScripts {
    /// The slot that holds the script of `e`.
    pub closed spec fn slot(self, e: ActivityEvent) -> Option<PathBuf> {
        match e {
            ActivityEvent::Activated => self.activated,
            ActivityEvent::Deactivated => self.deactivated,
            ActivityEvent::Started => self.started,
            ActivityEvent::Stopped => self.stopped,
        }
    }
}

impl View for EventScripts {
    type V = Map<ActivityEvent, PathBuf>;

    /// Each bound event, with the path of its script.
    open spec fn view(&self) -> Map<ActivityEvent, PathBuf> {
        Map::new(|e: ActivityEvent| self.slot(e) is Some, |e: ActivityEvent| self.slot(e)->0)
    }
}

impl Clone for EventScripts {
    fn clone(&self) -> (r: EventScripts)
        ensures
            r@ == self@,
    {
        let r = EventScripts {
            activated: clone_path(&self.activated),
            deactivated: clone_path(&self.deactivated),
            started: clone_path(&self.started),
            stopped: clone_path(&self.stopped),
        };
        assert(r@ =~= self@);
        r
    }
}

fn clone_path(p: &Option<PathBuf>) -> (r: Option<PathBuf>)
    ensures
        r == *p,
{
    match p {
        Some(q) => Some(q.clone()),
        None => None,
    }
}

impl EventScripts {
    /// No event bound.
    pub fn new() -> (r: EventScripts)
        ensures
            r@ == Map::<ActivityEvent, PathBuf>::empty(),
    {
        let r = EventScripts { activated: None, deactivated: None, started: None, stopped: None };
        assert(r@ =~= Map::<ActivityEvent, PathBuf>::empty());
        r
    }

    /// The script bound to `event`, if any.
    pub fn get(&self, event: &ActivityEvent) -> (r: Option<&PathBuf>)
        ensures
            match r {
                Some(p) => self@.contains_key(*event) && *p == self@[*event],
                None => !self@.contains_key(*event),
            },
    {
        match event {
            ActivityEvent::Activated => self.activated.as_ref(),
            ActivityEvent::Deactivated => self.deactivated.as_ref(),
            ActivityEvent::Started => self.started.as_ref(),
            ActivityEvent::Stopped => self.stopped.as_ref(),
        }
    }

    /// Binds `script` to `event`, replacing any earlier binding.
    pub fn insert(&mut self, event: ActivityEvent, script: PathBuf)
        ensures
            final(self)@ == old(self)@.insert(event, script),
    {
        match event {
            ActivityEvent::Activated => self.activated = Some(script),
            ActivityEvent::Deactivated => self.deactivated = Some(script),
            ActivityEvent::Started => self.started = Some(script),
            ActivityEvent::Stopped => self.stopped = Some(script),
        }
        assert(self@ =~= old(self)@.insert(event, script));
    }

    /// Unbinds `event`.
    pub fn remove(&mut self, event: ActivityEvent)
        ensures
            final(self)@ == old(self)@.remove(event),
    {
        match event {
            ActivityEvent::Activated => self.activated = None,
            ActivityEvent::Deactivated => self.deactivated = None,
            ActivityEvent::Started => self.started = None,
            ActivityEvent::Stopped => self.stopped = None,
        }
        assert(self@ =~= old(self)@.remove(event));
    }

    /// Whether no event is bound.
    pub fn is_empty(&self) -> (r: bool)
        ensures
            r == (self@ == Map::<ActivityEvent, PathBuf>::empty()),
    {
        let r = self.activated.is_none() && self.deactivated.is_none() && self.started.is_none()
            && self.stopped.is_none();
        if !r {
            let e = if self.activated.is_some() {
                ActivityEvent::Activated
            } else if self.deactivated.is_some() {
                ActivityEvent::Deactivated
            } else if self.started.is_some() {
                ActivityEvent::Started
            } else {
                ActivityEvent::Stopped
            };
            assert(self@.contains_key(e));
        } else {
            assert(self@ =~= Map::<ActivityEvent, PathBuf>::empty());
        }
        r
    }
}

/// What an activity is: its identifier, its display name, and its bound scripts.
pub ghost struct ActivityView {
    pub id: Seq<char>,
    pub name: Seq<char>,
    pub scripts: Map<ActivityEvent, PathBuf>,
}

/// An externally managed activity, decorated with the scripts bound to its events.
#[derive(Debug, Clone)]
pub struct Activity {
    name: String,
    id: String,
    event_scripts: EventScripts,
}

impl View for Activity {
    type V = ActivityView;

    closed spec fn view(&self) -> ActivityView {
        ActivityView { id: self.id@, name: self.name@, scripts: self.event_scripts@ }
    }
}

impl Activity {
    /// An activity with the given name, identifier and bindings.
    pub fn new(name: String, id: String, event_scripts: EventScripts) -> (r: Activity)
        ensures
            r@ == (ActivityView { id: id@, name: name@, scripts: event_scripts@ }),
    {
        Activity { name, id, event_scripts }
    }

    /// The display name.
    pub fn name(&self) -> (r: &String)
        ensures
            r@ == self@.name,
    {
        &self.name
    }

    /// The stable identifier, which names the activity's directory.
    pub fn id(&self) -> (r: &String)
        ensures
            r@ == self@.id,
    {
        &self.id
    }

    /// All bound scripts.
    pub fn event_scripts(&self) -> (r: &EventScripts)
        ensures
            r@ == self@.scripts,
    {
        &self.event_scripts
    }

    /// The script bound to `event`, if any.
    pub fn get_script(&self, event: &ActivityEvent) -> (r: Option<&PathBuf>)
        ensures
            match r {
                Some(p) => self@.scripts.contains_key(*event) && *p == self@.scripts[*event],
                None => !self@.scripts.contains_key(*event),
            },
    {
        self.event_scripts.get(event)
    }

    /// Binds `script` to `event`, replacing any earlier binding.
    pub fn set_script(&mut self, event: ActivityEvent, script: PathBuf)
        ensures
            final(self)@ == (ActivityView {
                scripts: old(self)@.scripts.insert(event, script),
                ..old(self)@
            }),
    {
        self.event_scripts.insert(event, script);
    }

    /// Unbinds `event`.
    pub fn delete_script(&mut self, event: ActivityEvent)
        ensures
            final(self)@ == (ActivityView { scripts: old(self)@.scripts.remove(event), ..old(self)@ }),
    {
        self.event_scripts.remove(event);
    }
}

/// Reading an event right after binding a script to it gives that script;
/// reading it right after unbinding it gives nothing. Other events keep their
/// bindings either way.
pub proof fn lemma_set_then_get(a: ActivityView, e: ActivityEvent, p: PathBuf, other: ActivityEvent)
    ensures
        (ActivityView { scripts: a.scripts.insert(e, p), ..a }).scripts.contains_key(e),
        (ActivityView { scripts: a.scripts.insert(e, p), ..a }).scripts[e] == p,
        !(ActivityView { scripts: a.scripts.remove(e), ..a }).scripts.contains_key(e),
        other != e ==> (ActivityView { scripts: a.scripts.insert(e, p), ..a }).scripts.contains_key(
            other,
        ) == a.scripts.contains_key(other),
        other != e ==> (ActivityView { scripts: a.scripts.remove(e), ..a }).scripts.contains_key(
            other,
        ) == a.scripts.contains_key(other),
{
}

/// The bindings of each activity id: a later entry for an id replaces an earlier one.
pub open spec fn entries_map(s: Seq<(String, EventScripts)>) -> Map<
    Seq<char>,
    Map<ActivityEvent, PathBuf>,
>
    decreases s.len(),
{
    if s.len() == 0 {
        Map::empty()
    } else {
        entries_map(s.drop_last()).insert(s.last().0@, s.last().1@)
    }
}

proof fn lemma_entries_suffix(s: Seq<(String, EventScripts)>, i: int, k: Seq<char>)
    requires
        0 <= i <= s.len(),
        forall|j: int| i <= j < s.len() ==> s[j].0@ != k,
    ensures
        entries_map(s).contains_key(k) == entries_map(s.take(i)).contains_key(k),
        entries_map(s).contains_key(k) ==> entries_map(s)[k] == entries_map(s.take(i))[k],
    decreases s.len() - i,
{
    if i < s.len() {
        assert(s.drop_last().take(i) =~= s.take(i));
        lemma_entries_suffix(s.drop_last(), i, k);
    } else {
        assert(s.take(i) =~= s);
    }
}

/// The scripts found for each activity id, as the binding scan produces them.
#[derive(Debug)]
pub struct BindingMap {
    entries: Vec<(String, EventScripts)>,
}

impl View for BindingMap {
    type V = Map<Seq<char>, Map<ActivityEvent, PathBuf>>;

    closed spec fn view(&self) -> Map<Seq<char>, Map<ActivityEvent, PathBuf>> {
        entries_map(self.entries@)
    }
}

impl BindingMap {
    /// No activity has bindings.
    pub fn new() -> (r: BindingMap)
        ensures
            r@ == Map::<Seq<char>, Map<ActivityEvent, PathBuf>>::empty(),
    {
        BindingMap { entries: Vec::new() }
    }

    /// Records `scripts` as the bindings of activity `id`, replacing earlier ones.
    pub fn insert(&mut self, id: String, scripts: EventScripts)
        ensures
            final(self)@ == old(self)@.insert(id@, scripts@),
    {
        self.entries.push((id, scripts));
        assert(self.entries@.drop_last() =~= old(self).entries@);
    }

    /// The bindings of activity `id`, if it has any entry.
    pub fn get(&self, id: &str) -> (r: Option<&EventScripts>)
        ensures
            match r {
                Some(m) => self@.contains_key(id@) && m@ == self@[id@],
                None => !self@.contains_key(id@),
            },
    {
        let mut i = self.entries.len();
        while i > 0
            invariant
                i <= self.entries.len(),
                forall|j: int| i <= j < self.entries.len() ==> self.entries@[j].0@ != id@,
            decreases i,
        {
            let j = i - 1;
            if same_text(self.entries[j].0.as_str(), id) {
                proof {
                    lemma_entries_suffix(self.entries@, i as int, id@);
                    assert(self.entries@.take(i as int).drop_last() =~= self.entries@.take(
                        j as int,
                    ));
                }
                return Some(&self.entries[j].1);
            }
            i = j;
        }
        proof {
            lemma_entries_suffix(self.entries@, 0, id@);
        }
        None
    }
}

/// The activity that a record `(id, name)` of the listing becomes, with the
/// bindings found for its id, or none.
pub open spec fn activity_of(
    rec: (Seq<char>, Seq<char>),
    bindings: Map<Seq<char>, Map<ActivityEvent, PathBuf>>,
) -> ActivityView {
    ActivityView {
        id: rec.0,
        name: rec.1,
        scripts: if bindings.contains_key(rec.0) {
            bindings[rec.0]
        } else {
            Map::empty()
        },
    }
}

/// What each activity is.
pub open spec fn activities_view(v: Seq<Activity>) -> Seq<ActivityView> {
    v.map_values(|a: Activity| a@)
}

impl Activity {
    /// One activity for each record `(id, name)`, in order, each with the
    /// bindings that `scripts` holds for its id.
    pub fn from_records(records: Vec<(String, String)>, scripts: &BindingMap) -> (r: Vec<Activity>)
        ensures
            activities_view(r@) == pairs_view(records@).map_values(
                |rec: (Seq<char>, Seq<char>)| activity_of(rec, scripts@),
            ),
    {
        let ghost recs = pairs_view(records@);
        let mut out: Vec<Activity> = Vec::new();
        for rec in it: records
            invariant
                it.seq() == records@,
                out@.len() == it.index(),
                forall|j: int|
                    0 <= j < it.index() ==> #[trigger] out@[j]@ == activity_of(
                        (it.seq()[j].0@, it.seq()[j].1@),
                        scripts@,
                    ),
        {
            let (id, name) = rec;
            let event_scripts = match scripts.get(id.as_str()) {
                Some(m) => m.clone(),
                None => EventScripts::new(),
            };
            out.push(Activity { name, id, event_scripts });
        }
        assert(activities_view(out@) =~= recs.map_values(
            |rec: (Seq<char>, Seq<char>)| activity_of(rec, scripts@),
        ));
        out
    }

    /// The activities of a listing with one activity per line, each with the
    /// bindings that `scripts` holds for its id.
    pub fn from_activity_data(data: &str, scripts: BindingMap) -> (r: Result<
        Vec<Activity>,
        Application,
    >)
        ensures
            r matches Ok(v) && activities_view(v@) == listing_records(data@).map_values(
                |rec: (Seq<char>, Seq<char>)| activity_of(rec, scripts@),
            ),
    {
        let records = parse_listing(data);
        Ok(Activity::from_records(records, &scripts))
    }

    /// The activities of a listing of the given shape, each with the bindings
    /// that `scripts` holds for its id; an error if the listing is malformed.
    pub fn from_source(source: ActivitySource, data: &str, scripts: BindingMap) -> (r: Result<
        Vec<Activity>,
        Application,
    >)
        ensures
            match r {
                Ok(v) => source_records(source, data@) matches Ok(recs) && activities_view(v@)
                    == recs.map_values(
                    |rec: (Seq<char>, Seq<char>)| activity_of(rec, scripts@),
                ),
                Err(e) => source_records(source, data@) is Err && is_malformed_error(e, data@),
            },
    {
        match source.parse(data) {
            Ok(records) => Ok(Activity::from_records(records, &scripts)),
            Err(e) => Err(e),
        }
    }
}

} // verus!
