//! The binding tree on disk, `<root>/<activity-id>/<event-token>/<script-filename>`,
//! each leaf a symbolic link to the bound script: reading it back from a
//! directory scan, and the steps that write the activities onto it.

use std::path::PathBuf;
use vstd::prelude::*;

use crate::activity::{activities_view, Activity, ActivityView, BindingMap, EventScripts};
use crate::error::Application;
use crate::event::{all_events, event_of_token, lemma_token_round_trip, ActivityEvent};
use crate::script_filename::ShellScriptFilename;
use crate::text::strings_view;

verus! {

/// A directory found inside an activity's directory: its name, and the target
/// of the script link inside it, if there is one.
#[derive(Debug)]
pub struct ScannedEventDir {
    pub name: String,
    pub script: Option<PathBuf>,
}

/// A directory found under the binding root: its name is an activity id.
#[derive(Debug)]
pub struct ScannedActivityDir {
    pub id: String,
    pub events: Vec<ScannedEventDir>,
}

/// The bindings that the event directories of one activity hold: each
/// directory named by an event token and holding a script link binds that
/// event; others are ignored.
pub open spec fn dir_scripts(events: Seq<ScannedEventDir>) -> Map<ActivityEvent, PathBuf>
    decreases events.len(),
{
    if events.len() == 0 {
        Map::empty()
    } else {
        let m = dir_scripts(events.drop_last());
        let d = events.last();
        match (event_of_token(d.name@), d.script) {
            (Some(e), Some(p)) => m.insert(e, p),
            _ => m,
        }
    }
}

/// The bindings of a scanned root: each activity directory with at least one
/// binding; one with none is left out.
pub open spec fn scan_map(dirs: Seq<ScannedActivityDir>) -> Map<
    Seq<char>,
    Map<ActivityEvent, PathBuf>,
>
    decreases dirs.len(),
{
    if dirs.len() == 0 {
        Map::empty()
    } else {
        let m = scan_map(dirs.drop_last());
        let s = dir_scripts(dirs.last().events@);
        if s == Map::<ActivityEvent, PathBuf>::empty() {
            m
        } else {
            m.insert(dirs.last().id@, s)
        }
    }
}

fn scripts_of_dir(events: &Vec<ScannedEventDir>) -> (r: EventScripts)
    ensures
        r@ == dir_scripts(events@),
{
    let mut r = EventScripts::new();
    let mut i: usize = 0;
    while i < events.len()
        invariant
            i <= events.len(),
            r@ == dir_scripts(events@.take(i as int)),
        decreases events.len() - i,
    {
        let d = &events[i];
        assert(events@.take(i + 1).drop_last() =~= events@.take(i as int));
        match (ActivityEvent::from_token(d.name.as_str()), &d.script) {
            (Some(e), Some(p)) => r.insert(e, p.clone()),
            _ => {},
        }
        i = i + 1;
    }
    assert(events@.take(i as int) =~= events@);
    r
}

/// The bindings that a scan of the binding root found.
pub fn bindings_from_scan(dirs: &Vec<ScannedActivityDir>) -> (r: BindingMap)
    ensures
        r@ == scan_map(dirs@),
{
    let mut r = BindingMap::new();
    let mut i: usize = 0;
    while i < dirs.len()
        invariant
            i <= dirs.len(),
            r@ == scan_map(dirs@.take(i as int)),
        decreases dirs.len() - i,
    {
        let d = &dirs[i];
        assert(dirs@.take(i + 1).drop_last() =~= dirs@.take(i as int));
        let scripts = scripts_of_dir(&d.events);
        if !scripts.is_empty() {
            r.insert(d.id.clone(), scripts);
        }
        i = i + 1;
    }
    assert(dirs@.take(i as int) =~= dirs@);
    r
}

/// One link of the tree to write or clear.
pub ghost struct JobView {
    pub id: Seq<char>,
    pub name: Seq<char>,
    pub event: ActivityEvent,
    pub target: Option<PathBuf>,
}

/// The link of one activity and event, as the save pass visits it.
#[derive(Debug)]
pub struct LinkJob {
    /// The activity's display name, for error reports.
    pub name: String,
    /// The activity's id, which names its directory.
    pub id: String,
    pub event: ActivityEvent,
    /// The script to link to; `None` clears the link.
    pub target: Option<PathBuf>,
}

impl View for LinkJob {
    type V = JobView;

    open spec fn view(&self) -> JobView {
        JobView { id: self.id@, name: self.name@, event: self.event, target: self.target }
    }
}

/// The job for activity `a` and event `e`.
pub open spec fn job_of(a: ActivityView, e: ActivityEvent) -> JobView {
    JobView {
        id: a.id,
        name: a.name,
        event: e,
        target: if a.scripts.contains_key(e) {
            Some(a.scripts[e])
        } else {
            None
        },
    }
}

/// The jobs of one activity: every event, bound or not, in the fixed order.
pub open spec fn jobs_of(a: ActivityView) -> Seq<JobView> {
    seq![
        job_of(a, ActivityEvent::Activated),
        job_of(a, ActivityEvent::Deactivated),
        job_of(a, ActivityEvent::Started),
        job_of(a, ActivityEvent::Stopped),
    ]
}

/// The jobs of a save pass: those of each activity in turn.
pub open spec fn plan_of(acts: Seq<ActivityView>) -> Seq<JobView>
    decreases acts.len(),
{
    if acts.len() == 0 {
        seq![]
    } else {
        plan_of(acts.drop_last()) + jobs_of(acts.last())
    }
}

/// What each job is.
pub open spec fn jobs_view(v: Seq<LinkJob>) -> Seq<JobView> {
    v.map_values(|j: LinkJob| j@)
}

fn target_of(a: &Activity, e: &ActivityEvent) -> (r: Option<PathBuf>)
    ensures
        r == job_of(a@, *e).target,
{
    match a.get_script(e) {
        Some(p) => Some(p.clone()),
        None => None,
    }
}

/// The jobs that write `activities` onto the tree, in the order the save pass
/// takes them: for each activity, each of the four events.
pub fn save_plan(activities: &[Activity]) -> (r: Vec<LinkJob>)
    ensures
        jobs_view(r@) == plan_of(activities_view(activities@)),
{
    let ghost acts = activities_view(activities@);
    let mut out: Vec<LinkJob> = Vec::new();
    let events = ActivityEvent::all();
    let mut i: usize = 0;
    while i < activities.len()
        invariant
            i <= activities.len(),
            acts == activities_view(activities@),
            events@ == crate::event::all_events(),
            jobs_view(out@) == plan_of(acts.take(i as int)),
        decreases activities.len() - i,
    {
        let a = &activities[i];
        let ghost before = jobs_view(out@);
        let mut k: usize = 0;
        while k < 4
            invariant
                k <= 4,
                events@ == crate::event::all_events(),
                jobs_view(out@) == before + jobs_of(a@).take(k as int),
            decreases 4 - k,
        {
            let e = events[k];
            proof {
                lemma_jobs_of_index(a@, k as int);
            }
            let target = target_of(a, &e);
            let job = LinkJob { name: a.name().clone(), id: a.id().clone(), event: e, target };
            assert(job@ == jobs_of(a@)[k as int]);
            let ghost prev_out = out@;
            out.push(job);
            assert(jobs_view(out@) =~= jobs_view(prev_out).push(job@));
            assert(jobs_of(a@).take(k + 1) =~= jobs_of(a@).take(k as int).push(job@));
            assert(jobs_view(out@) =~= before + jobs_of(a@).take(k + 1));
            k = k + 1;
        }
        assert(acts.take(i + 1).drop_last() =~= acts.take(i as int));
        assert(jobs_of(a@).take(4) =~= jobs_of(a@));
        i = i + 1;
    }
    assert(acts.take(i as int) =~= acts);
    out
}

/// What to do on disk for one job, once it is known whether an entry stands at
/// the link's place.
#[derive(Debug)]
pub struct LinkStep {
    /// Remove the entry that stands at the link's place.
    pub remove_existing: bool,
    /// Create the event directory, with its parents, if missing.
    pub make_dir: bool,
    /// Create the link, pointing at this path.
    pub link_to: Option<PathBuf>,
}

/// The step for `job` when an entry does (`present`) or does not stand at the
/// link's place: an existing entry is always removed, so that writing a link
/// never meets one; a bound event gets its directory and a fresh link; an
/// unbound one gets nothing created.
pub fn link_step(job: &LinkJob, present: bool) -> (r: LinkStep)
    ensures
        r.remove_existing == present,
        r.make_dir == job.target is Some,
        r.link_to == job.target,
{
    let link_to = match &job.target {
        Some(p) => Some(p.clone()),
        None => None,
    };
    LinkStep { remove_existing: present, make_dir: link_to.is_some(), link_to }
}

/// The path segments below the root of the job's link: the activity id, the
/// event token and the script file name.
pub fn dest_segments(job: &LinkJob, filename: &ShellScriptFilename) -> (r: Vec<String>)
    ensures
        strings_view(r@) == seq![job.id@, job.event.spec_token(), filename@],
{
    let r = vec![job.id.clone(), job.event.token().to_owned(), filename.as_str().to_owned()];
    assert(strings_view(r@) =~= seq![
        job.id@,
        job.event.spec_token(),
        filename@,
    ]);
    r
}

/// The error that reports a failed step of `job`, whose link lies at `dest`.
pub fn save_error(job: &LinkJob, dest: String) -> (r: Application)
    ensures
        r matches Application::SaveDataError { activity, event, script_path } && activity@
            == job.name@ && event@ == job.event.spec_token() && script_path@ == dest@,
{
    Application::SaveDataError {
        activity: job.name.clone(),
        event: job.event.token(),
        script_path: dest,
    }
}

/// The links under the binding root: the target of the link of each
/// (activity id, event) that has one.
pub type LinkTree = Map<(Seq<char>, ActivityEvent), PathBuf>;

/// The tree after one job: its link now points at the target, or is gone.
pub open spec fn apply_job(t: LinkTree, j: JobView) -> LinkTree {
    match j.target {
        Some(p) => t.insert((j.id, j.event), p),
        None => t.remove((j.id, j.event)),
    }
}

/// The tree after the jobs, in order.
pub open spec fn apply_jobs(t: LinkTree, js: Seq<JobView>) -> LinkTree
    decreases js.len(),
{
    if js.len() == 0 {
        t
    } else {
        apply_job(apply_jobs(t, js.drop_last()), js.last())
    }
}

/// The bindings that reading the tree finds for activity `id`.
pub open spec fn scan_of_tree(t: LinkTree, id: Seq<char>) -> Map<ActivityEvent, PathBuf> {
    Map::new(|e: ActivityEvent| t.contains_key((id, e)), |e: ActivityEvent| t[(id, e)])
}

/// Whether some job handles the link `k`.
pub open spec fn touches(js: Seq<JobView>, k: (Seq<char>, ActivityEvent)) -> bool
    decreases js.len(),
{
    js.len() > 0 && ((js.last().id, js.last().event) == k || touches(js.drop_last(), k))
}

/// Whether no two activities share an id.
pub open spec fn ids_distinct(acts: Seq<ActivityView>) -> bool {
    forall|i: int, j: int| 0 <= i < j < acts.len() ==> acts[i].id != acts[j].id
}

proof fn lemma_apply_append(t: LinkTree, xs: Seq<JobView>, ys: Seq<JobView>)
    ensures
        apply_jobs(t, xs + ys) == apply_jobs(apply_jobs(t, xs), ys),
    decreases ys.len(),
{
    if ys.len() == 0 {
        assert(xs + ys =~= xs);
    } else {
        assert((xs + ys).drop_last() =~= xs + ys.drop_last());
        lemma_apply_append(t, xs, ys.drop_last());
    }
}

proof fn lemma_jobs_of_index(a: ActivityView, k: int)
    requires
        0 <= k < 4,
    ensures
        jobs_of(a)[k] == job_of(a, crate::event::all_events()[k]),
{
}

proof fn lemma_unfold_jobs(t: LinkTree, a: ActivityView)
    ensures
        apply_jobs(t, jobs_of(a)) == apply_job(
            apply_job(apply_job(apply_job(t, jobs_of(a)[0]), jobs_of(a)[1]), jobs_of(a)[2]),
            jobs_of(a)[3],
        ),
{
    let js = jobs_of(a);
    assert(js.take(0) =~= Seq::<JobView>::empty());
    assert(js.take(1).drop_last() =~= js.take(0));
    assert(js.take(2).drop_last() =~= js.take(1));
    assert(js.take(3).drop_last() =~= js.take(2));
    assert(js.take(4).drop_last() =~= js.take(3));
    assert(js.take(4) =~= js);
    assert(apply_jobs(t, js.take(0)) == t);
    assert(apply_jobs(t, js.take(1)) == apply_job(t, js[0]));
    assert(apply_jobs(t, js.take(2)) == apply_job(apply_jobs(t, js.take(1)), js[1]));
    assert(apply_jobs(t, js.take(3)) == apply_job(apply_jobs(t, js.take(2)), js[2]));
    assert(apply_jobs(t, js.take(4)) == apply_job(apply_jobs(t, js.take(3)), js[3]));
}

proof fn lemma_jobs_of(t: LinkTree, a: ActivityView)
    ensures
        scan_of_tree(apply_jobs(t, jobs_of(a)), a.id) == a.scripts,
{
    lemma_unfold_jobs(t, a);
    assert(scan_of_tree(apply_jobs(t, jobs_of(a)), a.id) =~= a.scripts);
}

proof fn lemma_jobs_of_other(t: LinkTree, a: ActivityView, k: (Seq<char>, ActivityEvent))
    requires
        k.0 != a.id,
    ensures
        apply_jobs(t, jobs_of(a)).contains_key(k) == t.contains_key(k),
        t.contains_key(k) ==> apply_jobs(t, jobs_of(a))[k] == t[k],
{
    lemma_unfold_jobs(t, a);
}

proof fn lemma_touch_agree(t1: LinkTree, t2: LinkTree, js: Seq<JobView>, k: (
    Seq<char>,
    ActivityEvent,
))
    ensures
        touches(js, k) ==> apply_jobs(t1, js).contains_key(k) == apply_jobs(t2, js).contains_key(
            k,
        ) && (apply_jobs(t1, js).contains_key(k) ==> apply_jobs(t1, js)[k] == apply_jobs(
            t2,
            js,
        )[k]),
        !touches(js, k) ==> apply_jobs(t1, js).contains_key(k) == t1.contains_key(k) && (
        t1.contains_key(k) ==> apply_jobs(t1, js)[k] == t1[k]),
    decreases js.len(),
{
    if js.len() > 0 {
        lemma_touch_agree(t1, t2, js.drop_last(), k);
    }
}

/// Saving twice in a row leaves the tree as the first save left it: every job
/// sets its link to the same state whatever stood there before.
pub proof fn lemma_save_idempotent(t: LinkTree, acts: Seq<ActivityView>)
    ensures
        apply_jobs(apply_jobs(t, plan_of(acts)), plan_of(acts)) == apply_jobs(t, plan_of(acts)),
{
    let js = plan_of(acts);
    let once = apply_jobs(t, js);
    let twice = apply_jobs(once, js);
    assert forall|k: (Seq<char>, ActivityEvent)| #[trigger]
        twice.dom().contains(k) == once.dom().contains(k) by {
        lemma_touch_agree(once, t, js, k);
    }
    assert forall|k: (Seq<char>, ActivityEvent)| once.dom().contains(k) implies #[trigger] twice[k]
        == once[k] by {
        lemma_touch_agree(once, t, js, k);
    }
    assert(twice =~= once);
}

/// Saving activities with distinct ids and then reading the tree finds, for
/// each activity, exactly its bound events with their scripts, whatever the
/// tree held before.
pub proof fn lemma_save_round_trip(t: LinkTree, acts: Seq<ActivityView>)
    requires
        ids_distinct(acts),
    ensures
        forall|i: int|
            0 <= i < acts.len() ==> #[trigger] scan_of_tree(apply_jobs(t, plan_of(acts)), acts[i].id)
                == acts[i].scripts,
    decreases acts.len(),
{
    if acts.len() > 0 {
        let prev = acts.drop_last();
        let a = acts.last();
        let mid = apply_jobs(t, plan_of(prev));
        lemma_save_round_trip(t, prev);
        lemma_apply_append(t, plan_of(prev), jobs_of(a));
        lemma_jobs_of(mid, a);
        let end = apply_jobs(t, plan_of(acts));
        assert forall|i: int| 0 <= i < acts.len() implies #[trigger] scan_of_tree(
            end,
            acts[i].id,
        ) == acts[i].scripts by {
            if i < acts.len() - 1 {
                assert(prev[i] == acts[i]);
                assert forall|e: ActivityEvent|
                    #![trigger end.dom().contains((acts[i].id, e))]
                    end.dom().contains((acts[i].id, e)) == mid.dom().contains((acts[i].id, e)) && (
                    mid.dom().contains((acts[i].id, e)) ==> end[(acts[i].id, e)] == mid[(
                    acts[i].id,
                    e,
                )]) by {
                    lemma_jobs_of_other(mid, a, (acts[i].id, e));
                }
                assert(scan_of_tree(end, acts[i].id) =~= scan_of_tree(mid, prev[i].id));
            }
        }
    }
}

/// After a save, an event that an activity does not bind has no link in its
/// directory, even where an earlier save had put one.
pub proof fn lemma_save_clears_unbound(
    t: LinkTree,
    acts: Seq<ActivityView>,
    i: int,
    e: ActivityEvent,
)
    requires
        ids_distinct(acts),
        0 <= i < acts.len(),
        !acts[i].scripts.contains_key(e),
    ensures
        !apply_jobs(t, plan_of(acts)).contains_key((acts[i].id, e)),
{
    lemma_save_round_trip(t, acts);
    assert(scan_of_tree(apply_jobs(t, plan_of(acts)), acts[i].id) == acts[i].scripts);
}

/// Whether `events` lists the four event directories of activity `id` in the
/// tree `t`, each named by its event's token and holding that link's target,
/// if it has one.
pub open spec fn lists_tree_dirs(events: Seq<ScannedEventDir>, t: LinkTree, id: Seq<char>) -> bool {
    &&& events.len() == 4
    &&& forall|k: int|
        0 <= k < 4 ==> {
            let e = #[trigger] all_events()[k];
            &&& events[k].name@ == e.spec_token()
            &&& events[k].script == if t.contains_key((id, e)) {
                Some(t[(id, e)])
            } else {
                None
            }
        }
}

/// Reading an activity's event directories, named by the event tokens, gives
/// back the links that the tree holds for that activity.
pub proof fn lemma_scan_reads_tree(events: Seq<ScannedEventDir>, t: LinkTree, id: Seq<char>)
    requires
        lists_tree_dirs(events, t, id),
    ensures
        dir_scripts(events) == scan_of_tree(t, id),
{
    lemma_token_round_trip(ActivityEvent::Activated);
    lemma_token_round_trip(ActivityEvent::Deactivated);
    lemma_token_round_trip(ActivityEvent::Started);
    lemma_token_round_trip(ActivityEvent::Stopped);
    assert(all_events()[0] == ActivityEvent::Activated);
    assert(all_events()[1] == ActivityEvent::Deactivated);
    assert(all_events()[2] == ActivityEvent::Started);
    assert(all_events()[3] == ActivityEvent::Stopped);
    assert(events.take(1).drop_last() =~= events.take(0));
    assert(events.take(2).drop_last() =~= events.take(1));
    assert(events.take(3).drop_last() =~= events.take(2));
    assert(events.take(4).drop_last() =~= events.take(3));
    assert(events.take(4) =~= events);
    assert(dir_scripts(events.take(0)) == Map::<ActivityEvent, PathBuf>::empty());
    assert(dir_scripts(events.take(1)) =~= Map::new(
        |e: ActivityEvent| e == ActivityEvent::Activated && t.contains_key((id, e)),
        |e: ActivityEvent| t[(id, e)],
    ));
    assert(dir_scripts(events.take(2)) =~= Map::new(
        |e: ActivityEvent|
            (e == ActivityEvent::Activated || e == ActivityEvent::Deactivated) && t.contains_key(
                (id, e),
            ),
        |e: ActivityEvent| t[(id, e)],
    ));
    assert(dir_scripts(events.take(3)) =~= Map::new(
        |e: ActivityEvent| e != ActivityEvent::Stopped && t.contains_key((id, e)),
        |e: ActivityEvent| t[(id, e)],
    ));
    assert(dir_scripts(events) =~= scan_of_tree(t, id));
}

proof fn lemma_scan_map_domain(dirs: Seq<ScannedActivityDir>, k: Seq<char>)
    requires
        scan_map(dirs).contains_key(k),
    ensures
        exists|j: int| 0 <= j < dirs.len() && dirs[j].id@ == k,
    decreases dirs.len(),
{
    let prev = dirs.drop_last();
    if dirs.last().id@ != k {
        lemma_scan_map_domain(prev, k);
        let j = choose|j: int| 0 <= j < prev.len() && prev[j].id@ == k;
        assert(dirs[j] == prev[j]);
    } else {
        assert(dirs[dirs.len() - 1].id@ == k);
    }
}

proof fn lemma_scan_map_distinct(dirs: Seq<ScannedActivityDir>, i: int)
    requires
        forall|a: int, b: int| 0 <= a < b < dirs.len() ==> dirs[a].id@ != dirs[b].id@,
        0 <= i < dirs.len(),
    ensures
        scan_map(dirs).contains_key(dirs[i].id@) == (dir_scripts(dirs[i].events@)
            != Map::<ActivityEvent, PathBuf>::empty()),
        scan_map(dirs).contains_key(dirs[i].id@) ==> scan_map(dirs)[dirs[i].id@] == dir_scripts(
            dirs[i].events@,
        ),
    decreases dirs.len(),
{
    let prev = dirs.drop_last();
    let last = dirs.len() - 1;
    if i < last {
        assert(prev[i] == dirs[i]);
        lemma_scan_map_distinct(prev, i);
        assert(dirs[i].id@ != dirs[last].id@);
    } else {
        if scan_map(prev).contains_key(dirs[i].id@) {
            lemma_scan_map_domain(prev, dirs[i].id@);
            let j = choose|j: int| 0 <= j < prev.len() && prev[j].id@ == dirs[i].id@;
            assert(prev[j] == dirs[j]);
        }
    }
}

/// Loading after a save reads back what was saved: where a scan lists each
/// saved activity's directory with its event directories as the tree now holds
/// them, the bindings found for each activity are exactly its bound events with
/// their scripts, and an activity with no binding gets no entry.
pub proof fn lemma_save_then_load(
    t: LinkTree,
    acts: Seq<ActivityView>,
    dirs: Seq<ScannedActivityDir>,
)
    requires
        ids_distinct(acts),
        dirs.len() == acts.len(),
        forall|j: int|
            0 <= j < acts.len() ==> #[trigger] dirs[j].id@ == acts[j].id && lists_tree_dirs(
                dirs[j].events@,
                apply_jobs(t, plan_of(acts)),
                acts[j].id,
            ),
    ensures
        forall|i: int|
            0 <= i < acts.len() ==> (#[trigger] scan_map(dirs).contains_key(acts[i].id) == (
            acts[i].scripts != Map::<ActivityEvent, PathBuf>::empty())),
        forall|i: int|
            0 <= i < acts.len() && acts[i].scripts != Map::<ActivityEvent, PathBuf>::empty()
                ==> #[trigger] scan_map(dirs)[acts[i].id] == acts[i].scripts,
{
    let saved = apply_jobs(t, plan_of(acts));
    lemma_save_round_trip(t, acts);
    assert forall|a: int, b: int| 0 <= a < b < dirs.len() implies dirs[a].id@ != dirs[b].id@ by {
        assert(dirs[a].id@ == acts[a].id);
        assert(dirs[b].id@ == acts[b].id);
    }
    assert forall|i: int| 0 <= i < acts.len() implies dir_scripts(dirs[i].events@)
        == acts[i].scripts by {
        assert(dirs[i].id@ == acts[i].id);
        lemma_scan_reads_tree(dirs[i].events@, saved, acts[i].id);
        assert(scan_of_tree(saved, acts[i].id) == acts[i].scripts);
    }
    assert forall|i: int| 0 <= i < acts.len() implies #[trigger] scan_map(dirs).contains_key(
        acts[i].id,
    ) == (acts[i].scripts != Map::<ActivityEvent, PathBuf>::empty()) by {
        assert(dirs[i].id@ == acts[i].id);
        lemma_scan_map_distinct(dirs, i);
    }
    assert forall|i: int|
        0 <= i < acts.len() && acts[i].scripts != Map::<ActivityEvent, PathBuf>::empty()
            implies #[trigger] scan_map(dirs)[acts[i].id] == acts[i].scripts by {
        assert(dirs[i].id@ == acts[i].id);
        lemma_scan_map_distinct(dirs, i);
    }
}

} // verus!
