//! Keys of the localized text table, and where its files are looked for.

use indexmap::IndexSet;
use vstd::prelude::*;

use crate::source::{run_end, trim_end, CharClass};
use crate::text::{chars_of, strings_view};

verus! {

/// A message of the localized text table.
#[derive(Debug, Clone, Copy, PartialEq, Eq, Hash, Structural)]
pub enum Key {
    Title,
    EventActivated,
    EventDeactivated,
    EventStarted,
    EventStopped,
    Open,
    Cancel,
    Quit,
    Save,
    Edit,
    Help,
    Delete,
    ErrorSaveFailed,
    SavingData,
    Activity,
}

/// Every key, in declaration order.
pub open spec fn all_keys() -> Seq<Key> {
    seq![
        Key::Title,
        Key::EventActivated,
        Key::EventDeactivated,
        Key::EventStarted,
        Key::EventStopped,
        Key::Open,
        Key::Cancel,
        Key::Quit,
        Key::Save,
        Key::Edit,
        Key::Help,
        Key::Delete,
        Key::ErrorSaveFailed,
        Key::SavingData,
        Key::Activity,
    ]
}

impl Key {
    /// The message identifier of the key in the text table (kebab case).
    pub open spec fn spec_name(self) -> Seq<char> {
        match self {
            Key::Title => "title"@,
            Key::EventActivated => "event-activated"@,
            Key::EventDeactivated => "event-deactivated"@,
            Key::EventStarted => "event-started"@,
            Key::EventStopped => "event-stopped"@,
            Key::Open => "open"@,
            Key::Cancel => "cancel"@,
            Key::Quit => "quit"@,
            Key::Save => "save"@,
            Key::Edit => "edit"@,
            Key::Help => "help"@,
            Key::Delete => "delete"@,
            Key::ErrorSaveFailed => "error-save-failed"@,
            Key::SavingData => "saving-data"@,
            Key::Activity => "activity"@,
        }
    }

    /// The message identifier of the key.
    pub fn name(&self) -> (r: &'static str)
        ensures
            r@ == self.spec_name(),
    {
        match self {
            Key::Title => "title",
            Key::EventActivated => "event-activated",
            Key::EventDeactivated => "event-deactivated",
            Key::EventStarted => "event-started",
            Key::EventStopped => "event-stopped",
            Key::Open => "open",
            Key::Cancel => "cancel",
            Key::Quit => "quit",
            Key::Save => "save",
            Key::Edit => "edit",
            Key::Help => "help",
            Key::Delete => "delete",
            Key::ErrorSaveFailed => "error-save-failed",
            Key::SavingData => "saving-data",
            Key::Activity => "activity",
        }
    }

    /// Every key, in declaration order.
    pub fn all() -> (r: Vec<Key>)
        ensures
            r@ == all_keys(),
    {
        let r = vec![
            Key::Title,
            Key::EventActivated,
            Key::EventDeactivated,
            Key::EventStarted,
            Key::EventStopped,
            Key::Open,
            Key::Cancel,
            Key::Quit,
            Key::Save,
            Key::Edit,
            Key::Help,
            Key::Delete,
            Key::ErrorSaveFailed,
            Key::SavingData,
            Key::Activity,
        ];
        assert(r@ =~= all_keys());
        r
    }
}

#[verifier::external_type_specification]
#[verifier::external_body]
#[verifier::reject_recursive_types(T)]
#[verifier::reject_recursive_types(S)]
pub struct ExIndexSet<T, S>(indexmap::IndexSet<T, S>);

/// The items of an insertion-ordered set of strings, in insertion order.
pub uninterp spec fn index_set_items(s: IndexSet<String>) -> Seq<Seq<char>>;

/// Relies on `IndexSet::new`: a new set holds no item.
#[verifier::external_body]
fn new_index_set() -> (r: IndexSet<String>)
    ensures
        index_set_items(r) == Seq::<Seq<char>>::empty(),
{
    IndexSet::new()
}

/// Relies on `IndexSet::insert`: an item equal to one already held leaves the
/// set as it was and gives `false`; any other is added at the end and gives
/// `true`.
#[verifier::external_body]
fn index_set_insert(s: &mut IndexSet<String>, v: String) -> (r: bool)
    ensures
        index_set_items(*old(s)).contains(v@) ==> !r && index_set_items(*final(s))
            == index_set_items(*old(s)),
        !index_set_items(*old(s)).contains(v@) ==> r && index_set_items(*final(s))
            == index_set_items(*old(s)).push(v@),
{
    s.insert(v)
}

/// Relies on `IndexSet`'s owning iterator, which yields the items in insertion
/// order.
#[verifier::external_body]
fn index_set_into_vec(s: IndexSet<String>) -> (r: Vec<String>)
    ensures
        strings_view(r@) == index_set_items(s),
{
    s.into_iter().collect()
}

/// `s` without leading and trailing whitespace, as `str::trim` gives it.
pub open spec fn trimmed(s: Seq<char>) -> Seq<char> {
    let lo = run_end(s, 0, CharClass::Space);
    let hi = trim_end(s, s.len() as int);
    if lo < hi {
        s.subrange(lo, hi)
    } else {
        seq![]
    }
}

/// The locale folder below a data directory.
pub open spec fn root_of_prefix(p: Seq<char>) -> Seq<char> {
    trimmed(p) + "/kas-selector/locales"@
}

/// The end of the colon-separated part that starts at `i`.
pub open spec fn part_end(t: Seq<char>, i: int) -> int
    decreases t.len() - i,
{
    if 0 <= i < t.len() && t[i] != ':' {
        part_end(t, i + 1)
    } else {
        i
    }
}

/// A part ends no earlier than it starts, and within the text.
pub proof fn lemma_part_end_bounds(t: Seq<char>, i: int)
    requires
        0 <= i <= t.len(),
    ensures
        i <= part_end(t, i) <= t.len(),
    decreases t.len() - i,
{
    if i < t.len() && t[i] != ':' {
        lemma_part_end_bounds(t, i + 1);
    }
}

/// The colon-separated parts of `t` from position `i` on, as `str::split(':')`
/// gives them: an empty text has one empty part.
pub open spec fn parts_from(t: Seq<char>, i: int) -> Seq<Seq<char>>
    decreases t.len() + 1 - i,
{
    if i < 0 || i > t.len() {
        seq![]
    } else {
        proof {
            lemma_part_end_bounds(t, i);
        }
        let e = part_end(t, i);
        seq![t.subrange(i, e)] + parts_from(t, e + 1)
    }
}

/// The items in order of first appearance, each once.
pub open spec fn first_occurrences(s: Seq<Seq<char>>) -> Seq<Seq<char>>
    decreases s.len(),
{
    if s.len() == 0 {
        seq![]
    } else {
        let d = first_occurrences(s.drop_last());
        if d.contains(s.last()) {
            d
        } else {
            d.push(s.last())
        }
    }
}

/// The folders searched for locale files, in priority order: the working
/// directory's `locales`, those below `/usr/local/share` and `/usr/share`, then
/// those below each data directory of the colon-separated list, each folder
/// once.
pub open spec fn locale_roots_of(xdg_data_dirs: Seq<char>) -> Seq<Seq<char>> {
    first_occurrences(default_roots() + roots_of_parts(parts_from(xdg_data_dirs, 0)))
}

/// The folders searched before any data directory of the list.
pub open spec fn default_roots() -> Seq<Seq<char>> {
    seq!["locales"@, root_of_prefix("/usr/local/share"@), root_of_prefix("/usr/share"@)]
}

/// The locale folder below each data directory.
pub open spec fn roots_of_parts(ps: Seq<Seq<char>>) -> Seq<Seq<char>> {
    ps.map_values(|p: Seq<char>| root_of_prefix(p))
}

/// `s` without leading and trailing whitespace.
pub fn trim_text(s: &str) -> (r: String)
    ensures
        r@ == trimmed(s@),
{
    let cs = chars_of(s);
    let lo = crate::source::run_end_exec(&cs, 0, CharClass::Space);
    let hi = crate::source::trim_end_exec(&cs);
    if lo < hi {
        s.substring_char(lo, hi).to_owned()
    } else {
        String::new()
    }
}

/// The locale folder below data directory `p`.
pub fn locale_root_prefix(p: &str) -> (r: String)
    ensures
        r@ == root_of_prefix(p@),
{
    trim_text(p).concat("/kas-selector/locales")
}

/// The folders searched for locale files, given the colon-separated list of
/// data directories.
pub fn locale_roots_from(xdg_data_dirs: &str) -> (r: Vec<String>)
    ensures
        strings_view(r@) == locale_roots_of(xdg_data_dirs@),
{
    let ghost t = xdg_data_dirs@;
    let ghost fixed = default_roots();
    proof {
        assert(fixed.take(1).drop_last() =~= fixed.take(0));
        assert(fixed.take(2).drop_last() =~= fixed.take(1));
        assert(fixed.take(3).drop_last() =~= fixed.take(2));
        assert(fixed.take(3) =~= fixed);
        assert(first_occurrences(fixed.take(0)) =~= Seq::<Seq<char>>::empty());
    }
    let mut seen = new_index_set();
    index_set_insert(&mut seen, "locales".to_owned());
    assert(index_set_items(seen) == first_occurrences(fixed.take(1)));
    index_set_insert(&mut seen, locale_root_prefix("/usr/local/share"));
    assert(index_set_items(seen) == first_occurrences(fixed.take(2)));
    index_set_insert(&mut seen, locale_root_prefix("/usr/share"));
    assert(index_set_items(seen) == first_occurrences(fixed));
    assert(fixed + roots_of_parts(Seq::<Seq<char>>::empty())
        =~= fixed);
    let cs = chars_of(xdg_data_dirs);
    let n = cs.len();
    let mut i: usize = 0;
    let ghost mut done: Seq<Seq<char>> = seq![];
    loop
        invariant
            cs@ == t,
            t == xdg_data_dirs@,
            fixed == default_roots(),
            n == cs.len(),
            i <= n,
            parts_from(t, 0) == done + parts_from(t, i as int),
            index_set_items(seen) == first_occurrences(
                fixed + roots_of_parts(done),
            ),
        decreases n - i,
    {
        let mut e = i;
        while e < n && cs[e] != ':'
            invariant
                i <= e <= n,
                n == cs.len(),
                part_end(cs@, e as int) == part_end(cs@, i as int),
            decreases n - e,
        {
            e = e + 1;
        }
        let part = xdg_data_dirs.substring_char(i, e);
        let ghost before = done;
        proof {
            lemma_part_end_bounds(t, i as int);
            done = done.push(part@);
            assert(parts_from(t, i as int) == seq![part@] + parts_from(t, e + 1));
            assert(parts_from(t, 0) =~= done + parts_from(t, e + 1));
            let m = roots_of_parts(done);
            assert((fixed + m).drop_last() =~= fixed + roots_of_parts(before));
        }
        index_set_insert(&mut seen, locale_root_prefix(part));
        if e >= n {
            proof {
                assert(parts_from(t, e + 1) =~= Seq::<Seq<char>>::empty());
                assert(parts_from(t, 0) =~= done);
                assert(roots_of_parts(parts_from(t, 0))
                    =~= roots_of_parts(done));
                assert(index_set_items(seen) == first_occurrences(
                    fixed + roots_of_parts(done),
                ));
            }
            return index_set_into_vec(seen);
        }
        i = e + 1;
    }
}

/// The end of the language part of a locale value: the first dot, or the end.
pub open spec fn dot_end(v: Seq<char>, i: int) -> int
    decreases v.len() - i,
{
    if 0 <= i < v.len() && v[i] != '.' {
        dot_end(v, i + 1)
    } else {
        i
    }
}

/// A locale value such as `de_DE.UTF-8` as a language tag: the part before
/// the first dot, with each `_` written as `-`.
pub open spec fn lang_tag(v: Seq<char>) -> Seq<char> {
    v.take(dot_end(v, 0)).map_values(|c: char| if c == '_' { '-' } else { c })
}

/// The language to show: the tag of the first value that is set and not
/// empty, in the order given, or `en-US`.
pub open spec fn lang_of(vals: Seq<Option<Seq<char>>>) -> Seq<char>
    decreases vals.len(),
{
    if vals.len() == 0 {
        "en-US"@
    } else {
        match vals[0] {
            Some(v) if v.len() > 0 => lang_tag(v),
            _ => lang_of(vals.drop_first()),
        }
    }
}

/// The language tag of a locale value.
pub fn lang_tag_of(v: &str) -> (r: String)
    ensures
        r@ == lang_tag(v@),
{
    let cs = chars_of(v);
    let mut r = String::new();
    let mut i: usize = 0;
    while i < cs.len() && cs[i] != '.'
        invariant
            cs@ == v@,
            i <= cs.len(),
            dot_end(v@, i as int) == dot_end(v@, 0),
            r@ == v@.take(i as int).map_values(|c: char| if c == '_' { '-' } else { c }),
        decreases cs.len() - i,
    {
        if cs[i] == '_' {
            r.append("-");
            proof {
                reveal_strlit("-");
            }
        } else {
            r.append(v.substring_char(i, i + 1));
        }
        assert(v@.take(i + 1) =~= v@.take(i as int).push(v@[i as int]));
        assert(r@ =~= v@.take(i + 1).map_values(|c: char| if c == '_' { '-' } else { c }));
        i = i + 1;
    }
    r
}

/// The language to show, from the values of the locale variables in order of
/// precedence (`None` for one that is not set).
pub fn lang_from_vars(vals: &Vec<Option<String>>) -> (r: String)
    ensures
        r@ == lang_of(vals@.map_values(|o: Option<String>| match o {
            Some(s) => Some(s@),
            None => None,
        })),
{
    let ghost view = vals@.map_values(|o: Option<String>| match o {
        Some(s) => Some(s@),
        None => None,
    });
    let mut i: usize = 0;
    assert(view.subrange(0, view.len() as int) =~= view);
    while i < vals.len()
        invariant
            i <= vals.len(),
            view == vals@.map_values(|o: Option<String>| match o {
                Some(s) => Some(s@),
                None => None,
            }),
            lang_of(view) == lang_of(view.subrange(i as int, view.len() as int)),
        decreases vals.len() - i,
    {
        let ghost rest = view.subrange(i as int, view.len() as int);
        assert(rest.drop_first() =~= view.subrange(i + 1, view.len() as int));
        match &vals[i] {
            Some(v) => {
                if !v.as_str().is_empty() {
                    return lang_tag_of(v.as_str());
                }
            },
            None => {},
        }
        i = i + 1;
    }
    "en-US".to_owned()
}

} // verus!
