//! Parsing the text of an external activity listing into identifiers and names.
//!
//! Two shapes of listing are read.
//!
//! A line list, one activity per line:
//! `ws* '[' tag ']' ws+ id ws+ name ws+ '(' icon ')' ws*`, where the tag is one
//! or more word characters, the id one or more of `a-f`, `0-9` and `-`, the
//! name the shortest non-blank text after which the rest of the line fits, and
//! the icon any non-empty text. Lines of any other shape are skipped.
//!
//! A record list, as a D-Bus call prints an array of structures:
//! `([('id', 'name', ...), ('id', 'name', ...)],)`. The text is trimmed, a
//! leading `([` and a trailing `],)` are taken off, and the rest is split at
//! each `), (`. A piece, less one leading `(` and one trailing `)`, that opens
//! with a quote is a record: a quoted id, `, `, and a quoted name, then any
//! further fields. Other pieces are skipped; a record whose id or name is not
//! complete makes the listing malformed.

use vstd::prelude::*;

use crate::error::Application;
use crate::text::chars_of;

verus! {

/// Unicode `White_Space`, the set that `char::is_whitespace` tests.
pub open spec fn is_space(c: char) -> bool {
    let u = c as u32;
    ||| u == 0x20
    ||| 0x09 <= u <= 0x0d
    ||| u == 0x85
    ||| u == 0xa0
    ||| u == 0x1680
    ||| 0x2000 <= u <= 0x200a
    ||| u == 0x2028
    ||| u == 0x2029
    ||| u == 0x202f
    ||| u == 0x205f
    ||| u == 0x3000
}

/// Whether `char::is_alphanumeric` holds of `c`.
pub uninterp spec fn alphanumeric(c: char) -> bool;

/// Relies on `char::is_alphanumeric`, whose result depends on the character alone.
#[verifier::external_body]
fn is_alphanumeric(c: char) -> (r: bool)
    ensures
        r == alphanumeric(c),
{
    c.is_alphanumeric()
}

/// The classes of characters that the line grammar runs over.
pub enum CharClass {
    Space,
    Word,
    Id,
}

/// Whether `c` belongs to class `k`.
pub open spec fn in_class(c: char, k: CharClass) -> bool {
    match k {
        CharClass::Space => is_space(c),
        CharClass::Word => alphanumeric(c) || c == '_',
        CharClass::Id => {
            let u = c as u32;
            ('a' as u32 <= u <= 'f' as u32) || ('0' as u32 <= u <= '9' as u32) || c == '-'
        },
    }
}

/// The end of the longest run of class `k` that starts at `i`.
pub open spec fn run_end(l: Seq<char>, i: int, k: CharClass) -> int
    decreases l.len() - i,
{
    if 0 <= i < l.len() && in_class(l[i], k) {
        run_end(l, i + 1, k)
    } else {
        i
    }
}

/// `j` with the whitespace just before it taken away.
pub open spec fn trim_end(l: Seq<char>, j: int) -> int
    decreases j,
{
    if 0 < j <= l.len() && is_space(l[j - 1]) {
        trim_end(l, j - 1)
    } else {
        j
    }
}

/// Whether the part of the line from `e` on is `ws+ '(' icon ')' ws*` with a
/// non-empty icon.
pub open spec fn tail_fits(l: Seq<char>, e: int) -> bool {
    let k = run_end(l, e, CharClass::Space);
    let z = trim_end(l, l.len() as int);
    &&& 0 <= e < l.len()
    &&& is_space(l[e])
    &&& k < l.len()
    &&& l[k] == '('
    &&& k + 3 <= z
    &&& l[z - 1] == ')'
}

/// The first position from `i` on where the tail of the line fits.
pub open spec fn first_tail(l: Seq<char>, i: int) -> Option<int>
    decreases l.len() - i,
{
    if i < 0 || i >= l.len() {
        None
    } else if tail_fits(l, i) {
        Some(i)
    } else {
        first_tail(l, i + 1)
    }
}

/// Where the identifier and the name lie in a line of the listing
/// (`(id_start, id_end, name_start, name_end)`), or `None` if the line does not
/// have the shape of an activity.
pub open spec fn line_spans(l: Seq<char>) -> Option<(int, int, int, int)> {
    let a = run_end(l, 0, CharClass::Space);
    let u = run_end(l, a + 1, CharClass::Word);
    let v = run_end(l, u + 1, CharClass::Space);
    let w = run_end(l, v, CharClass::Id);
    let s = run_end(l, w, CharClass::Space);
    if !(a < l.len() && l[a] == '[') {
        None
    } else if !(u > a + 1 && u < l.len() && l[u] == ']') {
        None
    } else if !(v > u + 1 && w > v && s > w) {
        None
    } else {
        match first_tail(l, s + 1) {
            Some(e) => Some((v, w, s, e)),
            None => None,
        }
    }
}

/// The identifier and the name that a line of the listing gives, if any.
pub open spec fn line_record(l: Seq<char>) -> Option<(Seq<char>, Seq<char>)> {
    match line_spans(l) {
        Some((v, w, s, e)) => Some((l.subrange(v, w), l.subrange(s, e))),
        None => None,
    }
}

fn in_class_exec(c: char, k: &CharClass) -> (r: bool)
    ensures
        r == in_class(c, *k),
{
    match k {
        CharClass::Space => {
            let u = c as u32;
            u == 0x20 || (0x09 <= u && u <= 0x0d) || u == 0x85 || u == 0xa0 || u == 0x1680 || (
            0x2000 <= u && u <= 0x200a) || u == 0x2028 || u == 0x2029 || u == 0x202f || u
                == 0x205f || u == 0x3000
        },
        CharClass::Word => is_alphanumeric(c) || c == '_',
        CharClass::Id => {
            let u = c as u32;
            ('a' as u32 <= u && u <= 'f' as u32) || ('0' as u32 <= u && u <= '9' as u32) || c
                == '-'
        },
    }
}

pub fn run_end_exec(l: &Vec<char>, i: usize, k: CharClass) -> (r: usize)
    requires
        i <= l.len(),
    ensures
        r == run_end(l@, i as int, k),
        i <= r <= l.len(),
{
    let mut j = i;
    while j < l.len() && in_class_exec(l[j], &k)
        invariant
            i <= j <= l.len(),
            run_end(l@, j as int, k) == run_end(l@, i as int, k),
        decreases l.len() - j,
    {
        j = j + 1;
    }
    j
}

pub fn trim_end_exec(l: &Vec<char>) -> (r: usize)
    ensures
        r == trim_end(l@, l.len() as int),
        r <= l.len(),
{
    let mut j = l.len();
    while j > 0 && in_class_exec(l[j - 1], &CharClass::Space)
        invariant
            j <= l.len(),
            trim_end(l@, j as int) == trim_end(l@, l.len() as int),
        decreases j,
    {
        j = j - 1;
    }
    j
}

/// Where the identifier and the name lie in one line of the listing.
pub fn parse_line(l: &Vec<char>) -> (r: Option<(usize, usize, usize, usize)>)
    ensures
        match r {
            Some((v, w, s, e)) => {
                &&& line_spans(l@) == Some((v as int, w as int, s as int, e as int))
                &&& v < w < s < e < l.len()
            },
            None => line_spans(l@) is None,
        },
{
    let n = l.len();
    let a = run_end_exec(l, 0, CharClass::Space);
    if !(a < n && l[a] == '[') {
        return None;
    }
    let u = run_end_exec(l, a + 1, CharClass::Word);
    if !(u > a + 1 && u < n && l[u] == ']') {
        return None;
    }
    let v = run_end_exec(l, u + 1, CharClass::Space);
    if !(v > u + 1) {
        return None;
    }
    let w = run_end_exec(l, v, CharClass::Id);
    if !(w > v) {
        return None;
    }
    let s = run_end_exec(l, w, CharClass::Space);
    if !(s > w && s < n) {
        return None;
    }
    let z = trim_end_exec(l);
    let mut e = s + 1;
    assert(line_spans(l@) == match first_tail(l@, e as int) {
        Some(x) => Some((v as int, w as int, s as int, x)),
        None => None,
    });
    while e < n
        invariant
            line_spans(l@) == match first_tail(l@, (s + 1) as int) {
                Some(x) => Some((v as int, w as int, s as int, x)),
                None => None,
            },
            s < e,
            n == l.len(),
            z == trim_end(l@, n as int),
            z <= n,
            first_tail(l@, (s + 1) as int) == first_tail(l@, e as int),
        decreases n - e,
    {
        if in_class_exec(l[e], &CharClass::Space) {
            let k = run_end_exec(l, e, CharClass::Space);
            if k < n && l[k] == '(' && z >= 3 && k <= z - 3 && l[z - 1] == ')' {
                assert(tail_fits(l@, e as int));
                return Some((v, w, s, e));
            }
        }
        e = e + 1;
    }
    None
}

/// The end of the line that starts at `i`: the first newline from `i` on, or
/// the end of the text.
pub open spec fn line_end(t: Seq<char>, i: int) -> int
    decreases t.len() - i,
{
    if 0 <= i < t.len() && t[i] != '\n' {
        line_end(t, i + 1)
    } else {
        i
    }
}

/// A line ends no earlier than it starts, and within the text.
pub proof fn lemma_line_end_bounds(t: Seq<char>, i: int)
    requires
        0 <= i <= t.len(),
    ensures
        i <= line_end(t, i) <= t.len(),
        line_end(t, i) < t.len() ==> t[line_end(t, i)] == '\n',
        forall|j: int| i <= j < line_end(t, i) ==> t[j] != '\n',
    decreases t.len() - i,
{
    if i < t.len() && t[i] != '\n' {
        lemma_line_end_bounds(t, i + 1);
    }
}

/// The records that the lines of `t` give, from the line that starts at `i`
/// on, in the order of the text.
pub open spec fn records_from(t: Seq<char>, i: int) -> Seq<(Seq<char>, Seq<char>)>
    decreases t.len() + 1 - i,
{
    if i < 0 || i > t.len() {
        seq![]
    } else {
        proof {
            lemma_line_end_bounds(t, i);
        }
        let e = line_end(t, i);
        let rest = records_from(t, e + 1);
        match line_record(t.subrange(i, e)) {
            Some(r) => seq![r] + rest,
            None => rest,
        }
    }
}

/// The identifiers and names that a listing gives, one for each line that has
/// the shape of an activity, in the order of the text.
pub open spec fn listing_records(t: Seq<char>) -> Seq<(Seq<char>, Seq<char>)> {
    records_from(t, 0)
}

/// The text of each pair.
pub open spec fn pairs_view(v: Seq<(String, String)>) -> Seq<(Seq<char>, Seq<char>)> {
    v.map_values(|p: (String, String)| (p.0@, p.1@))
}

fn copy_range(cs: &Vec<char>, lo: usize, hi: usize) -> (r: Vec<char>)
    requires
        lo <= hi <= cs.len(),
    ensures
        r@ == cs@.subrange(lo as int, hi as int),
{
    let mut r: Vec<char> = Vec::new();
    let mut j = lo;
    while j < hi
        invariant
            lo <= j <= hi <= cs.len(),
            r@ == cs@.subrange(lo as int, j as int),
        decreases hi - j,
    {
        r.push(cs[j]);
        j = j + 1;
    }
    r
}

/// The identifiers and names of the activities in a listing with one activity
/// per line.
pub fn parse_listing(raw: &str) -> (r: Vec<(String, String)>)
    ensures
        pairs_view(r@) == listing_records(raw@),
{
    let cs = chars_of(raw);
    let n = cs.len();
    let mut out: Vec<(String, String)> = Vec::new();
    let mut i: usize = 0;
    loop
        invariant
            cs@ == raw@,
            n == cs.len(),
            i <= n,
            listing_records(raw@) == pairs_view(out@) + records_from(raw@, i as int),
        decreases n - i,
    {
        let mut e = i;
        while e < n && cs[e] != '\n'
            invariant
                i <= e <= n,
                n == cs.len(),
                line_end(cs@, e as int) == line_end(cs@, i as int),
            decreases n - e,
        {
            e = e + 1;
        }
        let line = copy_range(&cs, i, e);
        let ghost before = out@;
        proof {
            lemma_line_end_bounds(cs@, i as int);
        }
        match parse_line(&line) {
            Some((v, w, s, x)) => {
                let id = raw.substring_char(i + v, i + w).to_owned();
                let name = raw.substring_char(i + s, i + x).to_owned();
                assert(id@ =~= line@.subrange(v as int, w as int));
                assert(name@ =~= line@.subrange(s as int, x as int));
                out.push((id, name));
                assert(pairs_view(out@) =~= pairs_view(before) + seq![(id@, name@)]);
            },
            None => {},
        }
        if e >= n {
            assert(records_from(raw@, (e + 1) as int) =~= seq![]);
            assert(listing_records(raw@) =~= pairs_view(out@));
            return out;
        }
        i = e + 1;
    }
}

proof fn lemma_line_end_prefix(a: Seq<char>, b: Seq<char>, i: int)
    requires
        0 <= i <= a.len(),
    ensures
        line_end(a + seq!['\n'] + b, i) == line_end(a, i),
    decreases a.len() - i,
{
    let t = a + seq!['\n'] + b;
    if i < a.len() {
        assert(t[i] == a[i]);
        lemma_line_end_prefix(a, b, i + 1);
    } else {
        assert(t[i] == '\n');
    }
}

proof fn lemma_line_end_shift(p: Seq<char>, b: Seq<char>, j: int)
    requires
        0 <= j <= b.len(),
    ensures
        line_end(p + b, p.len() + j) == p.len() + line_end(b, j),
    decreases b.len() - j,
{
    let t = p + b;
    if j < b.len() {
        assert(t[p.len() + j] == b[j]);
        lemma_line_end_shift(p, b, j + 1);
        assert(p.len() + j + 1 == p.len() + (j + 1));
    }
}

proof fn lemma_records_shift(p: Seq<char>, b: Seq<char>, j: int)
    requires
        0 <= j <= b.len() + 1,
    ensures
        records_from(p + b, p.len() + j) == records_from(b, j),
    decreases b.len() + 1 - j,
{
    let t = p + b;
    if j <= b.len() {
        lemma_line_end_shift(p, b, j);
        lemma_line_end_bounds(b, j);
        let e = line_end(b, j);
        assert(t.subrange(p.len() + j, p.len() + e) =~= b.subrange(j, e));
        lemma_records_shift(p, b, e + 1);
        assert(p.len() + e + 1 == p.len() + (e + 1));
    }
}

proof fn lemma_records_join_from(a: Seq<char>, b: Seq<char>, i: int)
    requires
        0 <= i <= a.len(),
    ensures
        records_from(a + seq!['\n'] + b, i) == records_from(a, i) + records_from(b, 0),
    decreases a.len() - i,
{
    let t = a + seq!['\n'] + b;
    let p = a + seq!['\n'];
    lemma_line_end_prefix(a, b, i);
    lemma_line_end_bounds(a, i);
    let e = line_end(a, i);
    assert(t.subrange(i, e) =~= a.subrange(i, e));
    if e < a.len() {
        lemma_records_join_from(a, b, e + 1);
    } else {
        assert(t =~= p + b);
        lemma_records_shift(p, b, 0);
        assert(records_from(a, e + 1) =~= seq![]);
    }
    match line_record(a.subrange(i, e)) {
        Some(r) => {
            assert(records_from(t, i) =~= records_from(a, i) + records_from(b, 0));
        },
        None => {},
    }
}

/// A listing of a single line gives that line's record, if it has one, and
/// nothing else.
pub proof fn lemma_single_line(l: Seq<char>)
    requires
        !l.contains('\n'),
    ensures
        listing_records(l) == match line_record(l) {
            Some(r) => seq![r],
            None => seq![],
        },
{
    lemma_line_end_bounds(l, 0);
    let e = line_end(l, 0);
    if e < l.len() {
        assert(l.contains(l[e]));
    }
    assert(l.subrange(0, e) =~= l);
    assert(records_from(l, e + 1) =~= seq![]);
    match line_record(l) {
        Some(r) => assert(listing_records(l) =~= seq![r]),
        None => {},
    }
}

/// Joining two listings with a newline joins their records: each line is
/// read on its own, in the order of the text, and a line that has no record
/// takes nothing away from the others.
pub proof fn lemma_listing_join(a: Seq<char>, b: Seq<char>)
    ensures
        listing_records(a + seq!['\n'] + b) == listing_records(a) + listing_records(b),
{
    lemma_records_join_from(a, b, 0);
}

/// Which shape of listing the external source prints.
#[derive(Debug, Clone, Copy, PartialEq, Eq, Structural)]
pub enum ActivitySource {
    /// One activity per line.
    LineList,
    /// A bracketed list of quoted records.
    RecordList,
}

/// The first quote from `i` on, before `d`; `d` if there is none.
pub open spec fn quote_end(p: Seq<char>, i: int, d: int) -> int
    decreases d - i,
{
    if 0 <= i < d && i < p.len() && p[i] != '\'' {
        quote_end(p, i + 1, d)
    } else {
        i
    }
}

/// Where the id and the name lie in one piece of a record list
/// (`(id_start, id_end, name_start, name_end)`); `Ok(None)` for a piece that is
/// not a record; `Err` for a record whose id or name is not complete.
pub open spec fn piece_spans(p: Seq<char>) -> Result<Option<(int, int, int, int)>, ()> {
    let c: int = if p.len() > 0 && p[0] == '(' {
        1
    } else {
        0
    };
    let d: int = if p.len() > c && p[p.len() - 1] == ')' {
        p.len() - 1
    } else {
        p.len() as int
    };
    if !(c < d && p[c] == '\'') {
        Ok(None)
    } else {
        let a = quote_end(p, c + 1, d);
        let b = quote_end(p, a + 4, d);
        if a >= d {
            Err(())
        } else if !(a + 3 < d && p[a + 1] == ',' && p[a + 2] == ' ' && p[a + 3] == '\'') {
            Err(())
        } else if b >= d {
            Err(())
        } else {
            Ok(Some((c + 1, a, a + 4, b)))
        }
    }
}

/// Whether the delimiter `), (` starts at `j`.
pub open spec fn delim_at(b: Seq<char>, j: int) -> bool {
    &&& 0 <= j
    &&& j + 4 <= b.len()
    &&& b[j] == ')'
    &&& b[j + 1] == ','
    &&& b[j + 2] == ' '
    &&& b[j + 3] == '('
}

/// The end of the piece that starts at `i`: the next delimiter, or the end.
pub open spec fn piece_end(b: Seq<char>, i: int) -> int
    decreases b.len() - i,
{
    if 0 <= i < b.len() && !delim_at(b, i) {
        piece_end(b, i + 1)
    } else {
        i
    }
}

/// A piece ends no earlier than it starts, and within the body.
pub proof fn lemma_piece_end_bounds(b: Seq<char>, i: int)
    requires
        0 <= i <= b.len(),
    ensures
        i <= piece_end(b, i) <= b.len(),
        piece_end(b, i) < b.len() ==> delim_at(b, piece_end(b, i)),
    decreases b.len() - i,
{
    if i < b.len() && !delim_at(b, i) {
        lemma_piece_end_bounds(b, i + 1);
    }
}

/// The records of the pieces of `b` from the one that starts at `i` on, in
/// order; `Err` if one of them is malformed.
pub open spec fn pieces_from(b: Seq<char>, i: int) -> Result<Seq<(Seq<char>, Seq<char>)>, ()>
    decreases b.len() + 4 - i,
{
    if i < 0 || i > b.len() {
        Ok(seq![])
    } else {
        proof {
            lemma_piece_end_bounds(b, i);
        }
        let e = piece_end(b, i);
        let p = b.subrange(i, e);
        let rest = pieces_from(b, e + 4);
        match (piece_spans(p), rest) {
            (Err(_), _) => Err(()),
            (_, Err(_)) => Err(()),
            (Ok(None), Ok(rest)) => Ok(rest),
            (Ok(Some((x0, x1, y0, y1))), Ok(rest)) => Ok(
                seq![(p.subrange(x0, x1), p.subrange(y0, y1))] + rest,
            ),
        }
    }
}

/// The body of a record list: the text without surrounding whitespace, less a
/// leading `([` and a trailing `],)`.
pub open spec fn list_body(t: Seq<char>) -> Seq<char> {
    let u = t.subrange(0, trim_end(t, t.len() as int));
    let v = u.subrange(run_end(u, 0, CharClass::Space), u.len() as int);
    let w = if v.len() >= 2 && v[0] == '(' && v[1] == '[' {
        v.subrange(2, v.len() as int)
    } else {
        v
    };
    if w.len() >= 3 && w[w.len() - 3] == ']' && w[w.len() - 2] == ',' && w[w.len() - 1] == ')' {
        w.subrange(0, w.len() - 3)
    } else {
        w
    }
}

/// The identifiers and names that a record list gives, in order; `Err` if a
/// record is malformed.
pub open spec fn record_list(t: Seq<char>) -> Result<Seq<(Seq<char>, Seq<char>)>, ()> {
    pieces_from(list_body(t), 0)
}

/// The identifiers and names that a listing of the given shape gives, in the
/// order of the text; `Err` if it is malformed.
pub open spec fn source_records(src: ActivitySource, t: Seq<char>) -> Result<
    Seq<(Seq<char>, Seq<char>)>,
    (),
> {
    match src {
        ActivitySource::LineList => Ok(listing_records(t)),
        ActivitySource::RecordList => record_list(t),
    }
}

/// The error that reports a malformed listing.
pub open spec fn is_malformed_error(e: Application, t: Seq<char>) -> bool {
    e matches Application::InvalidValue { value, .. } && value@ == t
}

fn quote_end_exec(p: &Vec<char>, i: usize, d: usize) -> (r: usize)
    requires
        i <= d <= p.len(),
    ensures
        r == quote_end(p@, i as int, d as int),
        i <= r <= d,
{
    let mut j = i;
    while j < d && p[j] != '\''
        invariant
            i <= j <= d <= p.len(),
            quote_end(p@, j as int, d as int) == quote_end(p@, i as int, d as int),
        decreases d - j,
    {
        j = j + 1;
    }
    j
}

fn parse_piece(p: &Vec<char>) -> (r: Result<Option<(usize, usize, usize, usize)>, ()>)
    ensures
        match r {
            Ok(Some((x0, x1, y0, y1))) => {
                &&& piece_spans(p@) == Ok::<_, ()>(
                    Some((x0 as int, x1 as int, y0 as int, y1 as int)),
                )
                &&& x0 <= x1 <= y0 <= y1 <= p.len()
            },
            Ok(None) => piece_spans(p@) == Ok::<Option<(int, int, int, int)>, ()>(None),
            Err(_) => piece_spans(p@) is Err,
        },
{
    let n = p.len();
    let c: usize = if n > 0 && p[0] == '(' {
        1
    } else {
        0
    };
    let d: usize = if n > c && p[n - 1] == ')' {
        n - 1
    } else {
        n
    };
    if !(c < d && p[c] == '\'') {
        return Ok(None);
    }
    let a = quote_end_exec(p, c + 1, d);
    if a >= d {
        return Err(());
    }
    if !(d >= 4 && a < d - 3 && p[a + 1] == ',' && p[a + 2] == ' ' && p[a + 3] == '\'') {
        return Err(());
    }
    let b = quote_end_exec(p, a + 4, d);
    if b >= d {
        return Err(());
    }
    Ok(Some((c + 1, a, a + 4, b)))
}

fn body_bounds(cs: &Vec<char>) -> (r: (usize, usize))
    ensures
        r.0 <= r.1 <= cs.len(),
        cs@.subrange(r.0 as int, r.1 as int) == list_body(cs@),
{
    let hi = trim_end_exec(cs);
    let u = copy_range(cs, 0, hi);
    let lo = run_end_exec(&u, 0, CharClass::Space);
    let ghost v = u@.subrange(lo as int, u.len() as int);
    assert(v =~= cs@.subrange(lo as int, hi as int));
    let mut s0 = lo;
    if hi - lo >= 2 && cs[lo] == '(' && cs[lo + 1] == '[' {
        s0 = lo + 2;
    }
    let ghost w = cs@.subrange(s0 as int, hi as int);
    let mut e0 = hi;
    if hi - s0 >= 3 && cs[hi - 3] == ']' && cs[hi - 2] == ',' && cs[hi - 1] == ')' {
        e0 = hi - 3;
    }
    assert(cs@.subrange(s0 as int, e0 as int) =~= list_body(cs@));
    (s0, e0)
}

/// The identifiers and names of the activities in a record list.
pub fn parse_record_list(raw: &str) -> (r: Result<Vec<(String, String)>, Application>)
    ensures
        match r {
            Ok(v) => record_list(raw@) == Ok::<_, ()>(pairs_view(v@)),
            Err(e) => record_list(raw@) is Err && is_malformed_error(e, raw@),
        },
{
    let cs = chars_of(raw);
    let (lo, hi) = body_bounds(&cs);
    let body = copy_range(&cs, lo, hi);
    let ghost b = body@;
    let n = body.len();
    let mut out: Vec<(String, String)> = Vec::new();
    let mut i: usize = 0;
    loop
        invariant
            cs@ == raw@,
            b == body@,
            b == list_body(raw@),
            b == cs@.subrange(lo as int, hi as int),
            lo <= hi <= cs.len(),
            n == body.len(),
            i <= n,
            record_list(raw@) == match pieces_from(b, i as int) {
                Ok(rest) => Ok(pairs_view(out@) + rest),
                Err(_) => Err(()),
            },
        decreases n - i,
    {
        let mut e = i;
        while e < n && !(n - e >= 4 && body[e] == ')' && body[e + 1] == ',' && body[e + 2] == ' '
            && body[e + 3] == '(')
            invariant
                i <= e <= n,
                n == body.len(),
                piece_end(body@, e as int) == piece_end(body@, i as int),
            decreases n - e,
        {
            e = e + 1;
        }
        proof {
            lemma_piece_end_bounds(b, i as int);
        }
        let piece = copy_range(&body, i, e);
        let ghost before = out@;
        match parse_piece(&piece) {
            Err(_) => {
                return Err(Application::InvalidValue { category: "Activity Data", value: raw.to_owned() });
            },
            Ok(None) => {},
            Ok(Some((x0, x1, y0, y1))) => {
                let id = raw.substring_char(lo + i + x0, lo + i + x1).to_owned();
                let name = raw.substring_char(lo + i + y0, lo + i + y1).to_owned();
                assert(id@ =~= piece@.subrange(x0 as int, x1 as int));
                assert(name@ =~= piece@.subrange(y0 as int, y1 as int));
                out.push((id, name));
                assert(pairs_view(out@) =~= pairs_view(before) + seq![(id@, name@)]);
            },
        }
        assert(piece@ == b.subrange(i as int, e as int));
        assert(e as int == piece_end(b, i as int));
        proof {
            let rest_r = pieces_from(b, (e + 4) as int);
            let p = b.subrange(i as int, e as int);
            assert(p == piece@);
            match (piece_spans(p), rest_r) {
                (Ok(Some((x0, x1, y0, y1))), Ok(rest)) => {
                    let rec = (p.subrange(x0, x1), p.subrange(y0, y1));
                    assert(pieces_from(b, i as int) == Ok::<_, ()>(seq![rec] + rest));
                    assert(pairs_view(out@) == pairs_view(before) + seq![rec]);
                    assert(pairs_view(before) + (seq![rec] + rest) =~= pairs_view(out@) + rest);
                },
                (Ok(None), Ok(rest)) => {
                    assert(pieces_from(b, i as int) == Ok::<_, ()>(rest));
                    assert(out@ == before);
                },
                _ => {},
            }
        }
        if e >= n || n - e < 4 {
            assert(pieces_from(b, (e + 4) as int) == Ok::<_, ()>(Seq::<(Seq<char>, Seq<char>)>::empty()));
            assert(pairs_view(out@) + Seq::<(Seq<char>, Seq<char>)>::empty() =~= pairs_view(out@));
            return Ok(out);
        }
        i = e + 4;
    }
}

impl ActivitySource {
    /// The identifiers and names that a listing of this shape gives, in the
    /// order of the text.
    pub fn parse(&self, raw: &str) -> (r: Result<Vec<(String, String)>, Application>)
        ensures
            match r {
                Ok(v) => source_records(*self, raw@) == Ok::<_, ()>(pairs_view(v@)),
                Err(e) => source_records(*self, raw@) is Err && is_malformed_error(e, raw@),
            },
    {
        match self {
            ActivitySource::LineList => Ok(parse_listing(raw)),
            ActivitySource::RecordList => parse_record_list(raw),
        }
    }
}

/// The piece delimiter `), (`.
pub open spec fn delimiter() -> Seq<char> {
    seq![')', ',', ' ', '(']
}

/// The records of two bodies read one after the other; malformed if either is.
pub open spec fn join_results(
    x: Result<Seq<(Seq<char>, Seq<char>)>, ()>,
    y: Result<Seq<(Seq<char>, Seq<char>)>, ()>,
) -> Result<Seq<(Seq<char>, Seq<char>)>, ()> {
    match (x, y) {
        (Ok(a), Ok(b)) => Ok(a + b),
        _ => Err(()),
    }
}

proof fn lemma_piece_end_prefix(a: Seq<char>, b: Seq<char>, i: int)
    requires
        0 <= i <= a.len(),
    ensures
        piece_end(a + delimiter() + b, i) == piece_end(a, i),
    decreases a.len() - i,
{
    let t = a + delimiter() + b;
    if i < a.len() {
        assert(t[i] == a[i]);
        if delim_at(t, i) {
            if i + 4 > a.len() {
                assert(t[a.len() as int] == ')');
                assert(false);
            }
            assert(delim_at(a, i));
        } else {
            if delim_at(a, i) {
                assert(t[i + 1] == a[i + 1]);
                assert(t[i + 2] == a[i + 2]);
                assert(t[i + 3] == a[i + 3]);
            }
        }
        lemma_piece_end_prefix(a, b, i + 1);
    } else {
        assert(delim_at(t, i));
    }
}

proof fn lemma_piece_end_shift(p: Seq<char>, b: Seq<char>, j: int)
    requires
        0 <= j <= b.len(),
    ensures
        piece_end(p + b, p.len() + j) == p.len() + piece_end(b, j),
    decreases b.len() - j,
{
    let t = p + b;
    if j < b.len() {
        assert(delim_at(t, p.len() + j) == delim_at(b, j)) by {
            if j + 4 <= b.len() {
                assert(t[p.len() + j] == b[j]);
                assert(t[p.len() + j + 1] == b[j + 1]);
                assert(t[p.len() + j + 2] == b[j + 2]);
                assert(t[p.len() + j + 3] == b[j + 3]);
            }
        }
        lemma_piece_end_shift(p, b, j + 1);
        assert(p.len() + j + 1 == p.len() + (j + 1));
    }
}

proof fn lemma_pieces_shift(p: Seq<char>, b: Seq<char>, j: int)
    requires
        0 <= j,
    ensures
        pieces_from(p + b, p.len() + j) == pieces_from(b, j),
    decreases b.len() + 4 - j,
{
    let t = p + b;
    if j <= b.len() {
        lemma_piece_end_shift(p, b, j);
        lemma_piece_end_bounds(b, j);
        let e = piece_end(b, j);
        assert(t.subrange(p.len() + j, p.len() + e) =~= b.subrange(j, e));
        lemma_pieces_shift(p, b, e + 4);
        assert(p.len() + e + 4 == p.len() + (e + 4));
    }
}

proof fn lemma_pieces_join_from(a: Seq<char>, b: Seq<char>, i: int)
    requires
        0 <= i <= a.len(),
    ensures
        pieces_from(a + delimiter() + b, i) == join_results(pieces_from(a, i), pieces_from(b, 0)),
    decreases a.len() - i,
{
    let t = a + delimiter() + b;
    let p = a + delimiter();
    lemma_piece_end_prefix(a, b, i);
    lemma_piece_end_bounds(a, i);
    let e = piece_end(a, i);
    assert(t.subrange(i, e) =~= a.subrange(i, e));
    if e < a.len() {
        assert(delim_at(a, e));
        lemma_pieces_join_from(a, b, e + 4);
    } else {
        assert(t =~= p + b);
        lemma_pieces_shift(p, b, 0);
        assert(pieces_from(a, e + 4) == Ok::<_, ()>(Seq::<(Seq<char>, Seq<char>)>::empty()));
    }
    let rest_t = pieces_from(t, e + 4);
    let rest_a = pieces_from(a, e + 4);
    let rb = pieces_from(b, 0);
    match (piece_spans(a.subrange(i, e)), rest_a, rb) {
        (Ok(Some((x0, x1, y0, y1))), Ok(ra), Ok(bb)) => {
            let q = a.subrange(i, e);
            let rec = (q.subrange(x0, x1), q.subrange(y0, y1));
            assert(seq![rec] + (ra + bb) =~= (seq![rec] + ra) + bb);
        },
        (Ok(None), Ok(ra), Ok(bb)) => {},
        _ => {},
    }
}

/// Joining two record-list bodies with the delimiter joins their records: the
/// pieces are read in order, a piece that is not a record takes nothing away
/// from the others, and a malformed record makes the whole list malformed.
pub proof fn lemma_record_list_join(a: Seq<char>, b: Seq<char>)
    ensures
        pieces_from(a + delimiter() + b, 0) == join_results(pieces_from(a, 0), pieces_from(b, 0)),
{
    lemma_pieces_join_from(a, b, 0);
}

} // verus!
