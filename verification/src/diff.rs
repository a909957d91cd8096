//! Structural, path-addressed diff between two tree values: every position
//! reached in either tree yields one change entry, whose path is the
//! dot-joined run of keys and indices from the root.
use vstd::prelude::*;
use vstd::string::StringExecFns;

use crate::strutil::{push_char, spec_contains, spec_digits, str_contains, str_eq, usize_string};
use crate::value::{obj_find, obj_get, render, render_value, veq, wf, wf_arr, wf_obj, Value};

verus! {

/// The mathematical shape of one change entry.
pub enum ChangeS {
    Added(Seq<char>, Seq<char>),
    Removed(Seq<char>, Seq<char>),
    Unchanged(Seq<char>, Seq<char>),
    Modified(Seq<char>, Seq<char>, Seq<char>),
}

/// One field-level change: a path through the record and the rendered
/// value(s) at that path.
#[derive(Debug, Clone, PartialEq)]
pub enum Change {
    Added(String, String),
    Removed(String, String),
    Unchanged(String, String),
    Modified(String, String, String),
}

pub open spec fn change_view(c: Change) -> ChangeS {
    match c {
        Change::Added(k, v) => ChangeS::Added(k@, v@),
        Change::Removed(k, v) => ChangeS::Removed(k@, v@),
        Change::Unchanged(k, v) => ChangeS::Unchanged(k@, v@),
        Change::Modified(k, o, n) => ChangeS::Modified(k@, o@, n@),
    }
}

pub open spec fn changes_view(s: Seq<Change>) -> Seq<ChangeS> {
    s.map_values(|c: Change| change_view(c))
}

pub proof fn lemma_changes_view_concat(x: Seq<Change>, y: Seq<Change>)
    ensures
        changes_view(x + y) == changes_view(x) + changes_view(y),
{
    assert(changes_view(x + y) =~= changes_view(x) + changes_view(y));
}

/// The path of a child position: the parent path, a dot, then the key.
pub open spec fn child(path: Seq<char>, k: Seq<char>) -> Seq<char> {
    if path.len() == 0 {
        k
    } else {
        path + seq!['.'] + k
    }
}

pub fn child_path(path: &String, k: &String) -> (r: String)
    ensures
        r@ == child(path@, k@),
{
    if path.as_str().unicode_len() == 0 {
        let r = k.clone();
        proof {
            assert(r@ =~= child(path@, k@));
        }
        r
    } else {
        let mut r = path.clone();
        push_char(&mut r, '.');
        r.append(k.as_str());
        proof {
            assert(r@ =~= child(path@, k@));
        }
        r
    }
}

/// Entries for keys of `af` that `bf` lacks: each is an addition.
pub open spec fn diff_obj_added(
    path: Seq<char>,
    bf: Vec<(String, Value)>,
    af: Vec<(String, Value)>,
    j: int,
) -> Seq<ChangeS>
    decreases af@.len() - j,
{
    if j < 0 || j >= af@.len() {
        Seq::empty()
    } else {
        (if obj_get(bf@, af@[j].0@) is None {
            seq![ChangeS::Added(child(path, af@[j].0@), render(af@[j].1))]
        } else {
            Seq::empty()
        }) + diff_obj_added(path, bf, af, j + 1)
    }
}

/// Entries for the keys of `bf`, in order: recurse where `af` has the key,
/// otherwise report a removal.
pub open spec fn diff_obj_base(
    path: Seq<char>,
    bf: Vec<(String, Value)>,
    af: Vec<(String, Value)>,
    i: int,
) -> Seq<ChangeS>
    decreases bf, bf@.len() - i, 1int,
{
    if i < 0 || i >= bf@.len() {
        Seq::empty()
    } else {
        (match obj_get(af@, bf@[i].0@) {
            Option::Some(av) => diff_value(child(path, bf@[i].0@), bf@[i].1, av),
            Option::None => seq![
                ChangeS::Removed(child(path, bf@[i].0@), render(bf@[i].1)),
            ],
        }) + diff_obj_base(path, bf, af, i + 1)
    }
}

/// Entries for two arrays, position by position; extra positions on either
/// side are removals or additions.
pub open spec fn diff_arr(path: Seq<char>, bx: Vec<Value>, ax: Vec<Value>, i: int) -> Seq<ChangeS>
    decreases bx, bx@.len() + ax@.len() - i, 1int,
{
    if i < 0 || (i >= bx@.len() && i >= ax@.len()) {
        Seq::empty()
    } else {
        (if i < bx@.len() && i < ax@.len() {
            diff_value(child(path, spec_digits(i as nat)), bx@[i], ax@[i])
        } else if i < bx@.len() {
            seq![ChangeS::Removed(child(path, spec_digits(i as nat)), render(bx@[i]))]
        } else {
            seq![ChangeS::Added(child(path, spec_digits(i as nat)), render(ax@[i]))]
        }) + diff_arr(path, bx, ax, i + 1)
    }
}

/// The change entries for position `path`, holding `b` before and `a` after.
/// Two objects or two arrays are compared child by child; at any other
/// position an equal value is unchanged, a value replacing the null
/// placeholder is an addition, and any other difference is a modification.
pub open spec fn diff_value(path: Seq<char>, b: Value, a: Value) -> Seq<ChangeS>
    decreases b, 0int, 0int,
{
    match (b, a) {
        (Value::Object(bf), Value::Object(af)) => diff_obj_base(path, bf, af, 0) + diff_obj_added(
            path,
            bf,
            af,
            0,
        ),
        (Value::Array(bx), Value::Array(ax)) => diff_arr(path, bx, ax, 0),
        _ => if veq(b, a) {
            seq![ChangeS::Unchanged(path, render(b))]
        } else if b is Null {
            seq![ChangeS::Added(path, render(a))]
        } else {
            seq![ChangeS::Modified(path, render(b), render(a))]
        },
    }
}

/// The full diff of two records, with paths rooted at the empty path.
pub open spec fn diff_spec(b: Value, a: Value) -> Seq<ChangeS> {
    diff_value(Seq::empty(), b, a)
}

/// Reclassify every modification as an addition, for diffs whose "before"
/// side is a zero-value placeholder rather than a real prior record.
pub open spec fn as_create(s: Seq<ChangeS>) -> Seq<ChangeS> {
    s.map_values(
        |c: ChangeS|
            match c {
                ChangeS::Modified(k, _o, n) => ChangeS::Added(k, n),
                _ => c,
            },
    )
}

/// A diff has changes when some entry is not `Unchanged`.
pub open spec fn spec_has_changes(s: Seq<ChangeS>) -> bool {
    exists|i: int| 0 <= i < s.len() && !(#[trigger] s[i] is Unchanged)
}

fn diff_obj_added_exec(
    path: &String,
    bf: &Vec<(String, Value)>,
    af: &Vec<(String, Value)>,
    j: usize,
) -> (r: Vec<Change>)
    ensures
        changes_view(r@) == diff_obj_added(path@, *bf, *af, j as int),
    decreases af@.len() - j,
{
    if j >= af.len() {
        let r: Vec<Change> = Vec::new();
        proof {
            assert(changes_view(r@) =~= diff_obj_added(path@, *bf, *af, j as int));
        }
        r
    } else {
        let mut r: Vec<Change> = match obj_find(bf, &af[j].0) {
            Option::Some(_) => Vec::new(),
            Option::None => {
                let mut v: Vec<Change> = Vec::new();
                v.push(Change::Added(child_path(path, &af[j].0), render_value(&af[j].1)));
                v
            },
        };
        let mut rest = diff_obj_added_exec(path, bf, af, j + 1);
        proof {
            lemma_changes_view_concat(r@, rest@);
            assert(changes_view(r@) =~= (if obj_get(bf@, af@[j as int].0@) is None {
                seq![ChangeS::Added(child(path@, af@[j as int].0@), render(af@[j as int].1))]
            } else {
                Seq::<ChangeS>::empty()
            }));
        }
        r.append(&mut rest);
        r
    }
}

fn diff_obj_base_exec(
    path: &String,
    bf: &Vec<(String, Value)>,
    af: &Vec<(String, Value)>,
    i: usize,
) -> (r: Vec<Change>)
    ensures
        changes_view(r@) == diff_obj_base(path@, *bf, *af, i as int),
    decreases *bf, bf@.len() - i, 1int,
{
    if i >= bf.len() {
        let r: Vec<Change> = Vec::new();
        proof {
            assert(changes_view(r@) =~= diff_obj_base(path@, *bf, *af, i as int));
        }
        r
    } else {
        let mut r: Vec<Change> = match obj_find(af, &bf[i].0) {
            Option::Some(idx) => diff_values(&child_path(path, &bf[i].0), &bf[i].1, &af[idx].1),
            Option::None => {
                let mut v: Vec<Change> = Vec::new();
                v.push(Change::Removed(child_path(path, &bf[i].0), render_value(&bf[i].1)));
                proof {
                    assert(changes_view(v@) =~= seq![
                        ChangeS::Removed(child(path@, bf@[i as int].0@), render(bf@[i as int].1)),
                    ]);
                }
                v
            },
        };
        let mut rest = diff_obj_base_exec(path, bf, af, i + 1);
        proof {
            lemma_changes_view_concat(r@, rest@);
        }
        r.append(&mut rest);
        r
    }
}

fn diff_arr_exec(path: &String, bx: &Vec<Value>, ax: &Vec<Value>, i: usize) -> (r: Vec<Change>)
    ensures
        changes_view(r@) == diff_arr(path@, *bx, *ax, i as int),
    decreases *bx, bx@.len() + ax@.len() - i, 1int,
{
    if i >= bx.len() && i >= ax.len() {
        let r: Vec<Change> = Vec::new();
        proof {
            assert(changes_view(r@) =~= diff_arr(path@, *bx, *ax, i as int));
        }
        r
    } else {
        let idx_path = child_path(path, &usize_string(i));
        let mut r: Vec<Change> = if i < bx.len() && i < ax.len() {
            diff_values(&idx_path, &bx[i], &ax[i])
        } else if i < bx.len() {
            let mut v: Vec<Change> = Vec::new();
            v.push(Change::Removed(idx_path, render_value(&bx[i])));
            proof {
                assert(changes_view(v@) =~= seq![
                    ChangeS::Removed(child(path@, spec_digits(i as nat)), render(bx@[i as int])),
                ]);
            }
            v
        } else {
            let mut v: Vec<Change> = Vec::new();
            v.push(Change::Added(idx_path, render_value(&ax[i])));
            proof {
                assert(changes_view(v@) =~= seq![
                    ChangeS::Added(child(path@, spec_digits(i as nat)), render(ax@[i as int])),
                ]);
            }
            v
        };
        let mut rest = diff_arr_exec(path, bx, ax, i + 1);
        proof {
            lemma_changes_view_concat(r@, rest@);
        }
        r.append(&mut rest);
        r
    }
}

pub fn diff_values(path: &String, b: &Value, a: &Value) -> (r: Vec<Change>)
    ensures
        changes_view(r@) == diff_value(path@, *b, *a),
    decreases *b, 2int, 0int,
{
    match (b, a) {
        (Value::Object(bf), Value::Object(af)) => {
            let mut r = diff_obj_base_exec(path, bf, af, 0);
            let mut rest = diff_obj_added_exec(path, bf, af, 0);
            proof {
                lemma_changes_view_concat(r@, rest@);
            }
            r.append(&mut rest);
            r
        },
        (Value::Array(bx), Value::Array(ax)) => diff_arr_exec(path, bx, ax, 0),
        _ => {
            let same: bool = match (b, a) {
                (Value::Null, Value::Null) => true,
                (Value::Bool(x), Value::Bool(y)) => x == y,
                (Value::Int(x), Value::Int(y)) => x == y,
                (Value::Str(x), Value::Str(y)) => str_eq(x.as_str(), y.as_str()),
                _ => false,
            };
            proof {
                assert(same == veq(*b, *a));
            }
            let mut v: Vec<Change> = Vec::new();
            if same {
                v.push(Change::Unchanged(path.clone(), render_value(b)));
                proof {
                    assert(changes_view(v@) =~= seq![ChangeS::Unchanged(path@, render(*b))]);
                }
            } else {
                let is_null: bool = match b {
                    Value::Null => true,
                    _ => false,
                };
                if is_null {
                    v.push(Change::Added(path.clone(), render_value(a)));
                    proof {
                        assert(changes_view(v@) =~= seq![ChangeS::Added(path@, render(*a))]);
                    }
                } else {
                    v.push(
                        Change::Modified(path.clone(), render_value(b), render_value(a)),
                    );
                    proof {
                        assert(changes_view(v@) =~= seq![
                            ChangeS::Modified(path@, render(*b), render(*a)),
                        ]);
                    }
                }
            }
            v
        },
    }
}

/// A computed diff: the two compared trees and their change entries.
#[derive(Debug)]
pub struct Diff {
    pub local: Value,
    pub remote: Value,
    pub changes: Vec<Change>,
}

impl Diff {
    /// The plain structural diff of the two trees.
    pub fn from(v1: Value, v2: Value) -> (r: Diff)
        ensures
            r.local == v1,
            r.remote == v2,
            changes_view(r.changes@) == diff_spec(v1, v2),
    {
        let changes = Diff::diff(&v1, &v2);
        Diff { local: v1, remote: v2, changes }
    }

    /// The diff of the two trees with every modification reclassified as an
    /// addition: for a "before" side that is a zero-value placeholder.
    pub fn from_new(v1: Value, v2: Value) -> (r: Diff)
        ensures
            r.local == v1,
            r.remote == v2,
            changes_view(r.changes@) == as_create(diff_spec(v1, v2)),
            forall|i: int|
                0 <= i < r.changes@.len() ==> !(#[trigger] change_view(r.changes@[i]) is Modified),
    {
        let changes = Diff::new_diff(&v1, &v2);
        Diff { local: v1, remote: v2, changes }
    }

    fn diff(v1: &Value, v2: &Value) -> (r: Vec<Change>)
        ensures
            changes_view(r@) == diff_spec(*v1, *v2),
    {
        let root = String::new();
        diff_values(&root, v1, v2)
    }

    fn new_diff(v1: &Value, v2: &Value) -> (r: Vec<Change>)
        ensures
            changes_view(r@) == as_create(diff_spec(*v1, *v2)),
            forall|i: int| 0 <= i < r@.len() ==> !(#[trigger] change_view(r@[i]) is Modified),
    {
        let plain = Diff::diff(v1, v2);
        let mut out: Vec<Change> = Vec::new();
        let mut i: usize = 0;
        while i < plain.len()
            invariant
                0 <= i <= plain@.len(),
                changes_view(plain@) == diff_spec(*v1, *v2),
                out@.len() == i,
                forall|t: int|
                    0 <= t < i ==> #[trigger] change_view(out@[t]) == as_create(
                        changes_view(plain@),
                    )[t],
            decreases plain@.len() - i,
        {
            let entry = match &plain[i] {
                Change::Added(k, v) => Change::Added(k.clone(), v.clone()),
                Change::Removed(k, v) => Change::Removed(k.clone(), v.clone()),
                Change::Unchanged(k, v) => Change::Unchanged(k.clone(), v.clone()),
                Change::Modified(k, _o, n) => Change::Added(k.clone(), n.clone()),
            };
            out.push(entry);
            i += 1;
        }
        proof {
            assert(changes_view(out@) =~= as_create(diff_spec(*v1, *v2)));
        }
        out
    }

    /// True when at least one entry is not `Unchanged`.
    pub fn has_changes(&self) -> (r: bool)
        ensures
            r == spec_has_changes(changes_view(self.changes@)),
    {
        let mut i: usize = 0;
        while i < self.changes.len()
            invariant
                0 <= i <= self.changes@.len(),
                forall|t: int|
                    0 <= t < i ==> #[trigger] changes_view(self.changes@)[t] is Unchanged,
            decreases self.changes@.len() - i,
        {
            let non_trivial: bool = match &self.changes[i] {
                Change::Unchanged(_k, _v) => false,
                _ => true,
            };
            if non_trivial {
                proof {
                    assert(!(changes_view(self.changes@)[i as int] is Unchanged));
                }
                return true;
            }
            i += 1;
        }
        false
    }
}

/// Every entry a create-style diff yields is left untouched except
/// modifications, which come out as additions: none survives.
pub proof fn lemma_as_create_no_modified(s: Seq<ChangeS>)
    ensures
        forall|i: int| 0 <= i < as_create(s).len() ==> !(#[trigger] as_create(s)[i] is Modified),
{
}

proof fn lemma_diff_added_self(path: Seq<char>, f: Vec<(String, Value)>, j: int)
    ensures
        diff_obj_added(path, f, f, j).len() == 0,
    decreases f@.len() - j,
{
    if 0 <= j < f@.len() {
        assert(f@[j].0@ == f@[j].0@);
        crate::value::lemma_obj_get_exists(f@, f@[j].0@);
        lemma_diff_added_self(path, f, j + 1);
        assert(diff_obj_added(path, f, f, j) =~= diff_obj_added(path, f, f, j + 1));
    }
}

proof fn lemma_diff_self_obj(path: Seq<char>, f: Vec<(String, Value)>, i: int)
    requires
        wf_obj(f),
    ensures
        forall|t: int|
            0 <= t < diff_obj_base(path, f, f, i).len() ==> #[trigger] diff_obj_base(
                path,
                f,
                f,
                i,
            )[t] is Unchanged,
    decreases f, f@.len() - i, 1int,
{
    if 0 <= i < f@.len() {
        assert(wf_obj(f));
        crate::value::lemma_obj_get_at(f@, f@[i].0@, i);
        assert(wf(f@[i].1));
        lemma_diff_self(child(path, f@[i].0@), f@[i].1);
        lemma_diff_self_obj(path, f, i + 1);
    }
}

proof fn lemma_diff_self_arr(path: Seq<char>, x: Vec<Value>, i: int)
    requires
        wf_arr(x),
    ensures
        forall|t: int|
            0 <= t < diff_arr(path, x, x, i).len() ==> #[trigger] diff_arr(path, x, x, i)[t]
                is Unchanged,
    decreases x, x@.len() + x@.len() - i, 1int,
{
    if 0 <= i < x@.len() {
        lemma_diff_self(child(path, spec_digits(i as nat)), x@[i]);
        lemma_diff_self_arr(path, x, i + 1);
    }
}

/// Law: the diff of a well-formed record against itself holds only
/// `Unchanged` entries, one for every leaf path of the record.
pub proof fn lemma_diff_self(path: Seq<char>, v: Value)
    requires
        wf(v),
    ensures
        forall|t: int|
            0 <= t < diff_value(path, v, v).len() ==> #[trigger] diff_value(path, v, v)[t]
                is Unchanged,
    decreases v, 2int, 0int,
{
    match v {
        Value::Object(f) => {
            assert(wf_obj(f));
            lemma_diff_self_obj(path, f, 0);
            lemma_diff_added_self(path, f, 0);
            assert(diff_value(path, v, v) =~= diff_obj_base(path, f, f, 0));
        },
        Value::Array(x) => {
            assert(wf_arr(x));
            lemma_diff_self_arr(path, x, 0);
        },
        _ => {
            crate::value::lemma_veq_refl(v);
        },
    }
}

/// Law: a well-formed record diffed against itself reports no change.
pub proof fn lemma_diff_self_no_changes(v: Value)
    requires
        wf(v),
    ensures
        !spec_has_changes(diff_spec(v, v)),
{
    lemma_diff_self(Seq::empty(), v);
}

/// How a rendered line should be presented.
#[derive(Debug, Clone, Copy, PartialEq, Eq, Structural)]
pub enum LineKind {
    Plain,
    Added,
    Removed,
    Modified,
}

/// One line of human-readable plan output.
#[derive(Debug, Clone)]
pub struct RenderLine {
    pub kind: LineKind,
    pub text: String,
}

/// The mathematical shape of one rendered line.
pub struct LineS {
    pub kind: LineKind,
    pub text: Seq<char>,
}

pub open spec fn line_view(l: RenderLine) -> LineS {
    LineS { kind: l.kind, text: l.text@ }
}

pub open spec fn lines_view(s: Seq<RenderLine>) -> Seq<LineS> {
    s.map_values(|l: RenderLine| line_view(l))
}

pub proof fn lemma_lines_view_concat(x: Seq<RenderLine>, y: Seq<RenderLine>)
    ensures
        lines_view(x + y) == lines_view(x) + lines_view(y),
{
    assert(lines_view(x + y) =~= lines_view(x) + lines_view(y));
}

/// Paths suppressed from the printed change list, and from it alone: the
/// flat cron and everything under the time descriptor. The entries still
/// count toward `has_changes`.
pub open spec fn suppressed(k: Seq<char>) -> bool {
    k == "schedule.cron"@ || spec_contains(k, "schedule.time"@)
}

/// The printed form of one change entry: nothing for `Unchanged` or for any
/// entry at a suppressed path.
pub open spec fn change_line(padding: Seq<char>, c: ChangeS) -> Seq<LineS> {
    match c {
        ChangeS::Added(k, v) => if suppressed(k) {
            Seq::empty()
        } else {
            seq![LineS { kind: LineKind::Added, text: padding + "+ "@ + k + " "@ + v }]
        },
        ChangeS::Removed(k, v) => if suppressed(k) {
            Seq::empty()
        } else {
            seq![LineS { kind: LineKind::Removed, text: padding + "- "@ + k + " "@ + v }]
        },
        ChangeS::Unchanged(_k, _v) => Seq::empty(),
        ChangeS::Modified(k, o, n) => if suppressed(k) {
            Seq::empty()
        } else {
            seq![
                LineS {
                    kind: LineKind::Modified,
                    text: padding + "~ "@ + k + " "@ + o + " -> "@ + n,
                },
            ]
        },
    }
}

pub open spec fn change_lines(padding: Seq<char>, s: Seq<ChangeS>) -> Seq<LineS>
    decreases s.len(),
{
    if s.len() == 0 {
        Seq::empty()
    } else {
        change_line(padding, s[0]) + change_lines(padding, s.drop_first())
    }
}

proof fn lemma_change_lines_snoc(padding: Seq<char>, s: Seq<ChangeS>, c: ChangeS)
    ensures
        change_lines(padding, s.push(c)) == change_lines(padding, s) + change_line(padding, c),
    decreases s.len(),
{
    let t = s.push(c);
    if s.len() == 0 {
        assert(t[0] == c);
        assert(t.drop_first() =~= Seq::<ChangeS>::empty());
        assert(change_lines(padding, t) == change_line(padding, c) + change_lines(
            padding,
            Seq::<ChangeS>::empty(),
        ));
        assert(change_line(padding, c) + Seq::<LineS>::empty() =~= change_line(padding, c));
        assert(change_lines(padding, s) + change_line(padding, c) =~= change_line(padding, c));
    } else {
        assert(t[0] == s[0]);
        assert(t.drop_first() =~= s.drop_first().push(c));
        lemma_change_lines_snoc(padding, s.drop_first(), c);
        assert(change_lines(padding, t) == change_line(padding, s[0]) + (change_lines(
            padding,
            s.drop_first(),
        ) + change_line(padding, c)));
        assert(change_line(padding, s[0]) + (change_lines(padding, s.drop_first()) + change_line(
            padding,
            c,
        )) =~= (change_line(padding, s[0]) + change_lines(padding, s.drop_first())) + change_line(
            padding,
            c,
        ));
    }
}

fn suppressed_exec(k: &String) -> (r: bool)
    ensures
        r == suppressed(k@),
{
    str_eq(k.as_str(), "schedule.cron") || str_contains(k.as_str(), "schedule.time")
}

impl Diff {
    /// The printed change list: one line per visible change, each prefixed
    /// with the given padding.
    pub fn pretty_print(&self, padding: &str) -> (r: Vec<RenderLine>)
        ensures
            lines_view(r@) == change_lines(padding@, changes_view(self.changes@)),
    {
        let mut out: Vec<RenderLine> = Vec::new();
        let mut i: usize = 0;
        proof {
            assert(changes_view(self.changes@).take(0int) =~= Seq::<ChangeS>::empty());
            assert(lines_view(out@) =~= Seq::<LineS>::empty());
        }
        while i < self.changes.len()
            invariant
                0 <= i <= self.changes@.len(),
                lines_view(out@) == change_lines(
                    padding@,
                    changes_view(self.changes@).take(i as int),
                ),
            decreases self.changes@.len() - i,
        {
            let ghost cv = changes_view(self.changes@);
            let ghost prev = out@;
            match &self.changes[i] {
                Change::Added(k, v) => {
                    if !suppressed_exec(k) {
                        let mut t = padding.to_owned();
                        t.append("+ ");
                        t.append(k.as_str());
                        t.append(" ");
                        t.append(v.as_str());
                        out.push(RenderLine { kind: LineKind::Added, text: t });
                    }
                },
                Change::Removed(k, v) => {
                    if !suppressed_exec(k) {
                        let mut t = padding.to_owned();
                        t.append("- ");
                        t.append(k.as_str());
                        t.append(" ");
                        t.append(v.as_str());
                        out.push(RenderLine { kind: LineKind::Removed, text: t });
                    }
                },
                Change::Unchanged(_k, _v) => {},
                Change::Modified(k, o, n) => {
                    if !suppressed_exec(k) {
                        let mut t = padding.to_owned();
                        t.append("~ ");
                        t.append(k.as_str());
                        t.append(" ");
                        t.append(o.as_str());
                        t.append(" -> ");
                        t.append(n.as_str());
                        out.push(RenderLine { kind: LineKind::Modified, text: t });
                    }
                },
            }
            proof {
                lemma_change_lines_snoc(padding@, cv.take(i as int), cv[i as int]);
                assert(cv.take(i + 1) =~= cv.take(i as int).push(cv[i as int]));
                assert(cv[i as int] == change_view(self.changes@[i as int]));
                assert(lines_view(out@) =~= change_lines(padding@, cv.take(i + 1)));
            }
            i += 1;
        }
        proof {
            assert(changes_view(self.changes@).take(self.changes@.len() as int) =~= changes_view(
                self.changes@,
            ));
        }
        out
    }
}

/// Every position of `b` is also a position of `a`: objects keep every key
/// (recursively), arrays are at least as long. A removal can only come from
/// a position the after side lacks, so a baseline that `a` covers yields
/// none.
pub open spec fn covers(b: Value, a: Value) -> bool
    decreases b, 0int, 0int,
{
    match (b, a) {
        (Value::Object(bf), Value::Object(af)) => forall|i: int|
            0 <= i < bf@.len() ==> (obj_get(af@, (#[trigger] bf@[i]).0@) matches Option::Some(av)
                && covers(bf@[i].1, av)),
        (Value::Array(bx), Value::Array(ax)) => bx@.len() <= ax@.len() && (forall|i: int|
            0 <= i < bx@.len() ==> covers(#[trigger] bx@[i], ax@[i])),
        _ => true,
    }
}

/// No entry of the run is a removal.
pub open spec fn no_removed(s: Seq<ChangeS>) -> bool {
    forall|i: int| 0 <= i < s.len() ==> !((#[trigger] s[i]) is Removed)
}

proof fn lemma_diff_added_no_removed(
    path: Seq<char>,
    bf: Vec<(String, Value)>,
    af: Vec<(String, Value)>,
    j: int,
)
    ensures
        no_removed(diff_obj_added(path, bf, af, j)),
    decreases af@.len() - j,
{
    if 0 <= j < af@.len() {
        lemma_diff_added_no_removed(path, bf, af, j + 1);
    }
}

proof fn lemma_diff_obj_no_removed(
    path: Seq<char>,
    bf: Vec<(String, Value)>,
    af: Vec<(String, Value)>,
    i: int,
)
    requires
        covers(Value::Object(bf), Value::Object(af)),
    ensures
        no_removed(diff_obj_base(path, bf, af, i)),
    decreases bf, bf@.len() - i, 1int,
{
    if 0 <= i < bf@.len() {
        assert(obj_get(af@, bf@[i].0@) matches Option::Some(av) && covers(bf@[i].1, av));
        match obj_get(af@, bf@[i].0@) {
            Option::Some(av) => {
                lemma_diff_no_removed(child(path, bf@[i].0@), bf@[i].1, av);
            },
            Option::None => {},
        }
        lemma_diff_obj_no_removed(path, bf, af, i + 1);
    }
}

proof fn lemma_diff_arr_no_removed(path: Seq<char>, bx: Vec<Value>, ax: Vec<Value>, i: int)
    requires
        covers(Value::Array(bx), Value::Array(ax)),
    ensures
        no_removed(diff_arr(path, bx, ax, i)),
    decreases bx, bx@.len() + ax@.len() - i, 1int,
{
    if 0 <= i && (i < bx@.len() || i < ax@.len()) {
        if i < bx@.len() {
            assert(covers(bx@[i], ax@[i]));
            lemma_diff_no_removed(child(path, spec_digits(i as nat)), bx@[i], ax@[i]);
        }
        lemma_diff_arr_no_removed(path, bx, ax, i + 1);
    }
}

/// Law: against a baseline the after side covers, the diff reports no
/// removal at any position.
pub proof fn lemma_diff_no_removed(path: Seq<char>, b: Value, a: Value)
    requires
        covers(b, a),
    ensures
        no_removed(diff_value(path, b, a)),
    decreases b, 2int, 0int,
{
    match (b, a) {
        (Value::Object(bf), Value::Object(af)) => {
            lemma_diff_obj_no_removed(path, bf, af, 0);
            lemma_diff_added_no_removed(path, bf, af, 0);
        },
        (Value::Array(bx), Value::Array(ax)) => {
            lemma_diff_arr_no_removed(path, bx, ax, 0);
        },
        _ => {},
    }
}

/// Law: every entry of a create-style diff against a baseline the after
/// side covers is an addition or unchanged: no modification (reclassified)
/// and no removal (none ever arises).
pub proof fn lemma_create_diff_only_additions(b: Value, a: Value)
    requires
        covers(b, a),
    ensures
        forall|i: int|
            0 <= i < as_create(diff_spec(b, a)).len() ==> (#[trigger] as_create(
                diff_spec(b, a),
            )[i] is Added || as_create(diff_spec(b, a))[i] is Unchanged),
{
    lemma_diff_no_removed(Seq::empty(), b, a);
}

/// A value standing where the baseline holds the null placeholder is
/// reported as `Added`, never as `Modified`.
pub proof fn lemma_diff_null_collapse(path: Seq<char>, a: Value)
    requires
        !(a is Null),
    ensures
        diff_value(path, Value::Null, a) == seq![ChangeS::Added(path, render(a))],
{
}

} // verus!
