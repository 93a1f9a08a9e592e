//! Entry snapshots and the difference between two of them, walked down
//! through nested objects.
use vstd::prelude::*;

use crate::value::{json_eq, Json, JsonValue};

verus! {

/// The observable attributes of one entry at one moment: named fields,
/// each name once, in it and in every object nested in it.
#[derive(Debug)]
pub struct Snapshot {
    pub fields: Vec<(String, JsonValue)>,
}

/// How one field changed.
#[derive(Debug)]
pub enum FieldDelta {
    /// The value before (none where it was absent) and after (none where it
    /// is gone).
    Leaf { old: Option<JsonValue>, new: Option<JsonValue> },
    /// The field holds an object on both sides: the changes inside it.
    Nested(Delta),
}

/// The change of one named field.
#[derive(Debug)]
pub struct FieldChange {
    pub key: String,
    pub change: FieldDelta,
}

/// The fields that differ between two objects, each name once.
#[derive(Debug)]
pub struct Delta {
    pub entries: Vec<FieldChange>,
}

/// The model of one field's change.
pub enum Change {
    Leaf(Option<Json>, Option<Json>),
    Nested(Map<Seq<char>, Change>),
}

pub open spec fn opt_view(o: Option<JsonValue>) -> Option<Json> {
    match o {
        Some(v) => Some(v@),
        None => None,
    }
}

/// The members of an object, as their model.
pub open spec fn members_view(v: Vec<(String, JsonValue)>) -> Seq<(Seq<char>, Json)> {
    JsonValue::Object(v)@->Object_0
}

pub open spec fn has_member(x: Seq<(Seq<char>, Json)>, k: Seq<char>) -> bool {
    exists|i: int| 0 <= i < x.len() && x[i].0 == k
}

/// Where member `k` stands in `x`, or -1 where it is absent.
pub open spec fn find(x: Seq<(Seq<char>, Json)>, k: Seq<char>) -> int {
    if has_member(x, k) {
        choose|i: int| 0 <= i < x.len() && x[i].0 == k
    } else {
        -1
    }
}

pub open spec fn keys_distinct(x: Seq<(Seq<char>, Json)>) -> bool {
    forall|i: int, j: int| 0 <= i < x.len() && 0 <= j < x.len() && i != j ==> x[i].0 != x[j].0
}

/// Member names are distinct in `x` and in every object a member holds,
/// at every depth.
pub open spec fn members_wf(x: Seq<(Seq<char>, Json)>) -> bool
    decreases x,
{
    &&& keys_distinct(x)
    &&& forall|i: int|
        0 <= i < x.len() ==> match #[trigger] x[i].1 {
            Json::Object(inner) => members_wf(inner),
            _ => true,
        }
}

/// The change of member `k` from `x` to `y`, if it changed: where it holds
/// an object on both sides, the changes inside (if any); else its value on
/// each side, if they differ.
pub open spec fn entry_change(x: Seq<(Seq<char>, Json)>, y: Seq<(Seq<char>, Json)>, k: Seq<char>) -> Option<
    Change,
>
    decreases x, 0int,
{
    let i = find(x, k);
    let j = find(y, k);
    if 0 <= i < x.len() && 0 <= j < y.len() {
        if x[i].1 is Object && y[j].1 is Object {
            let d = delta_of(x[i].1->Object_0, y[j].1->Object_0);
            if d == Map::<Seq<char>, Change>::empty() {
                None
            } else {
                Some(Change::Nested(d))
            }
        } else if x[i].1 == y[j].1 {
            None
        } else {
            Some(Change::Leaf(Some(x[i].1), Some(y[j].1)))
        }
    } else if 0 <= i < x.len() {
        Some(Change::Leaf(Some(x[i].1), None))
    } else if 0 <= j < y.len() {
        Some(Change::Leaf(None, Some(y[j].1)))
    } else {
        None
    }
}

/// The model of the difference between two objects' members: each name
/// whose member changed, with its change.
pub open spec fn delta_of(x: Seq<(Seq<char>, Json)>, y: Seq<(Seq<char>, Json)>) -> Map<Seq<char>, Change>
    decreases x, 1int,
{
    Map::new(|k: Seq<char>| entry_change(x, y, k) is Some, |k: Seq<char>| entry_change(x, y, k)->Some_0)
}

pub open spec fn delta_has_key(d: Delta, k: Seq<char>) -> bool {
    exists|i: int| 0 <= i < d.entries@.len() && d.entries@[i].key@ == k
}

pub open spec fn delta_view(d: Delta) -> Map<Seq<char>, Change>
    decreases d, 1int,
{
    Map::new(
        |k: Seq<char>| delta_has_key(d, k),
        |k: Seq<char>|
            {
                let i = choose|i: int| 0 <= i < d.entries@.len() && d.entries@[i].key@ == k;
                if 0 <= i < d.entries@.len() {
                    change_view(d.entries@[i].change)
                } else {
                    Change::Leaf(None, None)
                }
            },
    )
}

pub open spec fn change_view(c: FieldDelta) -> Change
    decreases c, 0int,
{
    match c {
        FieldDelta::Leaf { old, new } => Change::Leaf(opt_view(old), opt_view(new)),
        FieldDelta::Nested(d) => Change::Nested(delta_view(d)),
    }
}

/// Each name once in the delta, and in every nested delta.
pub open spec fn delta_wf(d: Delta) -> bool
    decreases d,
{
    &&& forall|i: int, j: int|
        0 <= i < d.entries@.len() && 0 <= j < d.entries@.len() && i != j ==> d.entries@[i].key@
            != d.entries@[j].key@
    &&& forall|i: int|
        0 <= i < d.entries@.len() ==> match #[trigger] d.entries@[i].change {
            FieldDelta::Nested(inner) => delta_wf(inner),
            _ => true,
        }
}

impl View for Snapshot {
    type V = Seq<(Seq<char>, Json)>;

    open spec fn view(&self) -> Seq<(Seq<char>, Json)> {
        members_view(self.fields)
    }
}

impl Snapshot {
    pub open spec fn wf(&self) -> bool {
        members_wf(self@)
    }
}

impl View for Delta {
    type V = Map<Seq<char>, Change>;

    open spec fn view(&self) -> Map<Seq<char>, Change> {
        delta_view(*self)
    }
}

impl Delta {
    pub open spec fn wf(&self) -> bool {
        delta_wf(*self)
    }
}

proof fn lemma_member(v: Vec<(String, JsonValue)>, i: int)
    requires
        0 <= i < v@.len(),
    ensures
        members_view(v).len() == v@.len(),
        members_view(v)[i] == (v@[i].0@, v@[i].1@),
{
}

proof fn lemma_find(x: Seq<(Seq<char>, Json)>, i: int)
    requires
        keys_distinct(x),
        0 <= i < x.len(),
    ensures
        find(x, x[i].0) == i,
{
    assert(has_member(x, x[i].0));
}

/// Where member `k` stands in `fields`, if anywhere.
fn find_field(fields: &Vec<(String, JsonValue)>, k: &String) -> (r: Option<usize>)
    ensures
        match r {
            Some(i) => i < fields@.len() && fields@[i as int].0@ == k@,
            None => forall|i: int| 0 <= i < fields@.len() ==> fields@[i].0@ != k@,
        },
{
    let mut i: usize = 0;
    while i < fields.len()
        invariant
            i <= fields@.len(),
            forall|j: int| 0 <= j < i ==> fields@[j].0@ != k@,
        decreases fields@.len() - i,
    {
        if fields[i].0 == *k {
            return Some(i);
        }
        i = i + 1;
    }
    None
}

/// `c` is the change of its member from `x` to `y`.
pub open spec fn change_ok(c: FieldChange, x: Seq<(Seq<char>, Json)>, y: Seq<(Seq<char>, Json)>) -> bool {
    &&& entry_change(x, y, c.key@) == Some(change_view(c.change))
    &&& match c.change {
        FieldDelta::Nested(inner) => delta_wf(inner),
        _ => true,
    }
}

pub open spec fn entries_has_key(entries: Seq<FieldChange>, k: Seq<char>) -> bool {
    exists|m: int| 0 <= m < entries.len() && entries[m].key@ == k
}

/// The change of the member `v` of `x` at `i` to the member `w` of `y`
/// at `at`, both under the name `k`.
fn member_change(
    x: &Vec<(String, JsonValue)>,
    y: &Vec<(String, JsonValue)>,
    i: usize,
    at: usize,
) -> (r: Option<FieldDelta>)
    requires
        members_wf(members_view(*x)),
        members_wf(members_view(*y)),
        i < x@.len(),
        at < y@.len(),
        x@[i as int].0@ == y@[at as int].0@,
    ensures
        entry_change(members_view(*x), members_view(*y), x@[i as int].0@) == match r {
            Some(c) => Some(change_view(c)),
            None => None::<Change>,
        },
        r matches Some(FieldDelta::Nested(inner)) ==> delta_wf(inner),
    decreases x, 0int,
{
    let ghost xs = members_view(*x);
    let ghost ys = members_view(*y);
    proof {
        lemma_member(*x, i as int);
        lemma_member(*y, at as int);
        lemma_find(xs, i as int);
        lemma_find(ys, at as int);
    }
    let v = &x[i].1;
    let w = &y[at].1;
    match (v, w) {
        (JsonValue::Object(ix), JsonValue::Object(iy)) => {
            assert(xs[i as int].1 == Json::Object(members_view(*ix)));
            assert(ys[at as int].1 == Json::Object(members_view(*iy)));
            assert(decreases_to!(*x => x@[i as int]));
            let d = diff_members(ix, iy);
            if d.is_empty() {
                None
            } else {
                Some(FieldDelta::Nested(d))
            }
        },
        _ => {
            if json_eq(v, w) {
                None
            } else {
                Some(FieldDelta::Leaf { old: Some(v.deep_copy()), new: Some(w.deep_copy()) })
            }
        },
    }
}

/// The changes from the members `x` to the members `y`: first those of
/// names in `x`, in its order, then those only `y` has, in its order.
fn diff_members(x: &Vec<(String, JsonValue)>, y: &Vec<(String, JsonValue)>) -> (r: Delta)
    requires
        members_wf(members_view(*x)),
        members_wf(members_view(*y)),
    ensures
        r.wf(),
        r@ == delta_of(members_view(*x), members_view(*y)),
    decreases x, 1int,
{
    let ghost xs = members_view(*x);
    let ghost ys = members_view(*y);
    let mut out: Vec<FieldChange> = Vec::new();
    let mut i: usize = 0;
    while i < x.len()
        invariant
            i <= x@.len(),
            xs == members_view(*x),
            ys == members_view(*y),
            members_wf(xs),
            members_wf(ys),
            forall|m: int| 0 <= m < out@.len() ==> change_ok(#[trigger] out@[m], xs, ys),
            forall|m1: int, m2: int|
                0 <= m1 < out@.len() && 0 <= m2 < out@.len() && m1 != m2 ==> out@[m1].key@
                    != out@[m2].key@,
            forall|m: int|
                0 <= m < out@.len() ==> exists|t: int|
                    0 <= t < i && xs[t].0 == (#[trigger] out@[m]).key@,
            forall|t: int|
                0 <= t < i && (entry_change(xs, ys, #[trigger] xs[t].0) is Some) ==> entries_has_key(out@, xs[t].0),
        decreases x@.len() - i,
    {
        proof {
            lemma_member(*x, i as int);
            lemma_find(xs, i as int);
        }
        let k = &x[i].0;
        let change = match find_field(y, k) {
            None => {
                assert(!has_member(ys, k@)) by {
                    if has_member(ys, k@) {
                        let j = choose|j: int| 0 <= j < ys.len() && ys[j].0 == k@;
                        lemma_member(*y, j);
                    }
                }
                Some(FieldDelta::Leaf { old: Some(x[i].1.deep_copy()), new: None })
            },
            Some(at) => member_change(x, y, i, at),
        };
        match change {
            Some(c) => {
                let e = FieldChange { key: k.clone(), change: c };
                proof {
                    assert forall|m: int| 0 <= m < out@.len() implies out@[m].key@ != k@ by {
                        let t = choose|t: int| 0 <= t < i && xs[t].0 == (#[trigger] out@[m]).key@;
                        assert(t != i);
                    }
                }
                let ghost before = out@;
                out.push(e);
                proof {
                    assert(out@[out@.len() - 1].key@ == xs[i as int].0);
                    assert(entries_has_key(out@, xs[i as int].0));
                    assert forall|t: int|
                        0 <= t < i + 1 && (entry_change(xs, ys, #[trigger] xs[t].0) is Some)
                            implies entries_has_key(out@, xs[t].0) by {
                        if t < i {
                            assert(entries_has_key(before, xs[t].0));
                            let m = choose|m: int| 0 <= m < before.len() && before[m].key@ == xs[t].0;
                            assert(out@[m].key@ == xs[t].0);
                        }
                    }
                    assert forall|m: int| 0 <= m < out@.len() implies exists|t: int|
                        0 <= t < i + 1 && xs[t].0 == (#[trigger] out@[m]).key@ by {
                        if m < out@.len() - 1 {
                            let t = choose|t: int| 0 <= t < i && xs[t].0 == before[m].key@;
                            assert(xs[t].0 == out@[m].key@);
                        } else {
                            assert(xs[i as int].0 == out@[m].key@);
                        }
                    }
                }
            },
            None => {},
        }
        i = i + 1;
    }
    let mut j: usize = 0;
    while j < y.len()
        invariant
            j <= y@.len(),
            xs == members_view(*x),
            ys == members_view(*y),
            members_wf(xs),
            members_wf(ys),
            forall|m: int| 0 <= m < out@.len() ==> change_ok(#[trigger] out@[m], xs, ys),
            forall|m1: int, m2: int|
                0 <= m1 < out@.len() && 0 <= m2 < out@.len() && m1 != m2 ==> out@[m1].key@
                    != out@[m2].key@,
            forall|m: int|
                0 <= m < out@.len() ==> has_member(xs, (#[trigger] out@[m]).key@) || exists|t: int|
                    0 <= t < j && ys[t].0 == out@[m].key@,
            forall|t: int|
                0 <= t < xs.len() && (entry_change(xs, ys, #[trigger] xs[t].0) is Some) ==> entries_has_key(out@, xs[t].0),
            forall|t: int|
                0 <= t < j && (entry_change(xs, ys, #[trigger] ys[t].0) is Some) ==> entries_has_key(out@, ys[t].0),
        decreases y@.len() - j,
    {
        proof {
            lemma_member(*y, j as int);
            lemma_find(ys, j as int);
        }
        let k = &y[j].0;
        match find_field(x, k) {
            Some(at) => {
                proof {
                    lemma_member(*x, at as int);
                    lemma_find(xs, at as int);
                    assert(has_member(xs, k@));
                }
            },
            None => {
                assert(!has_member(xs, k@)) by {
                    if has_member(xs, k@) {
                        let t = choose|t: int| 0 <= t < xs.len() && xs[t].0 == k@;
                        lemma_member(*x, t);
                    }
                }
                let e = FieldChange { key: k.clone(), change: FieldDelta::Leaf { old: None, new: Some(y[j].1.deep_copy()) } };
                proof {
                    assert forall|m: int| 0 <= m < out@.len() implies out@[m].key@ != k@ by {
                        if !has_member(xs, out@[m].key@) {
                            let t = choose|t: int| 0 <= t < j && ys[t].0 == out@[m].key@;
                            assert(t != j);
                        }
                    }
                }
                let ghost before = out@;
                out.push(e);
                proof {
                    assert(out@[out@.len() - 1].key@ == k@);
                    assert(entries_has_key(out@, k@));
                    assert forall|t: int|
                        0 <= t < xs.len() && (entry_change(xs, ys, #[trigger] xs[t].0) is Some)
                            implies entries_has_key(out@, xs[t].0) by {
                        assert(entries_has_key(before, xs[t].0));
                        let m = choose|m: int| 0 <= m < before.len() && before[m].key@ == xs[t].0;
                        assert(out@[m].key@ == xs[t].0);
                    }
                    assert forall|t: int|
                        0 <= t < j + 1 && (entry_change(xs, ys, #[trigger] ys[t].0) is Some)
                            implies entries_has_key(out@, ys[t].0) by {
                        if t < j {
                            assert(entries_has_key(before, ys[t].0));
                            let m = choose|m: int| 0 <= m < before.len() && before[m].key@ == ys[t].0;
                            assert(out@[m].key@ == ys[t].0);
                        }
                    }
                    assert forall|m: int| 0 <= m < out@.len() implies has_member(xs, (#[trigger] out@[m]).key@) || exists|t: int|
                        0 <= t < j + 1 && ys[t].0 == out@[m].key@ by {
                        if m < out@.len() - 1 {
                            if !has_member(xs, before[m].key@) {
                                let t = choose|t: int| 0 <= t < j && ys[t].0 == before[m].key@;
                                assert(ys[t].0 == out@[m].key@);
                            }
                        } else {
                            assert(ys[j as int].0 == out@[m].key@);
                        }
                    }
                }
            },
        }
        j = j + 1;
    }
    let r = Delta { entries: out };
    proof {
        assert forall|k: Seq<char>| #[trigger] r@.contains_key(k) == delta_of(xs, ys).contains_key(k) by {
            if delta_has_key(r, k) {
                let m = choose|m: int| 0 <= m < out@.len() && out@[m].key@ == k;
                assert(change_ok(out@[m], xs, ys));
            }
            if entry_change(xs, ys, k) is Some {
                if has_member(xs, k) {
                    let t = choose|t: int| 0 <= t < xs.len() && xs[t].0 == k;
                    assert(entries_has_key(out@, xs[t].0));
                } else {
                    assert(has_member(ys, k));
                    let t = choose|t: int| 0 <= t < ys.len() && ys[t].0 == k;
                    assert(entries_has_key(out@, ys[t].0));
                }
            }
        }
        assert forall|k: Seq<char>| #[trigger] r@.contains_key(k) implies r@[k] == delta_of(xs, ys)[k] by {
            let m = choose|m: int| 0 <= m < out@.len() && out@[m].key@ == k;
            assert(change_ok(out@[m], xs, ys));
        }
        assert(r@ =~= delta_of(xs, ys));
    }
    r
}

/// The changes from `prev` to `cur`, walked down through every field that
/// holds an object on both sides.
pub fn diff(prev: &Snapshot, cur: &Snapshot) -> (r: Delta)
    requires
        prev.wf(),
        cur.wf(),
    ensures
        r.wf(),
        r@ == delta_of(prev@, cur@),
{
    diff_members(&prev.fields, &cur.fields)
}

impl Delta {
    /// Whether no field changed.
    pub fn is_empty(&self) -> (r: bool)
        ensures
            r == (self@ == Map::<Seq<char>, Change>::empty()),
    {
        if self.entries.len() == 0 {
            assert(self@ =~= Map::<Seq<char>, Change>::empty());
            true
        } else {
            assert(delta_has_key(*self, self.entries@[0].key@));
            assert(self@.contains_key(self.entries@[0].key@));
            false
        }
    }

    /// The number of changed fields at the top level.
    pub fn len(&self) -> (r: usize)
        ensures
            r == self.entries@.len(),
    {
        self.entries.len()
    }
}

/// The member name under which a change shows the value before.
pub open spec fn old_name() -> Seq<char> {
    seq!['o', 'l', 'd']
}

/// The member name under which a change shows the value after.
pub open spec fn new_name() -> Seq<char> {
    seq!['n', 'e', 'w']
}

/// One field's change as a document: `{"old": .., "new": ..}`, each member
/// present where its side is.
pub open spec fn change_json(old: Option<Json>, new: Option<Json>) -> Json {
    let o: Seq<(Seq<char>, Json)> = match old {
        Some(v) => seq![(old_name(), v)],
        None => Seq::empty(),
    };
    let n: Seq<(Seq<char>, Json)> = match new {
        Some(v) => seq![(new_name(), v)],
        None => Seq::empty(),
    };
    Json::Object(o + n)
}

/// A delta as a document: an object with a member for each changed field,
/// in order; a changed value shows as [`change_json`], the changes inside
/// an object as a nested document of the same kind.
pub open spec fn delta_json(d: Delta) -> Json
    decreases d,
{
    Json::Object(
        Seq::new(
            d.entries@.len(),
            |i: int|
                if 0 <= i < d.entries@.len() {
                    (
                        d.entries@[i].key@,
                        match d.entries@[i].change {
                            FieldDelta::Leaf { old, new } => change_json(opt_view(old), opt_view(new)),
                            FieldDelta::Nested(inner) => delta_json(inner),
                        },
                    )
                } else {
                    (Seq::empty(), Json::Null)
                },
        ),
    )
}

fn old_key() -> (r: String)
    ensures
        r@ == old_name(),
{
    proof {
        reveal_strlit("old");
    }
    let r = "old".to_owned();
    assert(r@ =~= old_name());
    r
}

fn new_key() -> (r: String)
    ensures
        r@ == new_name(),
{
    proof {
        reveal_strlit("new");
    }
    let r = "new".to_owned();
    assert(r@ =~= new_name());
    r
}

fn render(d: &Delta) -> (r: JsonValue)
    ensures
        r@ == delta_json(*d),
    decreases d,
{
    let mut out: Vec<(String, JsonValue)> = Vec::new();
    let mut i: usize = 0;
    while i < d.entries.len()
        invariant
            i <= d.entries@.len(),
            out@.len() == i,
            forall|j: int|
                #![trigger out@[j]]
                0 <= j < i ==> out@[j].0@ == delta_json(*d)->Object_0[j].0 && out@[j].1@ == delta_json(
                    *d,
                )->Object_0[j].1,
        decreases d.entries@.len() - i,
    {
        let e = &d.entries[i];
        let item = match &e.change {
            FieldDelta::Leaf { old, new } => {
                let mut pair: Vec<(String, JsonValue)> = Vec::new();
                match old {
                    Some(v) => pair.push((old_key(), v.deep_copy())),
                    None => {},
                }
                match new {
                    Some(v) => pair.push((new_key(), v.deep_copy())),
                    None => {},
                }
                let item = JsonValue::Object(pair);
                assert(item@->Object_0 =~= change_json(opt_view(*old), opt_view(*new))->Object_0);
                item
            },
            FieldDelta::Nested(inner) => {
                assert(decreases_to!(*d => d.entries@[i as int]));
                render(inner)
            },
        };
        out.push((e.key.clone(), item));
        i = i + 1;
    }
    let r = JsonValue::Object(out);
    assert(r@->Object_0 =~= delta_json(*d)->Object_0);
    r
}

impl Delta {
    /// The delta as a document, nested as the snapshots are.
    pub fn to_value(&self) -> (r: JsonValue)
        ensures
            r@ == delta_json(*self),
    {
        render(self)
    }
}

/// Whether member names are distinct in `v` and in every object nested in it.
fn members_ok(v: &Vec<(String, JsonValue)>) -> (r: bool)
    ensures
        r == members_wf(members_view(*v)),
    decreases v,
{
    let ghost xs = members_view(*v);
    let mut i: usize = 0;
    while i < v.len()
        invariant
            i <= v@.len(),
            xs == members_view(*v),
            forall|p: int, q: int| 0 <= p < i && 0 <= q < xs.len() && p != q ==> xs[p].0 != xs[q].0,
            forall|p: int|
                0 <= p < i ==> match #[trigger] xs[p].1 {
                    Json::Object(inner) => members_wf(inner),
                    _ => true,
                },
        decreases v@.len() - i,
    {
        proof {
            lemma_member(*v, i as int);
        }
        let mut j: usize = 0;
        while j < v.len()
            invariant
                i < v@.len(),
                j <= v@.len(),
                xs == members_view(*v),
                forall|q: int| 0 <= q < j && q != i ==> xs[i as int].0 != xs[q].0,
            decreases v@.len() - j,
        {
            proof {
                lemma_member(*v, j as int);
            }
            if j != i && v[i].0 == v[j].0 {
                proof {
                    lemma_member(*v, i as int);
                }
                assert(!keys_distinct(xs));
                return false;
            }
            j = j + 1;
        }
        match &v[i].1 {
            JsonValue::Object(inner) => {
                assert(xs[i as int].1 == Json::Object(members_view(*inner)));
                assert(decreases_to!(*v => v@[i as int]));
                if !members_ok(inner) {
                    assert(!members_wf(xs));
                    return false;
                }
            },
            _ => {},
        }
        i = i + 1;
    }
    true
}

impl Snapshot {
    /// A snapshot of the given fields, or none where a name occurs twice in
    /// it or in an object nested in it.
    pub fn from_fields(fields: Vec<(String, JsonValue)>) -> (r: Option<Snapshot>)
        ensures
            match r {
                Some(s) => s.fields@ == fields@ && s.wf(),
                None => !members_wf(members_view(fields)),
            },
    {
        if members_ok(&fields) {
            Some(Snapshot { fields })
        } else {
            None
        }
    }

    /// The snapshot as a document: an object with its fields in order.
    pub fn to_value(&self) -> (r: JsonValue)
        ensures
            r@ == JsonValue::Object(self.fields)@,
    {
        let mut out: Vec<(String, JsonValue)> = Vec::new();
        let mut i: usize = 0;
        while i < self.fields.len()
            invariant
                i <= self.fields@.len(),
                out@.len() == i,
                forall|j: int|
                    #![trigger out@[j]]
                    0 <= j < i ==> out@[j].0@ == self.fields@[j].0@ && out@[j].1@ == self.fields@[j].1@,
            decreases self.fields@.len() - i,
        {
            out.push((self.fields[i].0.clone(), self.fields[i].1.deep_copy()));
            i = i + 1;
        }
        let r = JsonValue::Object(out);
        assert(r@->Object_0 =~= JsonValue::Object(self.fields)@->Object_0);
        r
    }
}

/// Two identical objects differ in no field, at any depth.
pub proof fn lemma_diff_identical(x: Seq<(Seq<char>, Json)>)
    ensures
        delta_of(x, x) == Map::<Seq<char>, Change>::empty(),
    decreases x,
{
    assert forall|k: Seq<char>| !(#[trigger] entry_change(x, x, k) is Some) by {
        let i = find(x, k);
        if 0 <= i < x.len() {
            if x[i].1 is Object {
                assert(decreases_to!(x => x[i]));
                lemma_diff_identical(x[i].1->Object_0);
            }
        }
    }
    lemma_delta_of_unfold(x, x);
    assert(delta_of(x, x) =~= Map::<Seq<char>, Change>::empty());
}

proof fn lemma_delta_of_unfold(x: Seq<(Seq<char>, Json)>, y: Seq<(Seq<char>, Json)>)
    ensures
        forall|k: Seq<char>| #[trigger] delta_of(x, y).contains_key(k) == (entry_change(x, y, k) is Some),
        forall|k: Seq<char>|
            delta_of(x, y).contains_key(k) ==> #[trigger] delta_of(x, y)[k] == entry_change(x, y, k)->Some_0,
{
    reveal_with_fuel(delta_of, 1);
}

/// `c` and `e` are the same change seen from the other side: old and new
/// swapped at every changed value, at every depth.
pub open spec fn mirrored(c: Change, e: Change) -> bool
    decreases c,
{
    match (c, e) {
        (Change::Leaf(o, n), Change::Leaf(o2, n2)) => o == n2 && n == o2,
        (Change::Nested(m1), Change::Nested(m2)) => m1.dom() == m2.dom() && forall|k: Seq<char>|
            #[trigger] m1.contains_key(k) ==> mirrored(m1[k], m2[k]),
        _ => false,
    }
}

/// Diffing the other way round names the same fields, at every depth, with
/// the old and the new value swapped at each.
pub proof fn lemma_diff_symmetric(x: Seq<(Seq<char>, Json)>, y: Seq<(Seq<char>, Json)>)
    ensures
        delta_of(y, x).dom() == delta_of(x, y).dom(),
        forall|k: Seq<char>| #[trigger]
            delta_of(x, y).contains_key(k) ==> mirrored(delta_of(x, y)[k], delta_of(y, x)[k]),
    decreases x,
{
    assert forall|k: Seq<char>|
        (#[trigger] entry_change(x, y, k) is Some) == (entry_change(y, x, k) is Some) && (entry_change(
            x,
            y,
            k,
        ) is Some ==> mirrored(entry_change(x, y, k)->Some_0, entry_change(y, x, k)->Some_0)) by {
        let i = find(x, k);
        let j = find(y, k);
        if 0 <= i < x.len() && 0 <= j < y.len() && x[i].1 is Object && y[j].1 is Object {
            let ix = x[i].1->Object_0;
            let iy = y[j].1->Object_0;
            assert(decreases_to!(x => x[i]));
            lemma_diff_symmetric(ix, iy);
            if delta_of(ix, iy) == Map::<Seq<char>, Change>::empty() {
                assert(delta_of(iy, ix) =~= Map::<Seq<char>, Change>::empty());
            } else if delta_of(iy, ix) == Map::<Seq<char>, Change>::empty() {
                assert(delta_of(ix, iy) =~= Map::<Seq<char>, Change>::empty());
            }
        }
    }
    lemma_delta_of_unfold(x, y);
    lemma_delta_of_unfold(y, x);
    assert(delta_of(y, x).dom() =~= delta_of(x, y).dom());
}

} // verus!
