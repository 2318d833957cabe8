//! Projections of records: keeping only the named fields, or dropping them,
//! where a field may be a dotted path into nested objects and arrays.
//!
//! Values are described by what they hold (`JsonData`), so that a copy of a
//! value is the same data as the value.
use vstd::prelude::*;
use super::filter::JsonValue;
use super::path::{
    array_index, field_value, field_value_in, members_of, first_dot, lemma_first_dot_at, member_of, path_found, referenced, segments, split_path,
    PathMatch, seg_views,
};
use crate::replication::http::response::parsed_usize;
use crate::text::same_text;

verus! {

/// What a JSON value holds.
pub enum JsonData {
    Null,
    Bool(bool),
    Number(Seq<char>),
    Text(Seq<char>),
    Array(Seq<JsonData>),
    Object(Seq<(Seq<char>, JsonData)>),
}

/// What `v` holds.
pub open spec fn json_of(v: JsonValue) -> JsonData
    decreases v, 0nat,
{
    match v {
        JsonValue::Null => JsonData::Null,
        JsonValue::Bool(b) => JsonData::Bool(b),
        JsonValue::Number(n) => JsonData::Number(n@),
        JsonValue::String(s) => JsonData::Text(s@),
        JsonValue::Array(a) => JsonData::Array(items_data(a@)),
        JsonValue::Object(o) => JsonData::Object(members_data(o@)),
    }
}

/// What each of `s` holds.
pub open spec fn items_data(s: Seq<JsonValue>) -> Seq<JsonData>
    decreases s, 0nat,
{
    if s.len() == 0 {
        Seq::empty()
    } else {
        items_data(s.drop_last()).push(json_of(s.last()))
    }
}

/// The names of the members of `s` and what each holds.
pub open spec fn members_data(s: Seq<(String, JsonValue)>) -> Seq<(Seq<char>, JsonData)>
    decreases s, 0nat,
{
    if s.len() == 0 {
        Seq::empty()
    } else {
        members_data(s.drop_last()).push((s.last().0@, json_of(s.last().1)))
    }
}

/// The data of a list of values is the data of each value, in order.
pub proof fn lemma_items_data(s: Seq<JsonValue>)
    ensures
        items_data(s).len() == s.len(),
        forall|i: int| 0 <= i < s.len() ==> #[trigger] items_data(s)[i] == json_of(s[i]),
    decreases s.len(),
{
    if s.len() > 0 {
        lemma_items_data(s.drop_last());
        assert forall|i: int| 0 <= i < s.len() implies #[trigger] items_data(s)[i] == json_of(s[i]) by {
            if i < s.len() - 1 {
                assert(s.drop_last()[i] == s[i]);
            }
        }
    }
}

/// The data of a list of members is each member's name and data, in order.
pub proof fn lemma_members_data(s: Seq<(String, JsonValue)>)
    ensures
        members_data(s).len() == s.len(),
        forall|i: int| 0 <= i < s.len() ==> #[trigger] members_data(s)[i] == (s[i].0@, json_of(s[i].1)),
    decreases s.len(),
{
    if s.len() > 0 {
        lemma_members_data(s.drop_last());
        assert forall|i: int| 0 <= i < s.len() implies #[trigger] members_data(s)[i] == (s[i].0@, json_of(s[i].1)) by {
            if i < s.len() - 1 {
                assert(s.drop_last()[i] == s[i]);
            }
        }
    }
}

/// Two sequences of values that hold the same, item by item, hold the same.
pub proof fn lemma_items_same(a: Seq<JsonValue>, b: Seq<JsonValue>)
    requires
        a.len() == b.len(),
        forall|i: int| 0 <= i < a.len() ==> json_of(#[trigger] a[i]) == json_of(b[i]),
    ensures
        items_data(a) == items_data(b),
{
    lemma_items_data(a);
    lemma_items_data(b);
    assert(items_data(a) =~= items_data(b));
}

/// Two sequences of members that hold the same, member by member, hold the same.
pub proof fn lemma_members_same(a: Seq<(String, JsonValue)>, b: Seq<(String, JsonValue)>)
    requires
        a.len() == b.len(),
        forall|i: int| 0 <= i < a.len() ==> (#[trigger] a[i]).0@ == b[i].0@ && json_of(a[i].1) == json_of(b[i].1),
    ensures
        members_data(a) == members_data(b),
{
    lemma_members_data(a);
    lemma_members_data(b);
    assert(members_data(a) =~= members_data(b));
}

/// A copy of a value, holding the same.
pub fn copy_value(v: &JsonValue) -> (r: JsonValue)
    ensures
        json_of(r) == json_of(*v),
    decreases v, 0nat,
{
    match v {
        JsonValue::Null => JsonValue::Null,
        JsonValue::Bool(b) => JsonValue::Bool(*b),
        JsonValue::Number(n) => JsonValue::Number(n.clone()),
        JsonValue::String(s) => JsonValue::String(s.clone()),
        JsonValue::Array(a) => JsonValue::Array(copy_items(a)),
        JsonValue::Object(o) => JsonValue::Object(copy_members(o)),
    }
}

/// A copy of a sequence of values, holding the same.
pub fn copy_items(items: &Vec<JsonValue>) -> (r: Vec<JsonValue>)
    ensures
        items_data(r@) == items_data(items@),
    decreases items@, 0nat,
{
    let mut out: Vec<JsonValue> = Vec::new();
    let mut i: usize = 0;
    while i < items.len()
        invariant
            i <= items@.len(),
            out@.len() == i,
            forall|j: int| 0 <= j < i ==> json_of(#[trigger] out@[j]) == json_of(items@[j]),
        decreases items.len() - i,
    {
        let c = copy_value(&items[i]);
        out.push(c);
        i += 1;
    }
    proof {
        lemma_items_same(out@, items@);
    }
    out
}

/// A copy of a sequence of members, holding the same.
pub fn copy_members(members: &Vec<(String, JsonValue)>) -> (r: Vec<(String, JsonValue)>)
    ensures
        members_data(r@) == members_data(members@),
    decreases members@, 0nat,
{
    let mut out: Vec<(String, JsonValue)> = Vec::new();
    let mut i: usize = 0;
    while i < members.len()
        invariant
            i <= members@.len(),
            out@.len() == i,
            forall|j: int| 0 <= j < i ==> (#[trigger] out@[j]).0@ == members@[j].0@ && json_of(out@[j].1) == json_of(
                members@[j].1,
            ),
        decreases members.len() - i,
    {
        let name = members[i].0.clone();
        let c = copy_value(&members[i].1);
        out.push((name, c));
        i += 1;
    }
    proof {
        lemma_members_same(out@, members@);
    }
    out
}

/// The position of the first member of `m` named `k`.
pub open spec fn find_member(m: Seq<(Seq<char>, JsonData)>, k: Seq<char>) -> Option<int>
    decreases m.len(),
{
    if m.len() == 0 {
        None
    } else if m[0].0 == k {
        Some(0)
    } else {
        match find_member(m.drop_first(), k) {
            Some(i) => Some(i + 1),
            None => None,
        }
    }
}

proof fn lemma_find_member_at(m: Seq<(Seq<char>, JsonData)>, k: Seq<char>, i: int)
    requires
        0 <= i <= m.len(),
        forall|j: int| 0 <= j < i ==> (#[trigger] m[j]).0 != k,
        i < m.len() ==> m[i].0 == k,
    ensures
        i < m.len() ==> find_member(m, k) == Some(i),
        i == m.len() ==> find_member(m, k) is None,
    decreases i,
{
    if i > 0 {
        assert forall|j: int| 0 <= j < i - 1 implies (#[trigger] m.drop_first()[j]).0 != k by {
            assert(m.drop_first()[j] == m[j + 1]);
        }
        assert(m[0].0 != k);
        lemma_find_member_at(m.drop_first(), k, i - 1);
    }
}

/// What a record holds once `segs` is removed from its members: the member
/// named by a last segment goes; a member on the way is entered when it is
/// an object or an array.
pub open spec fn removed_in_members(m: Seq<(Seq<char>, JsonData)>, segs: Seq<Seq<char>>) -> Seq<(Seq<char>, JsonData)>
    decreases m, 0nat,
{
    if segs.len() == 0 {
        m
    } else {
        match find_member(m, segs[0]) {
            Some(i) => if 0 <= i < m.len() {
                if segs.len() == 1 {
                    m.remove(i)
                } else {
                    m.update(i, (m[i].0, removed_in_value(m[i].1, segs.drop_first())))
                }
            } else {
                m
            },
            None => m,
        }
    }
}

/// What a value holds once `segs` is removed from inside it.
pub open spec fn removed_in_value(v: JsonData, segs: Seq<Seq<char>>) -> JsonData
    decreases v, 0nat,
{
    if segs.len() == 0 {
        v
    } else {
        match v {
            JsonData::Object(o) => JsonData::Object(removed_in_members(o, segs)),
            JsonData::Array(a) => JsonData::Array(removed_in_items(a, segs)),
            _ => v,
        }
    }
}

/// What the items of an array hold once `segs` is removed: an index
/// segment nulls or enters that item; any other enters every item.
pub open spec fn removed_in_items(a: Seq<JsonData>, segs: Seq<Seq<char>>) -> Seq<JsonData>
    decreases a, 1nat,
{
    if segs.len() == 0 {
        a
    } else {
        match parsed_usize(segs[0]) {
            Some(ix) => if ix < a.len() {
                if segs.len() == 1 {
                    a.update(ix as int, JsonData::Null)
                } else {
                    a.update(ix as int, removed_in_value(a[ix as int], segs.drop_first()))
                }
            } else {
                a
            },
            None => each_removed(a, segs),
        }
    }
}

/// Each item of `a` with `segs` removed from inside it.
pub open spec fn each_removed(a: Seq<JsonData>, segs: Seq<Seq<char>>) -> Seq<JsonData>
    decreases a, 0nat,
{
    if a.len() == 0 {
        a
    } else {
        each_removed(a.drop_last(), segs).push(removed_in_value(a.last(), segs))
    }
}

proof fn lemma_each_removed(a: Seq<JsonData>, segs: Seq<Seq<char>>)
    ensures
        each_removed(a, segs).len() == a.len(),
        forall|i: int| 0 <= i < a.len() ==> #[trigger] each_removed(a, segs)[i] == removed_in_value(a[i], segs),
    decreases a.len(),
{
    if a.len() > 0 {
        lemma_each_removed(a.drop_last(), segs);
        assert forall|i: int| 0 <= i < a.len() implies #[trigger] each_removed(a, segs)[i] == removed_in_value(a[i], segs) by {
            if i < a.len() - 1 {
                assert(a.drop_last()[i] == a[i]);
            }
        }
    }
}

fn find_index(m: &Vec<(String, JsonValue)>, key: &String) -> (r: Option<usize>)
    ensures
        r == match find_member(members_data(m@), key@) {
            Some(i) => Some(i as usize),
            None => None::<usize>,
        },
        r matches Some(i) ==> i < m@.len() && find_member(members_data(m@), key@) == Some(i as int),
{
    proof {
        lemma_members_data(m@);
    }
    let ghost d = members_data(m@);
    let mut i: usize = 0;
    while i < m.len()
        invariant
            i <= m@.len(),
            d == members_data(m@),
            d.len() == m@.len(),
            forall|j: int| 0 <= j < m@.len() ==> #[trigger] d[j] == (m@[j].0@, json_of(m@[j].1)),
            forall|j: int| 0 <= j < i ==> (#[trigger] d[j]).0 != key@,
        decreases m.len() - i,
    {
        if same_text(&m[i].0, key) {
            proof {
                lemma_find_member_at(d, key@, i as int);
            }
            return Some(i);
        }
        i += 1;
    }
    proof {
        lemma_find_member_at(d, key@, i as int);
    }
    None
}

/// Removes `segs[from..]` from a record's members.
fn remove_in_members(m: Vec<(String, JsonValue)>, segs: &Vec<String>, from: usize) -> (r: Vec<(String, JsonValue)>)
    requires
        from <= segs@.len(),
    ensures
        members_data(r@) == removed_in_members(members_data(m@), seg_views(segs@).subrange(from as int, segs@.len() as int)),
    decreases m@, 0nat,
{
    let ghost rest = seg_views(segs@).subrange(from as int, segs@.len() as int);
    let ghost d = members_data(m@);
    proof {
        lemma_members_data(m@);
    }
    if from == segs.len() {
        return m;
    }
    assert(rest[0] == segs@[from as int]@);
    assert(rest.drop_first() =~= seg_views(segs@).subrange(from + 1, segs@.len() as int));
    let mut m = m;
    let ghost before = m@;
    match find_index(&m, &segs[from]) {
        None => m,
        Some(i) => {
            if from + 1 == segs.len() {
                m.remove(i);
                proof {
                    lemma_members_data(m@);
                    assert(members_data(m@) =~= d.remove(i as int));
                }
                m
            } else {
                let (name, value) = m.remove(i);
                assert(value == before[i as int].1);
                let changed = remove_in_value(value, segs, from + 1);
                let ghost n = name@;
                m.insert(i, (name, changed));
                proof {
                    lemma_members_data(m@);
                    assert(members_data(m@) =~= d.update(i as int, (d[i as int].0, removed_in_value(d[i as int].1, rest.drop_first()))));
                }
                m
            }
        },
    }
}

/// Removes `segs[from..]` from inside a value.
fn remove_in_value(v: JsonValue, segs: &Vec<String>, from: usize) -> (r: JsonValue)
    requires
        from <= segs@.len(),
    ensures
        json_of(r) == removed_in_value(json_of(v), seg_views(segs@).subrange(from as int, segs@.len() as int)),
    decreases v, 0nat,
{
    if from == segs.len() {
        return v;
    }
    match v {
        JsonValue::Object(o) => JsonValue::Object(remove_in_members(o, segs, from)),
        JsonValue::Array(a) => JsonValue::Array(remove_in_items(a, segs, from)),
        other => other,
    }
}

/// Removes `segs[from..]` from the items of an array.
#[verifier::loop_isolation(false)]
fn remove_in_items(a: Vec<JsonValue>, segs: &Vec<String>, from: usize) -> (r: Vec<JsonValue>)
    requires
        from < segs@.len(),
    ensures
        items_data(r@) == removed_in_items(items_data(a@), seg_views(segs@).subrange(from as int, segs@.len() as int)),
    decreases a@, 1nat,
{
    let ghost rest = seg_views(segs@).subrange(from as int, segs@.len() as int);
    let ghost d = items_data(a@);
    let n = segs.len();
    proof {
        lemma_items_data(a@);
    }
    assert(rest[0] == segs@[from as int]@);
    assert(rest.drop_first() =~= seg_views(segs@).subrange(from + 1, segs@.len() as int));
    let mut a = a;
    let ghost before = a@;
    match array_index(&segs[from]) {
        Some(ix) => {
            if ix < a.len() {
                if from + 1 == segs.len() {
                    a.set(ix, JsonValue::Null);
                    proof {
                        lemma_items_data(a@);
                        assert(items_data(a@) =~= d.update(ix as int, JsonData::Null));
                    }
                } else {
                    let value = a.remove(ix);
                    assert(value == before[ix as int]);
                    let changed = remove_in_value(value, segs, from + 1);
                    a.insert(ix, changed);
                    proof {
                        lemma_items_data(a@);
                        assert(items_data(a@) =~= d.update(ix as int, removed_in_value(d[ix as int], rest.drop_first())));
                    }
                }
            }
            a
        },
        None => {
            let mut out: Vec<JsonValue> = Vec::new();
            let mut reversed: Vec<JsonValue> = Vec::new();
            while a.len() > 0
                invariant
                    a@ == before.subrange(0, a@.len() as int),
                    a@.len() + reversed@.len() == before.len(),
                    forall|j: int| 0 <= j < reversed@.len() ==> #[trigger] reversed@[j] == before[before.len() - 1 - j],
                decreases a@.len(),
            {
                let x = a.pop().unwrap();
                reversed.push(x);
            }
            while reversed.len() > 0
                invariant
                    out@.len() + reversed@.len() == before.len(),
                    forall|j: int| 0 <= j < reversed@.len() ==> #[trigger] reversed@[j] == before[before.len() - 1 - j],
                    forall|j: int| 0 <= j < out@.len() ==> json_of(#[trigger] out@[j]) == removed_in_value(json_of(before[j]), rest),
                    from < segs@.len(),
                    rest == seg_views(segs@).subrange(from as int, segs@.len() as int),
                decreases reversed@.len(),
            {
                let x = reversed.pop().unwrap();
                assert(x == before[out@.len() as int]);
                let changed = remove_in_value(x, segs, from);
                out.push(changed);
            }
            proof {
                lemma_items_data(out@);
                lemma_each_removed(d, rest);
                assert(items_data(out@) =~= each_removed(d, rest));
            }
            out
        },
    }
}

/// The value of the first member of `m` named `k`.
pub open spec fn data_member(m: Seq<(Seq<char>, JsonData)>, k: Seq<char>) -> Option<JsonData> {
    match find_member(m, k) {
        Some(i) => if 0 <= i < m.len() { Some(m[i].1) } else { None },
        None => None,
    }
}

/// `m` with its member `k` set to `v`: replaced in place, or appended.
pub open spec fn with_member(m: Seq<(Seq<char>, JsonData)>, k: Seq<char>, v: JsonData) -> Seq<(Seq<char>, JsonData)> {
    match find_member(m, k) {
        Some(i) => if 0 <= i < m.len() { m.update(i, (k, v)) } else { m.push((k, v)) },
        None => m.push((k, v)),
    }
}

/// The members of an object value.
pub open spec fn object_members(v: Option<JsonData>) -> Option<Seq<(Seq<char>, JsonData)>> {
    match v {
        Some(JsonData::Object(o)) => Some(o),
        _ => None,
    }
}

/// `s` cut or padded with nulls to `n` items.
pub open spec fn resized(s: Seq<JsonData>, n: nat) -> Seq<JsonData> {
    if s.len() >= n {
        s.subrange(0, n as int)
    } else {
        s + Seq::new((n - s.len()) as nat, |i: int| JsonData::Null)
    }
}

/// Whether the value is an array and the segment an index into one.
pub open spec fn enters_array(v: Option<JsonData>, segment: Seq<char>) -> bool {
    v matches Some(JsonData::Array(_)) && parsed_usize(segment) is Some
}

/// Output members with `value` placed at `segs`, following the shape of the
/// source record: the way goes through an array where the source has one
/// and the next segment is an index, else through an object; a member of
/// the wrong kind on the way is replaced.
pub open spec fn inserted_in_members(
    out: Seq<(Seq<char>, JsonData)>,
    source: Option<Seq<(Seq<char>, JsonData)>>,
    segs: Seq<Seq<char>>,
    value: JsonData,
) -> Seq<(Seq<char>, JsonData)>
    decreases segs.len(),
{
    if segs.len() == 0 {
        out
    } else if segs.len() == 1 {
        with_member(out, segs[0], value)
    } else {
        let first = segs[0];
        let rest = segs.drop_first();
        let source_value = match source {
            Some(s) => data_member(s, first),
            None => None,
        };
        if enters_array(source_value, rest[0]) {
            let base = match data_member(out, first) {
                Some(JsonData::Array(a)) => a,
                _ => Seq::empty(),
            };
            with_member(out, first, JsonData::Array(inserted_in_items(base, source_value, rest, value)))
        } else {
            let base = match data_member(out, first) {
                Some(JsonData::Object(o)) => o,
                _ => Seq::empty(),
            };
            with_member(out, first, JsonData::Object(inserted_in_members(base, object_members(source_value), rest, value)))
        }
    }
}

/// Output items with `value` placed at `segs`, whose first segment must be
/// an index within the source array: the output is cut or padded to just
/// past that index.
pub open spec fn inserted_in_items(out: Seq<JsonData>, source: Option<JsonData>, segs: Seq<Seq<char>>, value: JsonData) -> Seq<JsonData>
    decreases segs.len(),
{
    if segs.len() == 0 {
        out
    } else {
        match (parsed_usize(segs[0]), source) {
            (Some(ix), Some(JsonData::Array(src))) => if ix < src.len() {
                let padded = resized(out, (ix + 1) as nat);
                let rest = segs.drop_first();
                if rest.len() == 0 {
                    padded.update(ix as int, value)
                } else {
                    let source_value = Some(src[ix as int]);
                    if enters_array(source_value, rest[0]) {
                        let base = match padded[ix as int] {
                            JsonData::Array(a) => a,
                            _ => Seq::empty(),
                        };
                        padded.update(ix as int, JsonData::Array(inserted_in_items(base, source_value, rest, value)))
                    } else {
                        let base = match padded[ix as int] {
                            JsonData::Object(o) => o,
                            _ => Seq::empty(),
                        };
                        padded.update(
                            ix as int,
                            JsonData::Object(inserted_in_members(base, object_members(source_value), rest, value)),
                        )
                    }
                }
            } else {
                out
            },
            _ => out,
        }
    }
}

/// The data of the members of an object, where there is one.
pub open spec fn members_of_ref(source: Option<&Vec<(String, JsonValue)>>) -> Option<Seq<(Seq<char>, JsonData)>> {
    match source {
        Some(s) => Some(members_data(s@)),
        None => None,
    }
}

/// The data of a value, where there is one.
pub open spec fn data_of_ref(source: Option<&JsonValue>) -> Option<JsonData> {
    match source {
        Some(v) => Some(json_of(*v)),
        None => None,
    }
}

fn lookup_member<'a>(m: &'a Vec<(String, JsonValue)>, key: &String) -> (r: Option<&'a JsonValue>)
    ensures
        data_of_ref(r) == data_member(members_data(m@), key@),
{
    proof {
        lemma_members_data(m@);
    }
    match find_index(m, key) {
        Some(i) => Some(&m[i].1),
        None => None,
    }
}

/// Sets member `key` of `out` to `value`.
fn set_member(out: Vec<(String, JsonValue)>, key: &String, value: JsonValue) -> (r: Vec<(String, JsonValue)>)
    ensures
        members_data(r@) == with_member(members_data(out@), key@, json_of(value)),
{
    let ghost d = members_data(out@);
    proof {
        lemma_members_data(out@);
    }
    let mut out = out;
    match find_index(&out, key) {
        Some(i) => {
            out.set(i, (key.clone(), value));
            proof {
                lemma_members_data(out@);
                assert(members_data(out@) =~= d.update(i as int, (key@, json_of(value))));
            }
        },
        None => {
            out.push((key.clone(), value));
            proof {
                lemma_members_data(out@);
                assert(members_data(out@) =~= d.push((key@, json_of(value))));
            }
        },
    }
    out
}

/// Places `value` at `segs[from..]` in output members.
fn insert_in_members(
    out: Vec<(String, JsonValue)>,
    source: Option<&Vec<(String, JsonValue)>>,
    segs: &Vec<String>,
    from: usize,
    value: JsonValue,
) -> (r: Vec<(String, JsonValue)>)
    requires
        from <= segs@.len(),
    ensures
        members_data(r@) == inserted_in_members(
            members_data(out@),
            members_of_ref(source),
            seg_views(segs@).subrange(from as int, segs@.len() as int),
            json_of(value),
        ),
    decreases segs@.len() - from,
{
    let ghost rest = seg_views(segs@).subrange(from as int, segs@.len() as int);
    let ghost d = members_data(out@);
    let n = segs.len();
    if from == n {
        return out;
    }
    assert(rest[0] == segs@[from as int]@);
    if from + 1 == n {
        return set_member(out, &segs[from], value);
    }
    assert(rest.drop_first() =~= seg_views(segs@).subrange(from + 1, segs@.len() as int));
    assert(rest.drop_first()[0] == segs@[from + 1]@);
    let first = &segs[from];
    let source_value = match source {
        Some(s) => lookup_member(s, first),
        None => None,
    };
    let use_array = match source_value {
        Some(JsonValue::Array(_)) => array_index(&segs[from + 1]).is_some(),
        _ => false,
    };
    proof {
        lemma_members_data(out@);
    }
    let mut out = out;
    let existing = find_index(&out, first);
    let entry = match existing {
        Some(i) => {
            let mut taken = (String::new(), JsonValue::Null);
            std::mem::swap(&mut taken, &mut out[i]);
            taken.1
        },
        None => JsonValue::Null,
    };
    let ghost entry_data = data_member(d, first@);
    assert(existing is Some ==> entry_data == Some(json_of(entry)));
    assert(existing is None ==> entry_data is None);
    let changed = if use_array {
        let base = match entry {
            JsonValue::Array(a) => a,
            _ => Vec::new(),
        };
        proof {
            lemma_items_data(base@);
        }
        JsonValue::Array(insert_in_items(base, source_value, segs, from + 1, value))
    } else {
        let base = match entry {
            JsonValue::Object(o) => o,
            _ => Vec::new(),
        };
        proof {
            lemma_members_data(base@);
        }
        let source_members = match source_value {
            Some(JsonValue::Object(o)) => Some(o),
            _ => None,
        };
        JsonValue::Object(insert_in_members(base, source_members, segs, from + 1, value))
    };
    let result = match existing {
        Some(i) => {
            out.set(i, (first.clone(), changed));
            proof {
                lemma_members_data(out@);
                assert(members_data(out@) =~= d.update(i as int, (first@, json_of(changed))));
            }
            out
        },
        None => {
            out.push((first.clone(), changed));
            proof {
                lemma_members_data(out@);
                assert(members_data(out@) =~= d.push((first@, json_of(changed))));
            }
            out
        },
    };
    result
}

/// Places `value` at `segs[from..]` in output items.
fn insert_in_items(out: Vec<JsonValue>, source: Option<&JsonValue>, segs: &Vec<String>, from: usize, value: JsonValue) -> (r: Vec<JsonValue>)
    requires
        from <= segs@.len(),
    ensures
        items_data(r@) == inserted_in_items(
            items_data(out@),
            data_of_ref(source),
            seg_views(segs@).subrange(from as int, segs@.len() as int),
            json_of(value),
        ),
    decreases segs@.len() - from,
{
    let ghost rest = seg_views(segs@).subrange(from as int, segs@.len() as int);
    let ghost d = items_data(out@);
    let n = segs.len();
    if from == n {
        return out;
    }
    assert(rest[0] == segs@[from as int]@);
    let ix = match array_index(&segs[from]) {
        Some(ix) => ix,
        None => {
            return out;
        },
    };
    let src = match source {
        Some(JsonValue::Array(src)) => src,
        _ => {
            return out;
        },
    };
    proof {
        lemma_items_data(src@);
        lemma_items_data(out@);
    }
    if ix >= src.len() {
        return out;
    }
    let end = ix + 1;
    let mut out = out;
    if out.len() > end {
        out.truncate(end);
    }
    while out.len() < end
        invariant
            end == ix + 1,
            out@.len() <= ix + 1,
            forall|j: int| 0 <= j < out@.len() ==> json_of(#[trigger] out@[j]) == resized(d, (ix + 1) as nat)[j],
            out@.len() < ix + 1 ==> out@.len() >= d.len(),
        decreases ix + 1 - out@.len(),
    {
        out.push(JsonValue::Null);
    }
    proof {
        lemma_items_data(out@);
        assert(items_data(out@) =~= resized(d, (ix + 1) as nat));
    }
    let ghost padded = resized(d, (ix + 1) as nat);
    if from + 1 == n {
        out.set(ix, value);
        proof {
            lemma_items_data(out@);
            assert(items_data(out@) =~= padded.update(ix as int, json_of(value)));
        }
        return out;
    }
    assert(rest.drop_first() =~= seg_views(segs@).subrange(from + 1, segs@.len() as int));
    assert(rest.drop_first()[0] == segs@[from + 1]@);
    let source_value = &src[ix];
    let use_array = match source_value {
        JsonValue::Array(_) => array_index(&segs[from + 1]).is_some(),
        _ => false,
    };
    let mut entry = JsonValue::Null;
    std::mem::swap(&mut entry, &mut out[ix]);
    assert(json_of(entry) == padded[ix as int]);
    let changed = if use_array {
        let base = match entry {
            JsonValue::Array(a) => a,
            _ => Vec::new(),
        };
        proof {
            lemma_items_data(base@);
        }
        JsonValue::Array(insert_in_items(base, Some(source_value), segs, from + 1, value))
    } else {
        let base = match entry {
            JsonValue::Object(o) => o,
            _ => Vec::new(),
        };
        proof {
            lemma_members_data(base@);
        }
        let source_members = match source_value {
            JsonValue::Object(o) => Some(o),
            _ => None,
        };
        JsonValue::Object(insert_in_members(base, source_members, segs, from + 1, value))
    };
    out.set(ix, changed);
    proof {
        lemma_items_data(out@);
        assert(items_data(out@) =~= padded.update(ix as int, json_of(changed)));
    }
    out
}

/// What a record's members hold once the field `path` is removed: the member
/// named by the whole path, else, for a dotted path, the member that its
/// segments reach.
pub open spec fn removed_field(m: Seq<(Seq<char>, JsonData)>, path: Seq<char>) -> Seq<(Seq<char>, JsonData)> {
    match find_member(m, path) {
        Some(i) => if 0 <= i < m.len() { m.remove(i) } else { m },
        None => if first_dot(path) is None { m } else { removed_in_members(m, segments(path)) },
    }
}

/// Output members with `value` placed at the field `path` of the source
/// record: under the whole path when the source has a member of that name
/// or the path has no dot, else at its segments.
pub open spec fn inserted_field(
    out: Seq<(Seq<char>, JsonData)>,
    source: Seq<(Seq<char>, JsonData)>,
    path: Seq<char>,
    value: JsonData,
) -> Seq<(Seq<char>, JsonData)> {
    if find_member(source, path) is Some || first_dot(path) is None {
        with_member(out, path, value)
    } else {
        inserted_in_members(out, Some(source), segments(path), value)
    }
}

/// The value a path reads: the one value it finds, or an array of them.
pub open spec fn found_data(found: Seq<JsonValue>) -> JsonData {
    if found.len() == 1 {
        json_of(found[0])
    } else {
        JsonData::Array(items_data(found))
    }
}

/// The members that the first `n` projection entries include.
pub open spec fn included(record: Seq<(String, JsonValue)>, fields: Seq<(String, i8)>, n: nat) -> Seq<(Seq<char>, JsonData)>
    decreases n,
{
    if n == 0 || n > fields.len() {
        Seq::empty()
    } else {
        let before = included(record, fields, (n - 1) as nat);
        let (field, inclusion) = fields[n - 1];
        let found = path_found(record, field@);
        if inclusion != 1 || found.len() == 0 {
            before
        } else {
            inserted_field(before, members_data(record), field@, found_data(found))
        }
    }
}

/// The members left once the first `n` projection entries exclude theirs.
pub open spec fn excluded(m: Seq<(Seq<char>, JsonData)>, fields: Seq<(String, i8)>, n: nat) -> Seq<(Seq<char>, JsonData)>
    decreases n,
{
    if n == 0 || n > fields.len() {
        m
    } else {
        let before = excluded(m, fields, (n - 1) as nat);
        if fields[n - 1].1 == 0 {
            removed_field(before, fields[n - 1].0@)
        } else {
            before
        }
    }
}

/// A projected record: the whole record without projection entries; with
/// an entry that includes (1), just the included fields, in entry order;
/// else the record without the excluded (0) fields.
pub open spec fn projected(record: Seq<(String, JsonValue)>, fields: Seq<(String, i8)>) -> Seq<(Seq<char>, JsonData)> {
    if fields.len() == 0 {
        members_data(record)
    } else if exists|i: int| 0 <= i < fields.len() && (#[trigger] fields[i]).1 == 1 {
        included(record, fields, fields.len())
    } else {
        excluded(members_data(record), fields, fields.len())
    }
}

/// Whether `path` holds a dot.
fn has_dot(path: &str) -> (r: bool)
    ensures
        r == first_dot(path@) is Some,
{
    let chars = crate::text::chars_of(path);
    let mut i: usize = 0;
    while i < chars.len()
        invariant
            chars@ == path@,
            i <= chars@.len(),
            forall|j: int| 0 <= j < i ==> chars@[j] != '.',
        decreases chars.len() - i,
    {
        if chars[i] == '.' {
            proof {
                lemma_first_dot_at(path@, i as int);
            }
            return true;
        }
        i += 1;
    }
    proof {
        lemma_first_dot_at(path@, i as int);
    }
    false
}

/// Removes the field `path` from a record's members.
pub fn remove_field(values: Vec<(String, JsonValue)>, path: &String) -> (r: Vec<(String, JsonValue)>)
    ensures
        members_data(r@) == removed_field(members_data(values@), path@),
{
    let ghost d = members_data(values@);
    proof {
        lemma_members_data(values@);
    }
    let mut values = values;
    if let Some(i) = find_index(&values, path) {
        values.remove(i);
        proof {
            lemma_members_data(values@);
            assert(members_data(values@) =~= d.remove(i as int));
        }
        return values;
    }
    if !has_dot(path) {
        return values;
    }
    let segs = split_path(path);
    assert(seg_views(segs@).subrange(0, segs@.len() as int) =~= segments(path@));
    remove_in_members(values, &segs, 0)
}

/// Places `value` at the field `path` of the source record in the output.
pub fn insert_field(
    out: Vec<(String, JsonValue)>,
    source: &Vec<(String, JsonValue)>,
    path: &String,
    value: JsonValue,
) -> (r: Vec<(String, JsonValue)>)
    ensures
        members_data(r@) == inserted_field(members_data(out@), members_data(source@), path@, json_of(value)),
{
    if find_index(source, path).is_some() || !has_dot(path) {
        return set_member(out, path, value);
    }
    let segs = split_path(path);
    assert(seg_views(segs@).subrange(0, segs@.len() as int) =~= segments(path@));
    insert_in_members(out, Some(source), &segs, 0, value)
}

/// A copy of what a path found in a record, if it found anything.
fn found_copy(found: PathMatch) -> (r: Option<JsonValue>)
    ensures
        match found {
            PathMatch::Missing => r is None,
            PathMatch::One(x) => r matches Some(v) && json_of(v) == json_of(*x),
            PathMatch::Many(xs) => r matches Some(v) && json_of(v) == JsonData::Array(items_data(referenced(xs@))),
        },
{
    match found {
        PathMatch::Missing => None,
        PathMatch::One(x) => Some(copy_value(x)),
        PathMatch::Many(xs) => {
            let mut items: Vec<JsonValue> = Vec::new();
            let mut i: usize = 0;
            while i < xs.len()
                invariant
                    i <= xs@.len(),
                    items@.len() == i,
                    forall|j: int| 0 <= j < i ==> json_of(#[trigger] items@[j]) == json_of(*xs@[j]),
                decreases xs.len() - i,
            {
                items.push(copy_value(xs[i]));
                i += 1;
            }
            proof {
                assert forall|j: int| 0 <= j < items@.len() implies json_of(#[trigger] items@[j]) == json_of(referenced(xs@)[j]) by {}
                lemma_items_same(items@, referenced(xs@));
            }
            Some(JsonValue::Array(items))
        },
    }
}

/// Projects a record by the projection entries, in the order given.
pub fn project(record: &Vec<(String, JsonValue)>, projection: &Vec<(String, i8)>) -> (r: Vec<(String, JsonValue)>)
    ensures
        members_data(r@) == projected(record@, projection@),
{
    if projection.len() == 0 {
        return copy_members(record);
    }
    let mut includes = false;
    let mut k: usize = 0;
    while k < projection.len()
        invariant
            k <= projection@.len(),
            includes == exists|i: int| 0 <= i < k && (#[trigger] projection@[i]).1 == 1,
        decreases projection.len() - k,
    {
        if projection[k].1 == 1 {
            includes = true;
        }
        k += 1;
    }
    if includes {
        let mut out: Vec<(String, JsonValue)> = Vec::new();
        let mut i: usize = 0;
        assert(members_data(out@) =~= Seq::<(Seq<char>, JsonData)>::empty());
        while i < projection.len()
            invariant
                i <= projection@.len(),
                members_data(out@) == included(record@, projection@, i as nat),
            decreases projection.len() - i,
        {
            let (field, inclusion) = &projection[i];
            if *inclusion == 1 {
                let found = field_value(record, field);
                match found_copy(found) {
                    Some(value) => {
                        out = insert_field(out, record, field, value);
                    },
                    None => {},
                }
            }
            i += 1;
        }
        out
    } else {
        let mut values = copy_members(record);
        let mut i: usize = 0;
        while i < projection.len()
            invariant
                i <= projection@.len(),
                members_data(values@) == excluded(members_data(record@), projection@, i as nat),
            decreases projection.len() - i,
        {
            if projection[i].1 == 0 {
                values = remove_field(values, &projection[i].0);
            }
            i += 1;
        }
        values
    }
}

/// A copy of the members that `members` refers to.
pub fn copy_members_in(members: &Vec<&(String, JsonValue)>) -> (r: Vec<(String, JsonValue)>)
    ensures
        members_data(r@) == members_data(members_of(members@)),
{
    let ghost all = members_of(members@);
    let mut out: Vec<(String, JsonValue)> = Vec::new();
    let mut i: usize = 0;
    while i < members.len()
        invariant
            all == members_of(members@),
            i <= members@.len(),
            out@.len() == i,
            forall|j: int| 0 <= j < i ==> (#[trigger] out@[j]).0@ == all[j].0@ && json_of(out@[j].1) == json_of(all[j].1),
        decreases members.len() - i,
    {
        let name = members[i].0.clone();
        let c = copy_value(&members[i].1);
        out.push((name, c));
        i += 1;
    }
    proof {
        lemma_members_same(out@, all);
    }
    out
}

/// Projects a record given as references to its members, as `project` does.
pub fn project_in(record: &Vec<&(String, JsonValue)>, projection: &Vec<(String, i8)>) -> (r: Vec<(String, JsonValue)>)
    ensures
        members_data(r@) == projected(members_of(record@), projection@),
{
    let owned = copy_members_in(record);
    if projection.len() == 0 {
        return owned;
    }
    let mut includes = false;
    let mut k: usize = 0;
    while k < projection.len()
        invariant
            k <= projection@.len(),
            includes == exists|i: int| 0 <= i < k && (#[trigger] projection@[i]).1 == 1,
        decreases projection.len() - k,
    {
        if projection[k].1 == 1 {
            includes = true;
        }
        k += 1;
    }
    if includes {
        let mut out: Vec<(String, JsonValue)> = Vec::new();
        let mut i: usize = 0;
        assert(members_data(out@) =~= Seq::<(Seq<char>, JsonData)>::empty());
        while i < projection.len()
            invariant
                i <= projection@.len(),
                members_data(owned@) == members_data(members_of(record@)),
                members_data(out@) == included(members_of(record@), projection@, i as nat),
            decreases projection.len() - i,
        {
            let (field, inclusion) = &projection[i];
            if *inclusion == 1 {
                let found = field_value_in(record, field);
                match found_copy(found) {
                    Some(value) => {
                        out = insert_field(out, &owned, field, value);
                    },
                    None => {},
                }
            }
            i += 1;
        }
        out
    } else {
        let mut values = owned;
        let mut i: usize = 0;
        while i < projection.len()
            invariant
                i <= projection@.len(),
                members_data(values@) == excluded(members_data(members_of(record@)), projection@, i as nat),
            decreases projection.len() - i,
        {
            if projection[i].1 == 0 {
                values = remove_field(values, &projection[i].0);
            }
            i += 1;
        }
        values
    }
}

proof fn lemma_member_of_first(fields: Seq<(String, JsonValue)>, key: Seq<char>)
    ensures
        match member_of(fields, key) {
            Some(v) => exists|i: int|
                0 <= i < fields.len() && (#[trigger] fields[i]).0@ == key && fields[i].1 == v && forall|j: int|
                    0 <= j < i ==> fields[j].0@ != key,
            None => forall|j: int| 0 <= j < fields.len() ==> (#[trigger] fields[j]).0@ != key,
        },
    decreases fields.len(),
{
    if fields.len() > 0 {
        let rest = fields.drop_first();
        lemma_member_of_first(rest, key);
        if fields[0].0@ != key {
            match member_of(rest, key) {
                Some(v) => {
                    let i = choose|i: int|
                        0 <= i < rest.len() && (#[trigger] rest[i]).0@ == key && rest[i].1 == v && forall|j: int|
                            0 <= j < i ==> rest[j].0@ != key;
                    assert(fields[i + 1] == rest[i]);
                    assert forall|j: int| 0 <= j < i + 1 implies fields[j].0@ != key by {
                        if j > 0 {
                            assert(fields[j] == rest[j - 1]);
                        }
                    }
                },
                None => {
                    assert forall|j: int| 0 <= j < fields.len() implies (#[trigger] fields[j]).0@ != key by {
                        if j > 0 {
                            assert(fields[j] == rest[j - 1]);
                        }
                    }
                },
            }
        }
    }
}

/// Including one field that a record holds under its exact name keeps just
/// that field, with the value the record holds.
pub proof fn law_inclusion_keeps_a_field_value(record: Seq<(String, JsonValue)>, field: String)
    requires
        member_of(record, field@) is Some,
    ensures
        projected(record, seq![(field, 1i8)]) == seq![(field@, json_of(member_of(record, field@).unwrap()))],
{
    let fields = seq![(field, 1i8)];
    assert(fields[0].1 == 1);
    let v = member_of(record, field@).unwrap();
    lemma_member_of_first(record, field@);
    lemma_members_data(record);
    let i = choose|i: int|
        0 <= i < record.len() && (#[trigger] record[i]).0@ == field@ && record[i].1 == v && forall|j: int|
            0 <= j < i ==> record[j].0@ != field@;
    let d = members_data(record);
    assert forall|j: int| 0 <= j < i implies (#[trigger] d[j]).0 != field@ by {
        assert(d[j] == (record[j].0@, json_of(record[j].1)));
    }
    lemma_find_member_at(d, field@, i);
    assert(path_found(record, field@) == seq![v]);
    assert(included(record, fields, 0) == Seq::<(Seq<char>, JsonData)>::empty());
    assert(find_member(Seq::<(Seq<char>, JsonData)>::empty(), field@) is None);
    assert(included(record, fields, 1) == with_member(Seq::empty(), field@, json_of(v)));
}

/// The members of a record named after their table: "table.field".
pub fn qualified_members(table: &str, values: &Vec<(String, JsonValue)>) -> (r: Vec<(String, JsonValue)>)
    ensures
        members_data(r@) == members_data(values@).map_values(
            |m: (Seq<char>, JsonData)| (table@ + seq!['.'] + m.0, m.1),
        ),
{
    let prefix = crate::text::concat(table, ".");
    proof {
        reveal_strlit(".");
        lemma_members_data(values@);
    }
    let mut out: Vec<(String, JsonValue)> = Vec::new();
    let mut i: usize = 0;
    while i < values.len()
        invariant
            i <= values@.len(),
            prefix@ == table@ + seq!['.'],
            out@.len() == i,
            forall|j: int| 0 <= j < i ==> (#[trigger] out@[j]).0@ == prefix@ + values@[j].0@ && json_of(out@[j].1)
                == json_of(values@[j].1),
        decreases values.len() - i,
    {
        let name = crate::text::concat(&prefix, &values[i].0);
        let value = copy_value(&values[i].1);
        out.push((name, value));
        i += 1;
    }
    proof {
        lemma_members_data(out@);
        assert(members_data(out@) =~= members_data(values@).map_values(
            |m: (Seq<char>, JsonData)| (table@ + seq!['.'] + m.0, m.1),
        ));
    }
    out
}

} // verus!
