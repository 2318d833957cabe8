//! Field paths into records. A path names a top-level field, or walks
//! nested values by its dot-separated segments: a segment selects a member
//! of an object, an element of an array when it is an index, or else fans
//! out over every element of an array.
use vstd::prelude::*;
use super::filter::JsonValue;
use crate::text::{chars_of, concat, same_text, substring};
use crate::replication::http::response::{parse_decimal_usize, parsed_usize};

verus! {

/// The value of the first member of `fields` named `key`.
pub open spec fn member_of(fields: Seq<(String, JsonValue)>, key: Seq<char>) -> Option<JsonValue>
    decreases fields.len(),
{
    if fields.len() == 0 {
        None
    } else if fields[0].0@ == key {
        Some(fields[0].1)
    } else {
        member_of(fields.drop_first(), key)
    }
}

/// The position of the first '.' of `s`.
pub open spec fn first_dot(s: Seq<char>) -> Option<int>
    decreases s.len(),
{
    if s.len() == 0 {
        None
    } else if s[0] == '.' {
        Some(0)
    } else {
        match first_dot(s.drop_first()) {
            Some(i) => Some(i + 1),
            None => None,
        }
    }
}

proof fn lemma_first_dot(s: Seq<char>)
    ensures
        first_dot(s) matches Some(i) ==> 0 <= i < s.len() && s[i] == '.' && forall|j: int| 0 <= j < i ==> s[j] != '.',
        first_dot(s) is None ==> forall|j: int| 0 <= j < s.len() ==> s[j] != '.',
    decreases s.len(),
{
    if s.len() > 0 {
        lemma_first_dot(s.drop_first());
        if s[0] != '.' {
            assert forall|j: int| 1 <= j < s.len() implies s.drop_first()[j - 1] == s[j] by {}
        }
    }
}

pub(crate) proof fn lemma_first_dot_at(s: Seq<char>, k: int)
    requires
        0 <= k <= s.len(),
        forall|j: int| 0 <= j < k ==> s[j] != '.',
        k < s.len() ==> s[k] == '.',
    ensures
        k < s.len() ==> first_dot(s) == Some(k),
        k == s.len() ==> first_dot(s) is None,
    decreases k,
{
    if k > 0 {
        lemma_first_dot_at(s.drop_first(), k - 1);
    }
}

/// The dot-separated segments of a path, empty ones included.
pub open spec fn segments(s: Seq<char>) -> Seq<Seq<char>>
    decreases s.len(),
{
    match first_dot(s) {
        Some(i) => if 0 <= i < s.len() {
            seq![s.subrange(0, i)] + segments(s.subrange(i + 1, s.len() as int))
        } else {
            seq![s]
        },
        None => seq![s],
    }
}

/// The values that the segments `segs` reach from `v`, in document order.
pub open spec fn path_values(v: JsonValue, segs: Seq<Seq<char>>) -> Seq<JsonValue>
    decreases v, 0nat,
{
    if segs.len() == 0 {
        seq![v]
    } else {
        match v {
            JsonValue::Object(o) => member_values(o@, segs),
            JsonValue::Array(a) => match parsed_usize(segs[0]) {
                Some(ix) => if ix < a@.len() {
                    path_values(a@[ix as int], segs.drop_first())
                } else {
                    Seq::empty()
                },
                None => items_values(a@, segs),
            },
            _ => Seq::empty(),
        }
    }
}

/// What the rest of the segments reach from the first member named by the
/// first segment.
pub open spec fn member_values(fields: Seq<(String, JsonValue)>, segs: Seq<Seq<char>>) -> Seq<JsonValue>
    decreases fields, 0nat,
{
    if fields.len() == 0 || segs.len() == 0 {
        Seq::empty()
    } else if fields[0].0@ == segs[0] {
        path_values(fields[0].1, segs.drop_first())
    } else {
        member_values(fields.drop_first(), segs)
    }
}

/// What the segments reach from each of `items`, in order.
pub open spec fn items_values(items: Seq<JsonValue>, segs: Seq<Seq<char>>) -> Seq<JsonValue>
    decreases items, 0nat,
{
    if items.len() == 0 {
        Seq::empty()
    } else {
        items_values(items.drop_last(), segs) + path_values(items.last(), segs)
    }
}

/// What a path finds in a record.
pub enum PathMatch<'a> {
    /// Nothing.
    Missing,
    /// One value.
    One(&'a JsonValue),
    /// Several values, in document order; they read as one array of them.
    Many(Vec<&'a JsonValue>),
}

/// The values of a sequence of references.
pub open spec fn referenced(s: Seq<&JsonValue>) -> Seq<JsonValue> {
    s.map_values(|r: &JsonValue| *r)
}

/// What a path finds in the record `values`: the member named by the whole
/// path when there is one, else what the segments after the first reach from
/// the member named by the first.
pub open spec fn path_found(values: Seq<(String, JsonValue)>, path: Seq<char>) -> Seq<JsonValue> {
    match member_of(values, path) {
        Some(v) => seq![v],
        None => {
            let segs = segments(path);
            match member_of(values, segs[0]) {
                Some(v) => path_values(v, segs.drop_first()),
                None => Seq::empty(),
            }
        },
    }
}

/// The array index that a path segment names, if it is one.
pub fn array_index(segment: &str) -> (r: Option<usize>)
    ensures
        r == parsed_usize(segment@),
{
    parse_decimal_usize(&chars_of(segment))
}

/// Splits a path at its dots.
pub fn split_path(path: &str) -> (r: Vec<String>)
    ensures
        r@.map_values(|s: String| s@) == segments(path@),
        r@.len() > 0,
{
    let chars = chars_of(path);
    let mut parts: Vec<String> = Vec::new();
    let mut start: usize = 0;
    let mut i: usize = 0;
    assert(path@.subrange(0, path@.len() as int) =~= path@);
    assert(parts@.map_values(|s: String| s@) =~= Seq::<Seq<char>>::empty());
    while i < chars.len()
        invariant
            chars@ == path@,
            start <= i <= chars@.len(),
            forall|j: int| start <= j < i ==> chars@[j] != '.',
            parts@.map_values(|s: String| s@) + segments(path@.subrange(start as int, path@.len() as int)) == segments(path@),
        decreases chars.len() - i,
    {
        if chars[i] == '.' {
            let part = substring(path, start, i);
            proof {
                let rest = path@.subrange(start as int, path@.len() as int);
                assert forall|j: int| 0 <= j < i - start implies rest[j] != '.' by {
                    assert(rest[j] == chars@[start + j]);
                }
                lemma_first_dot_at(rest, i - start);
                assert(rest.subrange(0, i - start) =~= path@.subrange(start as int, i as int));
                assert(rest.subrange(i - start + 1, rest.len() as int) =~= path@.subrange(i + 1, path@.len() as int));
                assert(segments(rest) == seq![part@] + segments(path@.subrange(i + 1, path@.len() as int)));
                assert(parts@.push(part).map_values(|s: String| s@) =~= parts@.map_values(|s: String| s@).push(part@));
            }
            parts.push(part);
            start = i + 1;
        }
        i += 1;
    }
    let last = substring(path, start, chars.len());
    proof {
        let rest = path@.subrange(start as int, path@.len() as int);
        assert forall|j: int| 0 <= j < rest.len() implies rest[j] != '.' by {
            assert(rest[j] == chars@[start + j]);
        }
        lemma_first_dot_at(rest, rest.len() as int);
        assert(segments(rest) == seq![rest]);
        assert(parts@.push(last).map_values(|s: String| s@) =~= parts@.map_values(|s: String| s@).push(last@));
    }
    parts.push(last);
    proof {
        assert(parts@.map_values(|s: String| s@) =~= segments(path@));
    }
    parts
}

/// The value of the first member of `fields` named `key`.
pub fn member<'a>(fields: &'a Vec<(String, JsonValue)>, key: &str) -> (r: Option<&'a JsonValue>)
    ensures
        match member_of(fields@, key@) {
            Some(v) => r matches Some(x) && *x == v,
            None => r is None,
        },
{
    let mut i: usize = 0;
    assert(fields@.subrange(0, fields@.len() as int) =~= fields@);
    while i < fields.len()
        invariant
            i <= fields@.len(),
            member_of(fields@, key@) == member_of(fields@.subrange(i as int, fields@.len() as int), key@),
        decreases fields.len() - i,
    {
        let ghost rest = fields@.subrange(i as int, fields@.len() as int);
        assert(rest[0] == fields@[i as int]);
        assert(rest.drop_first() =~= fields@.subrange(i + 1, fields@.len() as int));
        if same_text(&fields[i].0, key) {
            return Some(&fields[i].1);
        }
        i += 1;
    }
    None
}

/// The texts of path segments.
pub open spec fn seg_views(segs: Seq<String>) -> Seq<Seq<char>> {
    segs.map_values(|s: String| s@)
}

/// Appends to `out` what the segments `segs[from..]` reach from `v`.
fn collect_values<'a>(v: &'a JsonValue, segs: &Vec<String>, from: usize, out: &mut Vec<&'a JsonValue>)
    requires
        from <= segs@.len(),
    ensures
        referenced(final(out)@) == referenced(old(out)@) + path_values(
            *v,
            seg_views(segs@).subrange(from as int, segs@.len() as int),
        ),
    decreases v, 0nat,
{
    let ghost rest = seg_views(segs@).subrange(from as int, segs@.len() as int);
    if from == segs.len() {
        let ghost before = out@;
        out.push(v);
        assert(referenced(out@) =~= referenced(before) + seq![*v]);
        return;
    }
    assert(rest[0] == segs@[from as int]@);
    assert(rest.drop_first() =~= seg_views(segs@).subrange(from + 1, segs@.len() as int));
    match v {
        JsonValue::Object(o) => {
            collect_member(o, segs, from, out);
        },
        JsonValue::Array(a) => {
            match array_index(&segs[from]) {
                Some(ix) => {
                    if ix < a.len() {
                        collect_values(&a[ix], segs, from + 1, out);
                    } else {
                        assert(referenced(out@) =~= referenced(out@) + Seq::<JsonValue>::empty());
                    }
                },
                None => {
                    collect_items(a, segs, from, out);
                },
            }
        },
        _ => {
            assert(referenced(out@) =~= referenced(out@) + Seq::<JsonValue>::empty());
        },
    }
}

fn collect_member<'a>(fields: &'a Vec<(String, JsonValue)>, segs: &Vec<String>, from: usize, out: &mut Vec<&'a JsonValue>)
    requires
        from < segs@.len(),
    ensures
        referenced(final(out)@) == referenced(old(out)@) + member_values(
            fields@,
            seg_views(segs@).subrange(from as int, segs@.len() as int),
        ),
    decreases fields@, 0nat,
{
    let ghost rest = seg_views(segs@).subrange(from as int, segs@.len() as int);
    assert(rest[0] == segs@[from as int]@);
    assert(rest.drop_first() =~= seg_views(segs@).subrange(from + 1, segs@.len() as int));
    let n = segs.len();
    let mut i: usize = 0;
    assert(fields@.subrange(0, fields@.len() as int) =~= fields@);
    while i < fields.len()
        invariant
            i <= fields@.len(),
            n == segs@.len(),
            from < segs@.len(),
            rest == seg_views(segs@).subrange(from as int, segs@.len() as int),
            rest[0] == segs@[from as int]@,
            rest.drop_first() == seg_views(segs@).subrange(from + 1, segs@.len() as int),
            member_values(fields@, rest) == member_values(fields@.subrange(i as int, fields@.len() as int), rest),
            out@ == old(out)@,
        decreases fields.len() - i,
    {
        let ghost tail = fields@.subrange(i as int, fields@.len() as int);
        assert(tail[0] == fields@[i as int]);
        assert(tail.drop_first() =~= fields@.subrange(i + 1, fields@.len() as int));
        if same_text(&fields[i].0, &segs[from]) {
            collect_values(&fields[i].1, segs, from + 1, out);
            return;
        }
        i += 1;
    }
    assert(referenced(out@) =~= referenced(out@) + Seq::<JsonValue>::empty());
}

fn collect_items<'a>(items: &'a Vec<JsonValue>, segs: &Vec<String>, from: usize, out: &mut Vec<&'a JsonValue>)
    requires
        from <= segs@.len(),
    ensures
        referenced(final(out)@) == referenced(old(out)@) + items_values(
            items@,
            seg_views(segs@).subrange(from as int, segs@.len() as int),
        ),
    decreases items@, 0nat,
{
    let ghost rest = seg_views(segs@).subrange(from as int, segs@.len() as int);
    let ghost start = referenced(out@);
    let mut i: usize = 0;
    assert(referenced(out@) =~= start + items_values(items@.subrange(0, 0), rest));
    while i < items.len()
        invariant
            i <= items@.len(),
            from <= segs@.len(),
            rest == seg_views(segs@).subrange(from as int, segs@.len() as int),
            start == referenced(old(out)@),
            referenced(out@) == start + items_values(items@.subrange(0, i as int), rest),
        decreases items.len() - i,
    {
        let ghost before = referenced(out@);
        collect_values(&items[i], segs, from, out);
        proof {
            let p = items@.subrange(0, i + 1);
            assert(p.drop_last() =~= items@.subrange(0, i as int));
            assert(p.last() == items@[i as int]);
            assert(items_values(p, rest) == items_values(items@.subrange(0, i as int), rest) + path_values(items@[i as int], rest));
            assert(referenced(out@) =~= start + items_values(p, rest));
        }
        i += 1;
    }
    assert(items@.subrange(0, items@.len() as int) =~= items@);
}

/// What a path finds in a record: the member named by the whole path when
/// there is one; else, when the member named by the first segment exists,
/// the values that the other segments reach from it.
pub fn field_value<'a>(values: &'a Vec<(String, JsonValue)>, path: &str) -> (r: PathMatch<'a>)
    ensures
        ({
            let found = path_found(values@, path@);
            match r {
                PathMatch::Missing => found.len() == 0,
                PathMatch::One(x) => found.len() == 1 && *x == found[0],
                PathMatch::Many(xs) => found.len() > 1 && referenced(xs@) == found,
            }
        }),
{
    if let Some(v) = member(values, path) {
        return PathMatch::One(v);
    }
    let segs = split_path(path);
    let first = match member(values, &segs[0]) {
        Some(v) => v,
        None => {
            return PathMatch::Missing;
        },
    };
    let mut found: Vec<&'a JsonValue> = Vec::new();
    collect_values(first, &segs, 1, &mut found);
    proof {
        assert(seg_views(segs@)[0] == segs@[0]@);
        assert(seg_views(segs@).subrange(1, segs@.len() as int) =~= segments(path@).drop_first());
        assert(referenced(Seq::<&JsonValue>::empty()) =~= Seq::<JsonValue>::empty());
    }
    if found.len() == 0 {
        PathMatch::Missing
    } else if found.len() == 1 {
        let one = found[0];
        PathMatch::One(one)
    } else {
        PathMatch::Many(found)
    }
}

/// The members that a list of member references refers to.
pub open spec fn members_of(values: Seq<&(String, JsonValue)>) -> Seq<(String, JsonValue)> {
    values.map_values(|m: &(String, JsonValue)| *m)
}

/// The value of the first member named `key` among referenced members.
fn member_in<'a>(fields: &Vec<&'a (String, JsonValue)>, key: &str) -> (r: Option<&'a JsonValue>)
    ensures
        match member_of(members_of(fields@), key@) {
            Some(v) => r matches Some(x) && *x == v,
            None => r is None,
        },
{
    let ghost all = members_of(fields@);
    let mut i: usize = 0;
    assert(all.subrange(0, all.len() as int) =~= all);
    while i < fields.len()
        invariant
            all == members_of(fields@),
            i <= fields@.len(),
            member_of(all, key@) == member_of(all.subrange(i as int, all.len() as int), key@),
        decreases fields.len() - i,
    {
        let ghost rest = all.subrange(i as int, all.len() as int);
        assert(rest[0] == all[i as int]);
        assert(rest.drop_first() =~= all.subrange(i + 1, all.len() as int));
        if same_text(&fields[i].0, key) {
            return Some(&fields[i].1);
        }
        i += 1;
    }
    None
}

/// What a path finds in a record given as references to its members.
pub fn field_value_in<'a>(values: &Vec<&'a (String, JsonValue)>, path: &str) -> (r: PathMatch<'a>)
    ensures
        ({
            let found = path_found(members_of(values@), path@);
            match r {
                PathMatch::Missing => found.len() == 0,
                PathMatch::One(x) => found.len() == 1 && *x == found[0],
                PathMatch::Many(xs) => found.len() > 1 && referenced(xs@) == found,
            }
        }),
{
    if let Some(v) = member_in(values, path) {
        return PathMatch::One(v);
    }
    let segs = split_path(path);
    let first = match member_in(values, &segs[0]) {
        Some(v) => v,
        None => {
            return PathMatch::Missing;
        },
    };
    let mut found: Vec<&'a JsonValue> = Vec::new();
    collect_values(first, &segs, 1, &mut found);
    proof {
        assert(seg_views(segs@)[0] == segs@[0]@);
        assert(seg_views(segs@).subrange(1, segs@.len() as int) =~= segments(path@).drop_first());
        assert(referenced(Seq::<&JsonValue>::empty()) =~= Seq::<JsonValue>::empty());
    }
    if found.len() == 0 {
        PathMatch::Missing
    } else if found.len() == 1 {
        let one = found[0];
        PathMatch::One(one)
    } else {
        PathMatch::Many(found)
    }
}

/// Segments joined back with a '.' between each two.
pub open spec fn joined(segs: Seq<Seq<char>>) -> Seq<char>
    decreases segs.len(),
{
    if segs.len() == 0 {
        Seq::empty()
    } else if segs.len() == 1 {
        segs[0]
    } else {
        segs[0] + seq!['.'] + joined(segs.drop_first())
    }
}

/// Splitting a path at its dots loses nothing: joining the segments with
/// dots gives the path back, and no segment holds a dot.
pub proof fn law_segments_join_back_to_the_path(path: Seq<char>)
    ensures
        joined(segments(path)) == path,
        segments(path).len() >= 1,
        forall|i: int, j: int| 0 <= i < segments(path).len() && 0 <= j < segments(path)[i].len() ==> #[trigger] segments(
            path,
        )[i][j] != '.',
    decreases path.len(),
{
    lemma_first_dot(path);
    match first_dot(path) {
        Some(d) => {
            let head = path.subrange(0, d);
            let tail = path.subrange(d + 1, path.len() as int);
            law_segments_join_back_to_the_path(tail);
            let segs = segments(path);
            assert(segs == seq![head] + segments(tail));
            assert(segs.drop_first() =~= segments(tail));
            assert(segs.len() >= 2);
            assert(joined(segs) == head + seq!['.'] + joined(segments(tail)));
            assert(head + seq!['.'] + tail =~= path);
            assert forall|i: int, j: int| 0 <= i < segs.len() && 0 <= j < segs[i].len() implies #[trigger] segs[i][j] != '.' by {
                if i > 0 {
                    assert(segs[i] == segments(tail)[i - 1]);
                } else {
                    assert(segs[0][j] == path[j]);
                }
            }
        },
        None => {
            assert(segments(path) == seq![path]);
        },
    }
}

/// What a path finds in a joined row, whose members are named "table.field":
/// the member named by the whole path when there is one; else, for a path
/// "table.first.rest", what "rest" reaches from the member "table.first".
pub open spec fn qualified_found(values: Seq<(String, JsonValue)>, path: Seq<char>) -> Seq<JsonValue> {
    match member_of(values, path) {
        Some(v) => seq![v],
        None => match first_dot(path) {
            Some(i) => {
                let table = path.subrange(0, i);
                let segs = segments(path.subrange(i + 1, path.len() as int));
                match member_of(values, table + seq!['.'] + segs[0]) {
                    Some(root) => path_values(root, segs.drop_first()),
                    None => Seq::empty(),
                }
            },
            None => Seq::empty(),
        },
    }
}

/// The position of the first '.' of `s`.
fn find_dot(s: &str) -> (r: Option<usize>)
    ensures
        match first_dot(s@) {
            Some(i) => r == Some(i as usize) && 0 <= i < s@.len(),
            None => r is None,
        },
{
    let chars = chars_of(s);
    let mut i: usize = 0;
    while i < chars.len()
        invariant
            chars@ == s@,
            i <= chars@.len(),
            forall|j: int| 0 <= j < i ==> chars@[j] != '.',
        decreases chars.len() - i,
    {
        if chars[i] == '.' {
            proof {
                lemma_first_dot_at(s@, i as int);
            }
            return Some(i);
        }
        i += 1;
    }
    proof {
        lemma_first_dot_at(s@, i as int);
    }
    None
}

/// What a path finds in a joined row: the member named by the whole path
/// when there is one; else, for a path "table.first.rest", what "rest"
/// reaches from the member "table.first".
pub fn qualified_value<'a>(values: &'a Vec<(String, JsonValue)>, path: &str) -> (r: PathMatch<'a>)
    ensures
        ({
            let found = qualified_found(values@, path@);
            match r {
                PathMatch::Missing => found.len() == 0,
                PathMatch::One(x) => found.len() == 1 && *x == found[0],
                PathMatch::Many(xs) => found.len() > 1 && referenced(xs@) == found,
            }
        }),
{
    if let Some(v) = member(values, path) {
        return PathMatch::One(v);
    }
    let dot = match find_dot(path) {
        Some(d) => d,
        None => {
            return PathMatch::Missing;
        },
    };
    let n = path.unicode_len();
    let table = substring(path, 0, dot);
    let field_path = substring(path, dot + 1, n);
    let segs = split_path(&field_path);
    let key = concat(&concat(&table, "."), &segs[0]);
    proof {
        reveal_strlit(".");
        assert(seg_views(segs@)[0] == segs@[0]@);
        assert(key@ =~= table@ + seq!['.'] + segments(field_path@)[0]);
    }
    let root = match member(values, &key) {
        Some(v) => v,
        None => {
            return PathMatch::Missing;
        },
    };
    let mut found: Vec<&'a JsonValue> = Vec::new();
    collect_values(root, &segs, 1, &mut found);
    proof {
        assert(seg_views(segs@).subrange(1, segs@.len() as int) =~= segments(field_path@).drop_first());
        assert(referenced(Seq::<&JsonValue>::empty()) =~= Seq::<JsonValue>::empty());
    }
    if found.len() == 0 {
        PathMatch::Missing
    } else if found.len() == 1 {
        let one = found[0];
        PathMatch::One(one)
    } else {
        PathMatch::Many(found)
    }
}

} // verus!
