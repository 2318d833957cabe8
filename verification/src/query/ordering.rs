//! Record order under a declared sort: each sort key compared in turn, a
//! descending key reversed, and the physical record number breaking ties.
use vstd::prelude::*;
use super::filter::JsonValue;
use super::join_merge::KeyOrder;

verus! {

/// The order read the other way round.
pub open spec fn reversed(o: KeyOrder) -> KeyOrder {
    match o {
        KeyOrder::Less => KeyOrder::Greater,
        KeyOrder::Equal => KeyOrder::Equal,
        KeyOrder::Greater => KeyOrder::Less,
    }
}

/// A key's order under its sort direction: `1` ascending, anything else descending.
pub open spec fn directed(o: KeyOrder, direction: i8) -> KeyOrder {
    if direction == 1 {
        o
    } else {
        reversed(o)
    }
}

/// How two record numbers compare.
pub open spec fn number_order(left: usize, right: usize) -> KeyOrder {
    if left < right {
        KeyOrder::Less
    } else if left == right {
        KeyOrder::Equal
    } else {
        KeyOrder::Greater
    }
}

/// The order of two records whose sort keys compare as `orders`, key by key,
/// under `directions`: the first key that differs decides, else the record
/// numbers do. Keys and directions pair up as far as both reach.
pub open spec fn sort_order(orders: Seq<KeyOrder>, directions: Seq<i8>, left: usize, right: usize) -> KeyOrder
    decreases orders.len(),
{
    if orders.len() == 0 || directions.len() == 0 {
        number_order(left, right)
    } else if orders[0] != KeyOrder::Equal {
        directed(orders[0], directions[0])
    } else {
        sort_order(orders.drop_first(), directions.drop_first(), left, right)
    }
}

/// Every key order read the other way round.
pub open spec fn all_reversed(orders: Seq<KeyOrder>) -> Seq<KeyOrder> {
    orders.map_values(|o: KeyOrder| reversed(o))
}

/// Orders two records by their sort keys, then by record number.
/// `orders[i]` is how the two records' values of the `i`-th sort field compare.
pub fn compare_sorted(orders: &Vec<KeyOrder>, directions: &Vec<i8>, left: usize, right: usize) -> (r: KeyOrder)
    ensures
        r == sort_order(orders@, directions@, left, right),
{
    let mut i: usize = 0;
    assert(orders@.subrange(0, orders@.len() as int) =~= orders@);
    assert(directions@.subrange(0, directions@.len() as int) =~= directions@);
    while i < orders.len() && i < directions.len()
        invariant
            i <= orders@.len(),
            i <= directions@.len(),
            sort_order(orders@, directions@, left, right) == sort_order(
                orders@.subrange(i as int, orders@.len() as int),
                directions@.subrange(i as int, directions@.len() as int),
                left,
                right,
            ),
        decreases orders.len() - i,
    {
        let ghost o = orders@.subrange(i as int, orders@.len() as int);
        let ghost d = directions@.subrange(i as int, directions@.len() as int);
        assert(o[0] == orders@[i as int] && d[0] == directions@[i as int]);
        match orders[i] {
            KeyOrder::Equal => {},
            KeyOrder::Less => {
                return if directions[i] == 1 {
                    KeyOrder::Less
                } else {
                    KeyOrder::Greater
                };
            },
            KeyOrder::Greater => {
                return if directions[i] == 1 {
                    KeyOrder::Greater
                } else {
                    KeyOrder::Less
                };
            },
        }
        assert(o.drop_first() =~= orders@.subrange(i + 1, orders@.len() as int));
        assert(d.drop_first() =~= directions@.subrange(i + 1, directions@.len() as int));
        i = i + 1;
    }
    if left < right {
        KeyOrder::Less
    } else if left == right {
        KeyOrder::Equal
    } else {
        KeyOrder::Greater
    }
}

/// The rank of a JSON value's kind, by which values that do not compare
/// directly are ordered: null, booleans, numbers, strings, arrays, objects.
pub open spec fn kind_rank(v: JsonValue) -> u8 {
    match v {
        JsonValue::Null => 0,
        JsonValue::Bool(_) => 1,
        JsonValue::Number(_) => 2,
        JsonValue::String(_) => 3,
        JsonValue::Array(_) => 4,
        JsonValue::Object(_) => 5,
    }
}

/// The rank of a JSON value's kind.
pub fn type_rank(value: &JsonValue) -> (r: u8)
    ensures
        r == kind_rank(*value),
{
    match value {
        JsonValue::Null => 0,
        JsonValue::Bool(_) => 1,
        JsonValue::Number(_) => 2,
        JsonValue::String(_) => 3,
        JsonValue::Array(_) => 4,
        JsonValue::Object(_) => 5,
    }
}

/// How two sort values compare: an absent value first; two present values
/// by `value_order`, how the values themselves compare where they do, else
/// by kind and then by `text_order`, how their JSON texts compare.
pub open spec fn sort_value_order(
    left: Option<JsonValue>,
    right: Option<JsonValue>,
    value_order: Option<KeyOrder>,
    text_order: KeyOrder,
) -> KeyOrder {
    match (left, right) {
        (Some(l), Some(r)) => match value_order {
            Some(o) => o,
            None => if kind_rank(l) < kind_rank(r) {
                KeyOrder::Less
            } else if kind_rank(l) > kind_rank(r) {
                KeyOrder::Greater
            } else {
                text_order
            },
        },
        (None, None) => KeyOrder::Equal,
        (None, Some(_)) => KeyOrder::Less,
        (Some(_), None) => KeyOrder::Greater,
    }
}

/// Compares two sort values, either of which may be absent from its record.
pub fn compare_for_sort(
    left: Option<&JsonValue>,
    right: Option<&JsonValue>,
    value_order: Option<KeyOrder>,
    text_order: KeyOrder,
) -> (r: KeyOrder)
    ensures
        r == sort_value_order(
            match left { Some(l) => Some(*l), None => None },
            match right { Some(v) => Some(*v), None => None },
            value_order,
            text_order,
        ),
{
    match (left, right) {
        (Some(l), Some(r)) => match value_order {
            Some(o) => o,
            None => {
                let a = type_rank(l);
                let b = type_rank(r);
                if a < b {
                    KeyOrder::Less
                } else if a > b {
                    KeyOrder::Greater
                } else {
                    text_order
                }
            },
        },
        (None, None) => KeyOrder::Equal,
        (None, Some(_)) => KeyOrder::Less,
        (Some(_), None) => KeyOrder::Greater,
    }
}

} // verus!
