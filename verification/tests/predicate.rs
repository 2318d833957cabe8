use serde_json::{Number, Value};

type Members = serde_json::Map<String, Value>;
use std::cmp::Ordering;
use txbase::query::filter::JsonValue;
use txbase::query::join_merge::KeyOrder;
use txbase::query::path::PathMatch;
use txbase::query::predicate::{matches_condition, matches_filter, same_json};
use txbase::query::request::QueryError;

fn to_json(value: &Value) -> JsonValue {
    match value {
        Value::Null => JsonValue::Null,
        Value::Bool(b) => JsonValue::Bool(*b),
        Value::Number(n) => JsonValue::Number(n.to_string()),
        Value::String(s) => JsonValue::String(s.clone()),
        Value::Array(items) => JsonValue::Array(items.iter().map(to_json).collect()),
        Value::Object(members) => JsonValue::Object(to_members(members)),
    }
}

fn to_members(members: &Members) -> Vec<(String, JsonValue)> {
    members.iter().map(|(k, v)| (k.clone(), to_json(v))).collect()
}

/// A stand-in scalar order: integers exactly, other numbers as floats,
/// strings and booleans by their own order.
fn scalar_order(left: &JsonValue, right: &JsonValue) -> Option<KeyOrder> {
    let ordering = match (left, right) {
        (JsonValue::Number(a), JsonValue::Number(b)) => match (a.parse::<i128>(), b.parse::<i128>()) {
            (Ok(x), Ok(y)) => Some(x.cmp(&y)),
            _ => a.parse::<f64>().ok()?.partial_cmp(&b.parse::<f64>().ok()?),
        },
        (JsonValue::String(a), JsonValue::String(b)) => Some(a.cmp(b)),
        (JsonValue::Bool(a), JsonValue::Bool(b)) => Some(a.cmp(b)),
        _ => None,
    }?;
    Some(match ordering {
        Ordering::Less => KeyOrder::Less,
        Ordering::Equal => KeyOrder::Equal,
        Ordering::Greater => KeyOrder::Greater,
    })
}

fn no_expressions(_values: &Vec<&(String, JsonValue)>, _e: &JsonValue) -> Result<bool, QueryError> {
    Ok(false)
}

fn matches(record: &Members, filter: &Members) -> Result<bool, QueryError> {
    let members = to_members(record);
    let refs: Vec<&(String, JsonValue)> = members.iter().collect();
    matches_filter(&refs, &to_members(filter), &scalar_order, &no_expressions)
}

fn object(entries: Vec<(&str, Value)>) -> Value {
    let mut map = Members::new();
    for (k, v) in entries {
        map.insert(k.to_owned(), v);
    }
    Value::Object(map)
}

fn num(n: i64) -> Value {
    Value::from(n)
}

#[test]
fn scalar_predicates_match_the_independent_reference_matrix() {
    let records = generated_records();
    let filters = generated_filters();
    assert!(records.len() * filters.len() >= 1_000);

    for (filter_index, filter) in filters.iter().enumerate() {
        let filter = filter.as_object().expect("generated filter is an object");
        for (record_index, record) in records.iter().enumerate() {
            let actual = matches(record, filter)
                .unwrap_or_else(|error| panic!("generated filter {filter_index} is invalid: {error:?}"));
            assert_eq!(
                actual,
                reference_filter(record, filter),
                "filter {filter_index} {filter:?} disagreed for record {record_index}: {record:?}"
            );
        }
    }
}

fn generated_records() -> Vec<Members> {
    let mut records = Vec::new();
    for number in -4_i64..=4 {
        for active in [false, true] {
            let mut fields = Members::new();
            fields.insert("N".into(), num(number));
            fields.insert("ACTIVE".into(), Value::Bool(active));
            fields.insert("LABEL".into(), Value::from(if active { "ALICE" } else { "Alice" }));
            match number.rem_euclid(3) {
                0 => {
                    fields.insert("OPTIONAL".into(), Value::Null);
                }
                1 => {
                    fields.insert("OPTIONAL".into(), num(number));
                }
                _ => {}
            }
            records.push(fields);
        }
    }
    records
}

fn generated_filters() -> Vec<Value> {
    let mut filters = Vec::new();
    for operator in ["$eq", "$ne", "$gt", "$gte", "$lt", "$lte"] {
        for expected in [num(-5), num(-2), num(0), num(2), num(5), Value::Number(Number::from_f64(1.5).unwrap())] {
            filters.push(field_filter("N", operator, expected));
        }
    }
    for candidates in [
        Value::Array(vec![]),
        Value::Array(vec![num(-4), num(-1), num(4)]),
        Value::Array(vec![num(2), num(5)]),
        Value::Array(vec![Value::from("other"), Value::Null]),
    ] {
        for operator in ["$in", "$nin"] {
            filters.push(field_filter("N", operator, candidates.clone()));
        }
    }
    for operator in ["$eq", "$ne"] {
        for expected in [Value::Null, num(-3), num(0), num(4)] {
            filters.push(field_filter("OPTIONAL", operator, expected));
        }
        for expected in [Value::Bool(false), Value::Bool(true)] {
            filters.push(field_filter("ACTIVE", operator, expected));
        }
        for expected in [Value::from("Alice"), Value::from("ALICE"), Value::from("guest")] {
            filters.push(field_filter("LABEL", operator, expected));
        }
    }
    for operator in ["$in", "$nin"] {
        filters.push(field_filter("LABEL", operator, Value::Array(vec![Value::from("ALICE"), Value::from("guest")])));
    }
    filters.extend([
        object(vec![(
            "$and",
            Value::Array(vec![object(vec![("N", object(vec![("$gte", num(-2))]))]), object(vec![("ACTIVE", Value::Bool(true))])]),
        )]),
        object(vec![(
            "$or",
            Value::Array(vec![object(vec![("N", object(vec![("$lt", num(-2))]))]), object(vec![("ACTIVE", Value::Bool(true))])]),
        )]),
        object(vec![("$not", object(vec![("N", object(vec![("$lt", num(0))]))]))]),
        object(vec![("$not", object(vec![("OPTIONAL", object(vec![("$eq", num(1))]))]))]),
    ]);
    filters
}

fn field_filter(field: &str, operator: &str, operand: Value) -> Value {
    let mut condition = Members::new();
    condition.insert(operator.into(), operand);
    let mut filter = Members::new();
    filter.insert(field.into(), Value::Object(condition));
    Value::Object(filter)
}

fn reference_filter(record: &Members, filter: &Members) -> bool {
    filter.iter().all(|(field, condition)| match field.as_str() {
        "$and" => condition.as_array().is_some_and(|clauses| {
            clauses.iter().all(|clause| clause.as_object().is_some_and(|clause| reference_filter(record, clause)))
        }),
        "$or" => condition.as_array().is_some_and(|clauses| {
            clauses.iter().any(|clause| clause.as_object().is_some_and(|clause| reference_filter(record, clause)))
        }),
        "$not" => condition.as_object().is_some_and(|clause| !reference_filter(record, clause)),
        _ => reference_condition(record.get(field), condition),
    })
}

fn reference_condition(actual: Option<&Value>, condition: &Value) -> bool {
    let Some(operators) = condition.as_object().filter(|object| object.keys().any(|key| key.starts_with('$'))) else {
        return actual.is_some_and(|actual| actual == condition);
    };
    operators.iter().all(|(operator, expected)| match operator.as_str() {
        "$eq" => actual.is_some_and(|actual| actual == expected),
        "$ne" => actual.is_none_or(|actual| actual != expected),
        "$gt" => reference_compare(actual, expected, Ordering::is_gt),
        "$gte" => reference_compare(actual, expected, Ordering::is_ge),
        "$lt" => reference_compare(actual, expected, Ordering::is_lt),
        "$lte" => reference_compare(actual, expected, Ordering::is_le),
        "$in" => expected.as_array().is_some_and(|candidates| {
            actual.is_some_and(|actual| candidates.iter().any(|candidate| candidate == actual))
        }),
        "$nin" => expected.as_array().is_some_and(|candidates| {
            actual.is_none_or(|actual| candidates.iter().all(|candidate| candidate != actual))
        }),
        "$not" => !reference_condition(actual, expected),
        _ => false,
    })
}

fn reference_compare(actual: Option<&Value>, expected: &Value, predicate: impl FnOnce(Ordering) -> bool) -> bool {
    let (Some(actual), Some(expected)) = (actual.and_then(Value::as_f64), expected.as_f64()) else {
        return false;
    };
    actual.partial_cmp(&expected).is_some_and(predicate)
}

#[test]
fn executes_logical_and_membership_predicates() {
    let filter = object(vec![(
        "$and",
        Value::Array(vec![
            object(vec![("AGE", object(vec![("$in", Value::Array(vec![num(29)]))]))]),
            object(vec![("ACTIVE", Value::Bool(true))]),
        ]),
    )]);
    let filter = filter.as_object().unwrap();
    let alice = object(vec![("NAME", Value::from("Alice")), ("AGE", num(29)), ("ACTIVE", Value::Bool(true))]);
    let bob = object(vec![("NAME", Value::from("Bob")), ("AGE", num(42)), ("ACTIVE", Value::Bool(true))]);
    let count = [alice, bob].iter().filter(|record| matches(record.as_object().unwrap(), filter).unwrap()).count();
    assert_eq!(count, 1);
}

#[test]
fn compares_large_integer_values_exactly() {
    let maximum = to_json(&Value::Number(Number::from(u64::MAX)));
    let condition = to_json(&object(vec![("$gt", Value::Number(Number::from(u64::MAX - 1)))]));
    let field = "N".to_owned();
    assert!(matches_condition(&PathMatch::One(&maximum), &condition, &field, &scalar_order).unwrap());
}

#[test]
fn array_fields_match_by_element_and_operators_fail_on_bad_operands() {
    let members = to_members(object(vec![("TAGS", Value::Array(vec![Value::from("a"), Value::from("b")]))]).as_object().unwrap());
    let record: Vec<&(String, JsonValue)> = members.iter().collect();
    let filter = |v: Value| to_members(v.as_object().unwrap());
    let check = |f: Value| matches_filter(&record, &filter(f), &scalar_order, &no_expressions);
    assert_eq!(check(object(vec![("TAGS", Value::from("b"))])), Ok(true));
    assert_eq!(check(object(vec![("TAGS", object(vec![("$gt", Value::from("a"))]))])), Ok(true));
    assert_eq!(check(object(vec![("TAGS", object(vec![("$ne", Value::from("c"))]))])), Ok(true));
    assert_eq!(check(object(vec![("MISSING", object(vec![("$ne", Value::from("c"))]))])), Ok(true));
    assert_eq!(check(object(vec![("MISSING", object(vec![("$gt", Value::from("c"))]))])), Ok(false));
    assert!(check(object(vec![("TAGS", object(vec![("$in", Value::from("a"))]))])).is_err());
    assert!(check(object(vec![("TAGS", object(vec![("$regex", Value::from("a"))]))])).is_err());
    assert!(check(object(vec![("$and", Value::from(1))])).is_err());
    assert!(check(object(vec![("$or", Value::Array(vec![Value::from(1)]))])).is_err());
    assert!(check(object(vec![("$not", Value::from(1))])).is_err());
    assert_eq!(check(object(vec![("$or", Value::Array(vec![]))])), Ok(false));
    assert_eq!(check(object(vec![("$and", Value::Array(vec![]))])), Ok(true));
    assert_eq!(
        matches_filter(&record, &filter(object(vec![("$expr", object(vec![]))])), &scalar_order, &|_: &Vec<&(String, JsonValue)>, _: &JsonValue| Ok(true)),
        Ok(true)
    );
    assert!(same_json(&to_json(&Value::from("x")), &to_json(&Value::from("x"))));
}
