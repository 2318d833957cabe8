//! Whether a record matches a filter: logical operators over clauses, and
//! per-field conditions of equality, membership, and order.
//!
//! How two values order is the scalar order of JSON values, which this
//! module takes as given (`order`), as it takes the evaluation of `$expr`
//! expressions (`expression`).
use vstd::prelude::*;
use super::filter::{is_dollar_name, starts_with_dollar, FilterProblem, FilterProblemView, JsonValue};
use super::join_merge::KeyOrder;
use super::join_pipeline::match_values;
use super::path::{field_value_in, members_of, path_found, referenced, PathMatch};
use super::projection::{items_data, json_of, lemma_items_data, lemma_members_data, members_data, JsonData};
use super::request::{QueryError, QueryErrorView};
use crate::text::same_text;

verus! {

/// Whether two values hold the same data.
pub fn same_json(a: &JsonValue, b: &JsonValue) -> (r: bool)
    ensures
        r == (json_of(*a) == json_of(*b)),
    decreases a, 1nat,
{
    match (a, b) {
        (JsonValue::Null, JsonValue::Null) => true,
        (JsonValue::Bool(x), JsonValue::Bool(y)) => *x == *y,
        (JsonValue::Number(x), JsonValue::Number(y)) => same_text(x, y),
        (JsonValue::String(x), JsonValue::String(y)) => same_text(x, y),
        (JsonValue::Array(x), JsonValue::Array(y)) => same_items(x, y),
        (JsonValue::Object(x), JsonValue::Object(y)) => same_members(x, y),
        _ => false,
    }
}

/// Whether two lists of values hold the same data, item by item.
fn same_items(x: &Vec<JsonValue>, y: &Vec<JsonValue>) -> (r: bool)
    ensures
        r == (items_data(x@) == items_data(y@)),
    decreases x@, 0nat,
{
    proof {
        lemma_items_data(x@);
        lemma_items_data(y@);
    }
    if x.len() != y.len() {
        return false;
    }
    let mut i: usize = 0;
    while i < x.len()
        invariant
            x@.len() == y@.len(),
            i <= x@.len(),
            items_data(x@).len() == x@.len(),
            items_data(y@).len() == y@.len(),
            forall|j: int| 0 <= j < x@.len() ==> #[trigger] items_data(x@)[j] == json_of(x@[j]),
            forall|j: int| 0 <= j < y@.len() ==> #[trigger] items_data(y@)[j] == json_of(y@[j]),
            forall|j: int| 0 <= j < i ==> json_of(#[trigger] x@[j]) == json_of(y@[j]),
        decreases x.len() - i,
    {
        if !same_json(&x[i], &y[i]) {
            assert(items_data(x@)[i as int] != items_data(y@)[i as int]);
            return false;
        }
        i += 1;
    }
    assert(items_data(x@) =~= items_data(y@));
    true
}

/// Whether two lists of members hold the same names and data, in order.
fn same_members(x: &Vec<(String, JsonValue)>, y: &Vec<(String, JsonValue)>) -> (r: bool)
    ensures
        r == (members_data(x@) == members_data(y@)),
    decreases x@, 0nat,
{
    proof {
        lemma_members_data(x@);
        lemma_members_data(y@);
    }
    if x.len() != y.len() {
        return false;
    }
    let mut i: usize = 0;
    while i < x.len()
        invariant
            x@.len() == y@.len(),
            i <= x@.len(),
            members_data(x@).len() == x@.len(),
            members_data(y@).len() == y@.len(),
            forall|j: int| 0 <= j < x@.len() ==> #[trigger] members_data(x@)[j] == (x@[j].0@, json_of(x@[j].1)),
            forall|j: int| 0 <= j < y@.len() ==> #[trigger] members_data(y@)[j] == (y@[j].0@, json_of(y@[j].1)),
            forall|j: int| 0 <= j < i ==> (#[trigger] x@[j]).0@ == y@[j].0@ && json_of(x@[j].1) == json_of(y@[j].1),
        decreases x.len() - i,
    {
        if !same_text(&x[i].0, &y[i].0) || !same_json(&x[i].1, &y[i].1) {
            assert(members_data(x@)[i as int] != members_data(y@)[i as int]);
            return false;
        }
        i += 1;
    }
    assert(members_data(x@) =~= members_data(y@));
    true
}

/// The outcome of matching: whether the record matches, or why the filter
/// cannot be applied.
pub type Outcome = Result<bool, QueryErrorView>;

/// An outcome by its view.
pub open spec fn outcome_of(r: Result<bool, QueryError>) -> Outcome {
    match r {
        Ok(b) => Ok(b),
        Err(e) => Err(e@),
    }
}

/// The error of a filter problem.
pub open spec fn problem(p: FilterProblemView) -> Outcome {
    Err(QueryErrorView::Filter(p))
}

/// What a field finds, taken as one value: nothing, the one value found, or
/// the array of the several values found.
pub open spec fn actual_of(found: Seq<JsonValue>) -> Option<JsonData> {
    if found.len() == 0 {
        None
    } else if found.len() == 1 {
        Some(json_of(found[0]))
    } else {
        Some(JsonData::Array(items_data(found)))
    }
}

/// An actual value matches an expected one by equality: it is that value,
/// or an array that holds it.
pub open spec fn equality_holds(actual: JsonData, expected: JsonData) -> bool {
    actual == expected || (actual matches JsonData::Array(items) && items.contains(expected))
}

/// What a field finds matches `expected` by equality.
pub open spec fn equals(found: Seq<JsonValue>, expected: JsonValue) -> bool {
    actual_of(found) matches Some(a) && equality_holds(a, json_of(expected))
}

/// The values that an order comparison runs over: the items of an array
/// found, each of several values found, or the one value found.
pub open spec fn compared_values(found: Seq<JsonValue>) -> Seq<JsonValue> {
    if found.len() == 1 {
        match found[0] {
            JsonValue::Array(items) => items@,
            _ => found,
        }
    } else {
        found
    }
}

/// An order satisfies a comparison operator: `$gt`, `$gte`, `$lt`, and
/// otherwise `$lte`.
pub open spec fn order_holds(op: Seq<char>, o: KeyOrder) -> bool {
    if op == "$gt"@ {
        o == KeyOrder::Greater
    } else if op == "$gte"@ {
        o != KeyOrder::Less
    } else if op == "$lt"@ {
        o == KeyOrder::Less
    } else {
        o != KeyOrder::Greater
    }
}

/// Some value compared orders against `expected` as the operator asks.
pub open spec fn comparison_holds(
    found: Seq<JsonValue>,
    expected: JsonValue,
    op: Seq<char>,
    ord: spec_fn(JsonValue, JsonValue) -> Option<KeyOrder>,
) -> bool {
    exists|i: int|
        0 <= i < compared_values(found).len() && (ord(#[trigger] compared_values(found)[i], expected) matches Some(o)
            && order_holds(op, o))
}

/// A comparison operator.
pub open spec fn is_order_operator(op: Seq<char>) -> bool {
    op == "$gt"@ || op == "$gte"@ || op == "$lt"@ || op == "$lte"@
}

/// Whether what a field finds meets its condition: an object whose keys
/// include an operator is a list of operator conditions; any other
/// condition asks for equality.
pub open spec fn condition_outcome(
    found: Seq<JsonValue>,
    condition: JsonValue,
    field: Seq<char>,
    ord: spec_fn(JsonValue, JsonValue) -> Option<KeyOrder>,
) -> Outcome
    decreases condition, 1nat,
{
    match condition {
        JsonValue::Object(ops) => if exists|i: int| 0 <= i < ops@.len() && starts_with_dollar(#[trigger] ops@[i].0@) {
            operators_outcome(found, ops@, field, ord)
        } else {
            Ok(equals(found, condition))
        },
        _ => Ok(equals(found, condition)),
    }
}

/// Whether what a field finds meets each operator condition, in order: the
/// first that fails or cannot be applied decides.
pub open spec fn operators_outcome(
    found: Seq<JsonValue>,
    ops: Seq<(String, JsonValue)>,
    field: Seq<char>,
    ord: spec_fn(JsonValue, JsonValue) -> Option<KeyOrder>,
) -> Outcome
    decreases ops, 0nat,
{
    if ops.len() == 0 {
        Ok(true)
    } else {
        let op = ops[0].0@;
        let operand = ops[0].1;
        let here: Outcome = if op == "$eq"@ {
            Ok(equals(found, operand))
        } else if op == "$ne"@ {
            Ok(!equals(found, operand))
        } else if is_order_operator(op) {
            Ok(comparison_holds(found, operand, op, ord))
        } else if op == "$in"@ || op == "$nin"@ {
            match operand {
                JsonValue::Array(items) => {
                    let some = exists|j: int| 0 <= j < items@.len() && #[trigger] equals(found, items@[j]);
                    Ok(if op == "$in"@ { some } else { !some })
                },
                _ => problem(FilterProblemView::MustBeArray(op)),
            }
        } else if op == "$not"@ {
            match condition_outcome(found, operand, field, ord) {
                Ok(b) => Ok(!b),
                Err(e) => Err(e),
            }
        } else {
            problem(FilterProblemView::UnsupportedOperator { operator: op, at: field })
        };
        match here {
            Ok(true) => operators_outcome(found, ops.drop_first(), field, ord),
            _ => here,
        }
    }
}

/// Whether a record matches a filter: each clause in order must hold, and
/// the first that fails or cannot be applied decides. `$and` and `$or`
/// take an array of filters, `$not` a filter, `$expr` an expression; any
/// other name is a field path with its condition.
pub open spec fn filter_outcome(
    values: Seq<(String, JsonValue)>,
    filter: Seq<(String, JsonValue)>,
    ord: spec_fn(JsonValue, JsonValue) -> Option<KeyOrder>,
    ex: spec_fn(JsonValue) -> Outcome,
) -> Outcome
    decreases filter, 0nat,
{
    if filter.len() == 0 {
        Ok(true)
    } else {
        let field = filter[0].0@;
        let condition = filter[0].1;
        let here: Outcome = if field == "$and"@ || field == "$or"@ {
            match condition {
                JsonValue::Array(items) => clauses_outcome(values, items@, field, ord, ex),
                _ => problem(FilterProblemView::MustBeArray(field)),
            }
        } else if field == "$not"@ {
            match condition {
                JsonValue::Object(o) => match filter_outcome(values, o@, ord, ex) {
                    Ok(b) => Ok(!b),
                    Err(e) => Err(e),
                },
                _ => problem(FilterProblemView::MustBeObject(field)),
            }
        } else if field == "$expr"@ {
            ex(condition)
        } else {
            condition_outcome(path_found(values, field), condition, field, ord)
        };
        match here {
            Ok(true) => filter_outcome(values, filter.drop_first(), ord, ex),
            _ => here,
        }
    }
}

/// Whether a record matches the clauses of `$and` (all of them) or `$or`
/// (any of them); every clause is evaluated, and the first that cannot be
/// applied decides.
pub open spec fn clauses_outcome(
    values: Seq<(String, JsonValue)>,
    items: Seq<JsonValue>,
    op: Seq<char>,
    ord: spec_fn(JsonValue, JsonValue) -> Option<KeyOrder>,
    ex: spec_fn(JsonValue) -> Outcome,
) -> Outcome
    decreases items, 0nat,
{
    if items.len() == 0 {
        Ok(op == "$and"@)
    } else {
        match items[0] {
            JsonValue::Object(o) => match filter_outcome(values, o@, ord, ex) {
                Err(e) => Err(e),
                Ok(b) => match clauses_outcome(values, items.drop_first(), op, ord, ex) {
                    Err(e) => Err(e),
                    Ok(c) => Ok(if op == "$and"@ { b && c } else { b || c }),
                },
            },
            _ => problem(FilterProblemView::ClauseMustBeObject(op)),
        }
    }
}

/// The order that `order` gives two values.
pub open spec fn order_of<F: Fn(&JsonValue, &JsonValue) -> Option<KeyOrder>>(order: F) -> spec_fn(JsonValue, JsonValue) -> Option<KeyOrder> {
    |a: JsonValue, b: JsonValue| choose|o: Option<KeyOrder>| order.ensures((&a, &b), o)
}

/// `order` may be asked of any two values and answers each pair one way.
pub open spec fn orders_consistently<F: Fn(&JsonValue, &JsonValue) -> Option<KeyOrder>>(order: F) -> bool {
    &&& forall|a: &JsonValue, b: &JsonValue| #[trigger] order.requires((a, b))
    &&& forall|a: &JsonValue, b: &JsonValue, o: Option<KeyOrder>, p: Option<KeyOrder>|
        #[trigger] order.ensures((a, b), o) && #[trigger] order.ensures((a, b), p) ==> o == p
}

/// What `expression` gives an expression over a record with the members
/// `values`.
pub open spec fn expression_of<G: Fn(&Vec<&(String, JsonValue)>, &JsonValue) -> Result<bool, QueryError>>(
    expression: G,
    values: Seq<(String, JsonValue)>,
) -> spec_fn(JsonValue) -> Outcome {
    |c: JsonValue| outcome_of(choose|r: Result<bool, QueryError>| #[trigger] answers_with(expression, values, c, r))
}

/// `expression` answers `r` for the expression `c` over some record with
/// the members `values`.
pub open spec fn answers_with<G: Fn(&Vec<&(String, JsonValue)>, &JsonValue) -> Result<bool, QueryError>>(
    expression: G,
    values: Seq<(String, JsonValue)>,
    c: JsonValue,
    r: Result<bool, QueryError>,
) -> bool {
    exists|v: &Vec<&(String, JsonValue)>| members_of(v@) == values && #[trigger] expression.ensures((v, &c), r)
}

/// `expression` may be asked of any record and expression, and answers by
/// the record's members alone, each one way.
pub open spec fn evaluates_consistently<G: Fn(&Vec<&(String, JsonValue)>, &JsonValue) -> Result<bool, QueryError>>(
    expression: G,
) -> bool {
    &&& forall|v: &Vec<&(String, JsonValue)>, c: &JsonValue| #[trigger] expression.requires((v, c))
    &&& forall|v: &Vec<&(String, JsonValue)>, w: &Vec<&(String, JsonValue)>, c: &JsonValue, r: Result<bool, QueryError>, t: Result<bool, QueryError>|
        members_of(v@) == members_of(w@) && #[trigger] expression.ensures((v, c), r) && #[trigger] expression.ensures((w, c), t) ==> r == t
}

/// Asks `order` how two values order.
fn ask_order<F: Fn(&JsonValue, &JsonValue) -> Option<KeyOrder>>(order: &F, a: &JsonValue, b: &JsonValue) -> (o: Option<KeyOrder>)
    requires
        orders_consistently(*order),
    ensures
        o == (order_of(*order))(*a, *b),
{
    let o = order(a, b);
    proof {
        let c = choose|p: Option<KeyOrder>| order.ensures((a, b), p);
        assert(order.ensures((a, b), c));
    }
    o
}

/// Asks `expression` what an expression over a record comes to.
fn ask_expression<G: Fn(&Vec<&(String, JsonValue)>, &JsonValue) -> Result<bool, QueryError>>(
    expression: &G,
    values: &Vec<&(String, JsonValue)>,
    e: &JsonValue,
) -> (r: Result<bool, QueryError>)
    requires
        evaluates_consistently(*expression),
    ensures
        outcome_of(r) == (expression_of(*expression, members_of(values@)))(*e),
{
    let r = expression(values, e);
    proof {
        assert(expression.ensures((values, e), r));
        assert(answers_with(*expression, members_of(values@), *e, r));
        let c = choose|t: Result<bool, QueryError>| #[trigger] answers_with(*expression, members_of(values@), *e, t);
        let w = choose|v: &Vec<&(String, JsonValue)>| members_of(v@) == members_of(values@) && #[trigger] expression.ensures((v, e), c);
        assert(expression.ensures((w, e), c));
    }
    r
}

/// Whether an order satisfies the comparison operator `op`.
fn order_satisfies(op: &String, o: KeyOrder) -> (r: bool)
    ensures
        r == order_holds(op@, o),
{
    if same_text(op, "$gt") {
        o == KeyOrder::Greater
    } else if same_text(op, "$gte") {
        o != KeyOrder::Less
    } else if same_text(op, "$lt") {
        o == KeyOrder::Less
    } else {
        o != KeyOrder::Greater
    }
}

/// Whether one of `items` holds the same data as `expected`.
fn holds_item(items: &Vec<JsonValue>, expected: &JsonValue) -> (r: bool)
    ensures
        r == items_data(items@).contains(json_of(*expected)),
{
    proof {
        lemma_items_data(items@);
    }
    let mut i: usize = 0;
    while i < items.len()
        invariant
            i <= items@.len(),
            items_data(items@).len() == items@.len(),
            forall|j: int| 0 <= j < items@.len() ==> #[trigger] items_data(items@)[j] == json_of(items@[j]),
            forall|j: int| 0 <= j < i ==> json_of(#[trigger] items@[j]) != json_of(*expected),
        decreases items.len() - i,
    {
        if same_json(&items[i], expected) {
            assert(items_data(items@)[i as int] == json_of(*expected));
            return true;
        }
        i += 1;
    }
    false
}

/// Whether what a path found matches `expected` by equality.
pub fn equality_matches(actual: &PathMatch, expected: &JsonValue) -> (r: bool)
    requires
        actual matches PathMatch::Many(xs) ==> xs@.len() > 1,
    ensures
        r == equals(match_values(*actual), *expected),
{
    match actual {
        PathMatch::Missing => false,
        PathMatch::One(v) => {
            if same_json(v, expected) {
                return true;
            }
            match v {
                JsonValue::Array(items) => holds_item(items, expected),
                _ => false,
            }
        },
        PathMatch::Many(xs) => {
            let ghost found = referenced(xs@);
            proof {
                lemma_items_data(found);
            }
            let mut whole = false;
            if let JsonValue::Array(ys) = expected {
                proof {
                    lemma_items_data(ys@);
                }
                if ys.len() == xs.len() {
                    let mut i: usize = 0;
                    whole = true;
                    while i < xs.len()
                        invariant
                            i <= xs@.len(),
                            ys@.len() == xs@.len(),
                            found == referenced(xs@),
                            items_data(found).len() == found.len(),
                            forall|j: int| 0 <= j < found.len() ==> #[trigger] items_data(found)[j] == json_of(found[j]),
                            items_data(ys@).len() == ys@.len(),
                            forall|j: int| 0 <= j < ys@.len() ==> #[trigger] items_data(ys@)[j] == json_of(ys@[j]),
                            whole == forall|j: int| 0 <= j < i ==> json_of(#[trigger] found[j]) == json_of(ys@[j]),
                        decreases xs.len() - i,
                    {
                        assert(found[i as int] == *xs@[i as int]);
                        let same = same_json(xs[i], &ys[i]);
                        whole = whole && same;
                        i += 1;
                    }
                    if whole {
                        proof {
                            assert(items_data(found) =~= items_data(ys@));
                        }
                    } else {
                        proof {
                            let j = choose|j: int| 0 <= j < xs@.len() && json_of(#[trigger] found[j]) != json_of(ys@[j]);
                            assert(items_data(found)[j] != items_data(ys@)[j]);
                        }
                    }
                } else {
                    assert(items_data(found).len() != items_data(ys@).len());
                }
            }
            if whole {
                return true;
            }
            let mut i: usize = 0;
            while i < xs.len()
                invariant
                    i <= xs@.len(),
                    found == referenced(xs@),
                    items_data(found).len() == found.len(),
                    forall|j: int| 0 <= j < found.len() ==> #[trigger] items_data(found)[j] == json_of(found[j]),
                    forall|j: int| 0 <= j < i ==> json_of(#[trigger] found[j]) != json_of(*expected),
                    xs@.len() > 1,
                    found == match_values(*actual),
                decreases xs.len() - i,
            {
                assert(found[i as int] == *xs@[i as int]);
                if same_json(xs[i], expected) {
                    assert(items_data(found)[i as int] == json_of(*expected));
                    return true;
                }
                i += 1;
            }
            false
        },
    }
}

/// Whether some value compared orders against `expected` as `op` asks.
pub fn compare_any<F: Fn(&JsonValue, &JsonValue) -> Option<KeyOrder>>(
    actual: &PathMatch,
    expected: &JsonValue,
    op: &String,
    order: &F,
) -> (r: bool)
    requires
        actual matches PathMatch::Many(xs) ==> xs@.len() > 1,
        orders_consistently(*order),
    ensures
        r == comparison_holds(match_values(*actual), *expected, op@, order_of(*order)),
{
    let ghost found = match_values(*actual);
    match actual {
        PathMatch::Missing => false,
        PathMatch::One(v) => match v {
            JsonValue::Array(items) => {
                let mut i: usize = 0;
                while i < items.len()
                    invariant
                        i <= items@.len(),
                        orders_consistently(*order),
                        compared_values(found) == items@,
                        found == match_values(*actual),
                        forall|j: int| 0 <= j < i ==> !((order_of(*order))(#[trigger] items@[j], *expected) matches Some(o)
                            && order_holds(op@, o)),
                    decreases items.len() - i,
                {
                    match ask_order(order, &items[i], expected) {
                        Some(o) => {
                            if order_satisfies(op, o) {
                                assert(compared_values(found)[i as int] == items@[i as int]);
                                assert(0 <= i < compared_values(found).len() && ((order_of(*order))(
                                    compared_values(found)[i as int],
                                    *expected,
                                ) matches Some(p) && order_holds(op@, p)));
                                return true;
                            }
                        },
                        None => {},
                    }
                    i += 1;
                }
                false
            },
            _ => {
                assert(compared_values(found)[0] == **v);
                match ask_order(order, v, expected) {
                    Some(o) => order_satisfies(op, o),
                    None => false,
                }
            },
        },
        PathMatch::Many(xs) => {
            let mut i: usize = 0;
            while i < xs.len()
                invariant
                    i <= xs@.len(),
                    orders_consistently(*order),
                    compared_values(found) == referenced(xs@),
                    found == match_values(*actual),
                    xs@.len() > 1,
                    forall|j: int| 0 <= j < i ==> !((order_of(*order))(#[trigger] referenced(xs@)[j], *expected) matches Some(o)
                        && order_holds(op@, o)),
                decreases xs.len() - i,
            {
                assert(referenced(xs@)[i as int] == *xs@[i as int]);
                match ask_order(order, xs[i], expected) {
                    Some(o) => {
                        if order_satisfies(op, o) {
                            assert(0 <= i < compared_values(found).len() && ((order_of(*order))(
                                compared_values(found)[i as int],
                                *expected,
                            ) matches Some(p) && order_holds(op@, p)));
                            return true;
                        }
                    },
                    None => {},
                }
                i += 1;
            }
            false
        },
    }
}

/// Whether what a path found for `field` meets the field's condition.
pub fn matches_condition<F: Fn(&JsonValue, &JsonValue) -> Option<KeyOrder>>(
    actual: &PathMatch,
    condition: &JsonValue,
    field: &String,
    order: &F,
) -> (r: Result<bool, QueryError>)
    requires
        actual matches PathMatch::Many(xs) ==> xs@.len() > 1,
        orders_consistently(*order),
    ensures
        outcome_of(r) == condition_outcome(match_values(*actual), *condition, field@, order_of(*order)),
    decreases condition, 1nat,
{
    match condition {
        JsonValue::Object(ops) => {
            let mut has_operator = false;
            let mut i: usize = 0;
            while i < ops.len()
                invariant
                    i <= ops@.len(),
                    has_operator == exists|j: int| 0 <= j < i && starts_with_dollar(#[trigger] ops@[j].0@),
                decreases ops.len() - i,
            {
                if is_dollar_name(&ops[i].0) {
                    has_operator = true;
                }
                i += 1;
            }
            if has_operator {
                match_operators(actual, ops, field, order)
            } else {
                Ok(equality_matches(actual, condition))
            }
        },
        _ => Ok(equality_matches(actual, condition)),
    }
}

/// Whether what a path found meets each of the operator conditions `ops`.
fn match_operators<F: Fn(&JsonValue, &JsonValue) -> Option<KeyOrder>>(
    actual: &PathMatch,
    ops: &Vec<(String, JsonValue)>,
    field: &String,
    order: &F,
) -> (r: Result<bool, QueryError>)
    requires
        actual matches PathMatch::Many(xs) ==> xs@.len() > 1,
        orders_consistently(*order),
    ensures
        outcome_of(r) == operators_outcome(match_values(*actual), ops@, field@, order_of(*order)),
    decreases ops@, 0nat,
{
    let ghost all = ops@;
    let ghost found = match_values(*actual);
    let mut i: usize = 0;
    assert(all.subrange(0, all.len() as int) =~= all);
    while i < ops.len()
        invariant
            all == ops@,
            i <= all.len(),
            found == match_values(*actual),
            actual matches PathMatch::Many(xs) ==> xs@.len() > 1,
            orders_consistently(*order),
            operators_outcome(found, all, field@, order_of(*order)) == operators_outcome(
                found,
                all.subrange(i as int, all.len() as int),
                field@,
                order_of(*order),
            ),
        decreases ops.len() - i,
    {
        let ghost rest = all.subrange(i as int, all.len() as int);
        assert(rest[0] == all[i as int]);
        assert(rest.drop_first() =~= all.subrange(i + 1, all.len() as int));
        let (op, operand) = &ops[i];
        let here: Result<bool, QueryError> = if same_text(op, "$eq") {
            Ok(equality_matches(actual, operand))
        } else if same_text(op, "$ne") {
            Ok(!equality_matches(actual, operand))
        } else if same_text(op, "$gt") || same_text(op, "$gte") || same_text(op, "$lt") || same_text(op, "$lte") {
            Ok(compare_any(actual, operand, op, order))
        } else if same_text(op, "$in") || same_text(op, "$nin") {
            match operand {
                JsonValue::Array(items) => {
                    let mut some = false;
                    let mut j: usize = 0;
                    while j < items.len()
                        invariant
                            j <= items@.len(),
                            actual matches PathMatch::Many(xs) ==> xs@.len() > 1,
                            found == match_values(*actual),
                            some == exists|k: int| 0 <= k < j && #[trigger] equals(found, items@[k]),
                        decreases items.len() - j,
                    {
                        if equality_matches(actual, &items[j]) {
                            some = true;
                        }
                        j += 1;
                    }
                    Ok(if same_text(op, "$in") { some } else { !some })
                },
                _ => Err(QueryError::Filter(FilterProblem::MustBeArray(op.clone()))),
            }
        } else if same_text(op, "$not") {
            match matches_condition(actual, operand, field, order) {
                Ok(b) => Ok(!b),
                Err(e) => Err(e),
            }
        } else {
            Err(QueryError::Filter(FilterProblem::UnsupportedOperator { operator: op.clone(), at: field.clone() }))
        };
        match here {
            Ok(true) => {},
            _ => {
                return here;
            },
        }
        i += 1;
    }
    Ok(true)
}

/// Whether the record whose members `values` refers to matches `filter`. `order` is the scalar
/// order of JSON values, and `expression` evaluates an `$expr` expression
/// over a record.
pub fn matches_filter<F, G>(
    values: &Vec<&(String, JsonValue)>,
    filter: &Vec<(String, JsonValue)>,
    order: &F,
    expression: &G,
) -> (r: Result<bool, QueryError>) where
    F: Fn(&JsonValue, &JsonValue) -> Option<KeyOrder>,
    G: Fn(&Vec<&(String, JsonValue)>, &JsonValue) -> Result<bool, QueryError>,

    requires
        orders_consistently(*order),
        evaluates_consistently(*expression),
    ensures
        outcome_of(r) == filter_outcome(members_of(values@), filter@, order_of(*order), expression_of(*expression, members_of(values@))),
    decreases filter@, 0nat,
{
    let ghost all = filter@;
    let ghost ord = order_of(*order);
    let ghost ex = expression_of(*expression, members_of(values@));
    let mut i: usize = 0;
    assert(all.subrange(0, all.len() as int) =~= all);
    while i < filter.len()
        invariant
            all == filter@,
            i <= all.len(),
            ord == order_of(*order),
            ex == expression_of(*expression, members_of(values@)),
            orders_consistently(*order),
            evaluates_consistently(*expression),
            filter_outcome(members_of(values@), all, ord, ex) == filter_outcome(members_of(values@), all.subrange(i as int, all.len() as int), ord, ex),
        decreases filter.len() - i,
    {
        let ghost rest = all.subrange(i as int, all.len() as int);
        assert(rest[0] == all[i as int]);
        assert(rest.drop_first() =~= all.subrange(i + 1, all.len() as int));
        let (field, condition) = &filter[i];
        let here: Result<bool, QueryError> = if same_text(field, "$and") || same_text(field, "$or") {
            match condition {
                JsonValue::Array(items) => match_clauses(values, items, field, order, expression),
                _ => Err(QueryError::Filter(FilterProblem::MustBeArray(field.clone()))),
            }
        } else if same_text(field, "$not") {
            match condition {
                JsonValue::Object(o) => match matches_filter(values, o, order, expression) {
                    Ok(b) => Ok(!b),
                    Err(e) => Err(e),
                },
                _ => Err(QueryError::Filter(FilterProblem::MustBeObject(field.clone()))),
            }
        } else if same_text(field, "$expr") {
            ask_expression(expression, values, condition)
        } else {
            let actual = field_value_in(values, field.as_str());
            proof {
                assert(match_values(actual) =~= path_found(members_of(values@), field@));
            }
            matches_condition(&actual, condition, field, order)
        };
        match here {
            Ok(true) => {},
            _ => {
                return here;
            },
        }
        i += 1;
    }
    Ok(true)
}

/// A clause is a filter that the record's match came to `b` on.
pub open spec fn clause_came_to(
    values: Seq<(String, JsonValue)>,
    item: JsonValue,
    ord: spec_fn(JsonValue, JsonValue) -> Option<KeyOrder>,
    ex: spec_fn(JsonValue) -> Outcome,
    b: bool,
) -> bool {
    item matches JsonValue::Object(o) && filter_outcome(values, o@, ord, ex) == Ok::<bool, QueryErrorView>(b)
}

/// Whether the record `values` matches the clauses of `$and` or `$or`.
fn match_clauses<F, G>(
    values: &Vec<&(String, JsonValue)>,
    items: &Vec<JsonValue>,
    op: &String,
    order: &F,
    expression: &G,
) -> (r: Result<bool, QueryError>) where
    F: Fn(&JsonValue, &JsonValue) -> Option<KeyOrder>,
    G: Fn(&Vec<&(String, JsonValue)>, &JsonValue) -> Result<bool, QueryError>,

    requires
        orders_consistently(*order),
        evaluates_consistently(*expression),
    ensures
        outcome_of(r) == clauses_outcome(members_of(values@), items@, op@, order_of(*order), expression_of(*expression, members_of(values@))),
    decreases items@, 0nat,
{
    let ghost ord = order_of(*order);
    let ghost ex = expression_of(*expression, members_of(values@));
    let all_of = same_text(op, "$and");
    let n = items.len();
    let mut outcomes: Vec<bool> = Vec::new();
    let mut i: usize = 0;
    while i < n
        invariant
            n == items@.len(),
            i <= n,
            outcomes@.len() == i,
            ord == order_of(*order),
            ex == expression_of(*expression, members_of(values@)),
            orders_consistently(*order),
            evaluates_consistently(*expression),
            forall|j: int| 0 <= j < i ==> clause_came_to(members_of(values@), #[trigger] items@[j], ord, ex, outcomes@[j]),
        decreases n - i,
    {
        match &items[i] {
            JsonValue::Object(o) => match matches_filter(values, o, order, expression) {
                Ok(b) => {
                    outcomes.push(b);
                },
                Err(e) => {
                    proof {
                        lemma_first_failing_clause(members_of(values@), items@, op@, ord, ex, i as int, outcomes@);
                    }
                    return Err(e);
                },
            },
            _ => {
                proof {
                    lemma_first_failing_clause(members_of(values@), items@, op@, ord, ex, i as int, outcomes@);
                }
                return Err(QueryError::Filter(FilterProblem::ClauseMustBeObject(op.clone())));
            },
        }
        i += 1;
    }
    let mut result = all_of;
    let mut k: usize = n;
    while k > 0
        invariant
            k <= n,
            n == items@.len(),
            outcomes@.len() == n,
            forall|j: int| 0 <= j < n ==> clause_came_to(members_of(values@), #[trigger] items@[j], ord, ex, outcomes@[j]),
            clauses_outcome(members_of(values@), items@.subrange(k as int, n as int), op@, ord, ex) == Ok::<bool, QueryErrorView>(result),
            all_of == (op@ == "$and"@),
        decreases k,
    {
        let ghost tail = items@.subrange(k - 1, n as int);
        assert(clause_came_to(members_of(values@), items@[k - 1], ord, ex, outcomes@[k - 1]));
        assert(tail[0] == items@[k - 1]);
        assert(tail.drop_first() =~= items@.subrange(k as int, n as int));
        result = if all_of { outcomes[k - 1] && result } else { outcomes[k - 1] || result };
        k -= 1;
    }
    assert(items@.subrange(0, n as int) =~= items@);
    Ok(result)
}

/// Where clause `i` is the first that cannot be applied (it is no object,
/// or its filter fails to apply), the clauses come to that clause's failure.
proof fn lemma_first_failing_clause(
    values: Seq<(String, JsonValue)>,
    items: Seq<JsonValue>,
    op: Seq<char>,
    ord: spec_fn(JsonValue, JsonValue) -> Option<KeyOrder>,
    ex: spec_fn(JsonValue) -> Outcome,
    i: int,
    outcomes: Seq<bool>,
)
    requires
        0 <= i < items.len(),
        outcomes.len() == i,
        forall|j: int| 0 <= j < i ==> clause_came_to(values, #[trigger] items[j], ord, ex, outcomes[j]),
        match items[i] {
            JsonValue::Object(o) => filter_outcome(values, o@, ord, ex) is Err,
            _ => true,
        },
    ensures
        clauses_outcome(values, items, op, ord, ex) == match items[i] {
            JsonValue::Object(o) => filter_outcome(values, o@, ord, ex),
            _ => problem(FilterProblemView::ClauseMustBeObject(op)),
        },
    decreases i,
{
    if i > 0 {
        let rest = items.drop_first();
        assert forall|j: int| 0 <= j < i - 1 implies clause_came_to(values, #[trigger] rest[j], ord, ex, outcomes.drop_first()[j]) by {
            assert(rest[j] == items[j + 1]);
        }
        lemma_first_failing_clause(values, rest, op, ord, ex, i - 1, outcomes.drop_first());
        assert(rest[i - 1] == items[i]);
        assert(clause_came_to(values, items[0], ord, ex, outcomes[0]));
    }
}

} // verus!
