//! The shape of a query filter: logical operators, `$expr` expressions,
//! and per-field operator conditions, checked before any record is read.
use vstd::prelude::*;
use crate::text::{concat, decimal, decimal_text, same_text};

verus! {

/// A JSON value as a filter holds it; numbers keep their JSON text.
#[derive(Debug, PartialEq, Eq)]
pub enum JsonValue {
    Null,
    Bool(bool),
    Number(String),
    String(String),
    Array(Vec<JsonValue>),
    Object(Vec<(String, JsonValue)>),
}

/// Why a filter was refused, with the location in the request it names.
#[derive(Debug, PartialEq, Eq)]
pub enum FilterProblem {
    MustBeArray(String),
    MustBeObject(String),
    UnsupportedLogicalOperator(String),
    EmptyExpression(String),
    MultipleExpressionOperators(String),
    UnsupportedExpression(String),
    OperandCount(String),
    EmptyFieldReference(String),
    NotScalar(String),
    MixedOperatorsAndFields(String),
    UnsupportedOperator { operator: String, at: String },
    ClauseMustBeObject(String),
}

/// A filter problem with its texts as character sequences.
pub enum FilterProblemView {
    MustBeArray(Seq<char>),
    MustBeObject(Seq<char>),
    UnsupportedLogicalOperator(Seq<char>),
    EmptyExpression(Seq<char>),
    MultipleExpressionOperators(Seq<char>),
    UnsupportedExpression(Seq<char>),
    OperandCount(Seq<char>),
    EmptyFieldReference(Seq<char>),
    NotScalar(Seq<char>),
    MixedOperatorsAndFields(Seq<char>),
    UnsupportedOperator { operator: Seq<char>, at: Seq<char> },
    ClauseMustBeObject(Seq<char>),
}

impl View for FilterProblem {
    type V = FilterProblemView;

    open spec fn view(&self) -> FilterProblemView {
        match self {
            FilterProblem::MustBeArray(l) => FilterProblemView::MustBeArray(l@),
            FilterProblem::MustBeObject(l) => FilterProblemView::MustBeObject(l@),
            FilterProblem::UnsupportedLogicalOperator(l) => FilterProblemView::UnsupportedLogicalOperator(l@),
            FilterProblem::EmptyExpression(l) => FilterProblemView::EmptyExpression(l@),
            FilterProblem::MultipleExpressionOperators(l) => FilterProblemView::MultipleExpressionOperators(l@),
            FilterProblem::UnsupportedExpression(l) => FilterProblemView::UnsupportedExpression(l@),
            FilterProblem::OperandCount(l) => FilterProblemView::OperandCount(l@),
            FilterProblem::EmptyFieldReference(l) => FilterProblemView::EmptyFieldReference(l@),
            FilterProblem::NotScalar(l) => FilterProblemView::NotScalar(l@),
            FilterProblem::MixedOperatorsAndFields(l) => FilterProblemView::MixedOperatorsAndFields(l@),
            FilterProblem::UnsupportedOperator { operator, at } => FilterProblemView::UnsupportedOperator {
                operator: operator@,
                at: at@,
            },
            FilterProblem::ClauseMustBeObject(l) => FilterProblemView::ClauseMustBeObject(l@),
        }
    }
}

/// `path.name`.
pub open spec fn member(path: Seq<char>, name: Seq<char>) -> Seq<char> {
    path + "."@ + name
}

/// `path[index]`.
pub open spec fn element(path: Seq<char>, index: nat) -> Seq<char> {
    path + "["@ + decimal(index) + "]"@
}

/// An operator name: a text that begins with `$`.
pub open spec fn starts_with_dollar(s: Seq<char>) -> bool {
    s.len() > 0 && s[0] == '$'
}

/// One of the comparison operators `$eq`, `$ne`, `$gt`, `$gte`, `$lt`, `$lte`.
pub open spec fn is_comparison(op: Seq<char>) -> bool {
    op == "$eq"@ || op == "$ne"@ || op == "$gt"@ || op == "$gte"@ || op == "$lt"@ || op == "$lte"@
}

/// The first problem of the filter clauses `fields` at `path`, if any.
pub open spec fn filter_error(fields: Seq<(String, JsonValue)>, path: Seq<char>) -> Option<FilterProblemView>
    decreases fields, 0nat,
{
    if fields.len() == 0 {
        None
    } else {
        let field = fields[0].0@;
        let condition = fields[0].1;
        let here = if field == "$and"@ || field == "$or"@ {
            match condition {
                JsonValue::Array(items) => clauses_error(items@, member(path, field), 0),
                _ => Some(FilterProblemView::MustBeArray(member(path, field))),
            }
        } else if field == "$not"@ {
            match condition {
                JsonValue::Object(o) => filter_error(o@, member(path, field)),
                _ => Some(FilterProblemView::MustBeObject(member(path, field))),
            }
        } else if field == "$expr"@ {
            expression_error(condition, member(path, field))
        } else if starts_with_dollar(field) {
            Some(FilterProblemView::UnsupportedLogicalOperator(field))
        } else {
            condition_error(condition, member(path, field))
        };
        if here is Some {
            here
        } else {
            filter_error(fields.drop_first(), path)
        }
    }
}

/// The first problem of the `$and` / `$or` clauses `items`, numbered from `index`.
pub open spec fn clauses_error(items: Seq<JsonValue>, path: Seq<char>, index: nat) -> Option<FilterProblemView>
    decreases items, 0nat,
{
    if items.len() == 0 {
        None
    } else {
        match items[0] {
            JsonValue::Object(o) => match filter_error(o@, element(path, index)) {
                Some(p) => Some(p),
                None => clauses_error(items.drop_first(), path, index + 1),
            },
            _ => Some(FilterProblemView::MustBeObject(element(path, index))),
        }
    }
}

/// The first problem of the `$expr` expression `e` at `path`, if any.
pub open spec fn expression_error(e: JsonValue, path: Seq<char>) -> Option<FilterProblemView>
    decreases e, 0nat,
{
    match e {
        JsonValue::Object(o) => if o@.len() == 0 {
            Some(FilterProblemView::EmptyExpression(path))
        } else if o@.len() != 1 {
            Some(FilterProblemView::MultipleExpressionOperators(path))
        } else {
            let op = o@[0].0@;
            let operands = o@[0].1;
            if op == "$and"@ || op == "$or"@ {
                match operands {
                    JsonValue::Array(items) => expressions_error(items@, member(path, op), 0),
                    _ => Some(FilterProblemView::MustBeArray(member(path, op))),
                }
            } else if op == "$not"@ {
                expression_error(operands, member(path, op))
            } else if is_comparison(op) {
                comparison_error(operands, op, path)
            } else {
                Some(FilterProblemView::UnsupportedExpression(path))
            }
        },
        _ => Some(FilterProblemView::MustBeObject(path)),
    }
}

/// The first problem of the expressions `items`, numbered from `index`.
pub open spec fn expressions_error(items: Seq<JsonValue>, path: Seq<char>, index: nat) -> Option<FilterProblemView>
    decreases items, 0nat,
{
    if items.len() == 0 {
        None
    } else {
        match expression_error(items[0], element(path, index)) {
            Some(p) => Some(p),
            None => expressions_error(items.drop_first(), path, index + 1),
        }
    }
}

/// The problem of one comparison operand, if any: an empty `$` field
/// reference, or an array or object.
pub open spec fn operand_error(v: JsonValue, at: Seq<char>) -> Option<FilterProblemView> {
    match v {
        JsonValue::String(s) => if s@ == "$"@ {
            Some(FilterProblemView::EmptyFieldReference(at))
        } else {
            None
        },
        JsonValue::Array(_) => Some(FilterProblemView::NotScalar(at)),
        JsonValue::Object(_) => Some(FilterProblemView::NotScalar(at)),
        _ => None,
    }
}

/// The problem of the operands of comparison `op` at `path`, if any: two
/// scalars or field references.
pub open spec fn comparison_error(value: JsonValue, op: Seq<char>, path: Seq<char>) -> Option<FilterProblemView> {
    match value {
        JsonValue::Array(items) => if items@.len() != 2 {
            Some(FilterProblemView::OperandCount(member(path, op)))
        } else if operand_error(items@[0], element(member(path, op), 0)) is Some {
            operand_error(items@[0], element(member(path, op), 0))
        } else {
            operand_error(items@[1], element(member(path, op), 1))
        },
        _ => Some(FilterProblemView::MustBeArray(member(path, op))),
    }
}

/// The first problem of a field's condition at `path`, if any: an object
/// whose keys are all operators must use supported ones, with an array for
/// `$in` and `$nin` and an object condition for `$not`.
pub open spec fn condition_error(condition: JsonValue, path: Seq<char>) -> Option<FilterProblemView>
    decreases condition, 1nat,
{
    match condition {
        JsonValue::Object(ops) => if !(exists|i: int| 0 <= i < ops@.len() && starts_with_dollar(#[trigger] ops@[i].0@)) {
            None
        } else if exists|i: int| 0 <= i < ops@.len() && !starts_with_dollar(#[trigger] ops@[i].0@) {
            Some(FilterProblemView::MixedOperatorsAndFields(path))
        } else {
            operators_error(ops@, path)
        },
        _ => None,
    }
}

/// The first problem of the operator conditions `ops` at `path`, if any.
pub open spec fn operators_error(ops: Seq<(String, JsonValue)>, path: Seq<char>) -> Option<FilterProblemView>
    decreases ops, 0nat,
{
    if ops.len() == 0 {
        None
    } else {
        let op = ops[0].0@;
        let operand = ops[0].1;
        let here = if is_comparison(op) {
            None
        } else if op == "$in"@ || op == "$nin"@ {
            if operand is Array {
                None
            } else {
                Some(FilterProblemView::MustBeArray(member(path, op)))
            }
        } else if op == "$not"@ {
            if operand is Object {
                condition_error(operand, member(path, op))
            } else {
                Some(FilterProblemView::MustBeObject(member(path, op)))
            }
        } else {
            Some(FilterProblemView::UnsupportedOperator { operator: op, at: path })
        };
        if here is Some {
            here
        } else {
            operators_error(ops.drop_first(), path)
        }
    }
}

/// `path.name` as text.
fn member_text(path: &String, name: &String) -> (r: String)
    ensures
        r@ == member(path@, name@),
{
    concat(&concat(path, "."), name)
}

/// `path[index]` as text.
fn element_text(path: &String, index: usize) -> (r: String)
    ensures
        r@ == element(path@, index as nat),
{
    let a = concat(path, "[");
    let b = concat(&a, &decimal_text(index as u64));
    concat(&b, "]")
}

pub(crate) fn is_dollar_name(s: &String) -> (r: bool)
    ensures
        r == starts_with_dollar(s@),
{
    let cs = crate::text::chars_of(s);
    cs.len() > 0 && cs[0] == '$'
}

fn is_comparison_name(op: &String) -> (r: bool)
    ensures
        r == is_comparison(op@),
{
    same_text(op, "$eq") || same_text(op, "$ne") || same_text(op, "$gt") || same_text(op, "$gte") || same_text(
        op,
        "$lt",
    ) || same_text(op, "$lte")
}

/// Checks the clauses of a filter at `path` (the top level is "filter").
pub fn validate_filter(filter: &Vec<(String, JsonValue)>, path: &String) -> (r: Result<(), FilterProblem>)
    ensures
        match filter_error(filter@, path@) {
            Some(p) => r matches Err(e) && e@ == p,
            None => r is Ok,
        },
    decreases filter@, 0nat,
{
    let ghost all = filter@;
    let mut i: usize = 0;
    assert(all.subrange(0, all.len() as int) =~= all);
    while i < filter.len()
        invariant
            all == filter@,
            i <= all.len(),
            filter_error(all, path@) == filter_error(all.subrange(i as int, all.len() as int), path@),
        decreases filter.len() - i,
    {
        let ghost rest = all.subrange(i as int, all.len() as int);
        assert(rest[0] == all[i as int]);
        assert(rest.drop_first() =~= all.subrange(i + 1, all.len() as int));
        let (field, condition) = &filter[i];
        let here: Result<(), FilterProblem> = if same_text(field, "$and") || same_text(field, "$or") {
            let at = member_text(path, field);
            match condition {
                JsonValue::Array(items) => validate_clauses(items, &at),
                _ => Err(FilterProblem::MustBeArray(at)),
            }
        } else if same_text(field, "$not") {
            let at = member_text(path, field);
            match condition {
                JsonValue::Object(o) => validate_filter(o, &at),
                _ => Err(FilterProblem::MustBeObject(at)),
            }
        } else if same_text(field, "$expr") {
            let at = member_text(path, field);
            validate_expression(condition, &at)
        } else if is_dollar_name(field) {
            Err(FilterProblem::UnsupportedLogicalOperator(field.clone()))
        } else {
            let at = member_text(path, field);
            validate_condition(condition, &at)
        };
        if here.is_err() {
            return here;
        }
        i += 1;
    }
    Ok(())
}

/// Checks the `$and` / `$or` clauses `items` at `path`.
fn validate_clauses(items: &Vec<JsonValue>, path: &String) -> (r: Result<(), FilterProblem>)
    ensures
        match clauses_error(items@, path@, 0) {
            Some(p) => r matches Err(e) && e@ == p,
            None => r is Ok,
        },
    decreases items@, 0nat,
{
    let ghost all = items@;
    let mut i: usize = 0;
    assert(all.subrange(0, all.len() as int) =~= all);
    while i < items.len()
        invariant
            all == items@,
            i <= all.len(),
            clauses_error(all, path@, 0) == clauses_error(all.subrange(i as int, all.len() as int), path@, i as nat),
        decreases items.len() - i,
    {
        let ghost rest = all.subrange(i as int, all.len() as int);
        assert(rest[0] == all[i as int]);
        assert(rest.drop_first() =~= all.subrange(i + 1, all.len() as int));
        let at = element_text(path, i);
        match &items[i] {
            JsonValue::Object(o) => {
                let checked = validate_filter(o, &at);
                if checked.is_err() {
                    return checked;
                }
            },
            _ => {
                return Err(FilterProblem::MustBeObject(at));
            },
        }
        i += 1;
    }
    Ok(())
}

/// Checks an `$expr` expression at `path`.
fn validate_expression(e: &JsonValue, path: &String) -> (r: Result<(), FilterProblem>)
    ensures
        match expression_error(*e, path@) {
            Some(p) => r matches Err(x) && x@ == p,
            None => r is Ok,
        },
    decreases e, 0nat,
{
    match e {
        JsonValue::Object(o) => {
            if o.len() == 0 {
                return Err(FilterProblem::EmptyExpression(path.clone()));
            }
            if o.len() != 1 {
                return Err(FilterProblem::MultipleExpressionOperators(path.clone()));
            }
            let (op, operands) = &o[0];
            if same_text(op, "$and") || same_text(op, "$or") {
                let at = member_text(path, op);
                match operands {
                    JsonValue::Array(items) => validate_expressions(items, &at),
                    _ => Err(FilterProblem::MustBeArray(at)),
                }
            } else if same_text(op, "$not") {
                let at = member_text(path, op);
                validate_expression(operands, &at)
            } else if is_comparison_name(op) {
                validate_comparison(operands, op, path)
            } else {
                Err(FilterProblem::UnsupportedExpression(path.clone()))
            }
        },
        _ => Err(FilterProblem::MustBeObject(path.clone())),
    }
}

/// Checks the expressions `items` at `path`.
fn validate_expressions(items: &Vec<JsonValue>, path: &String) -> (r: Result<(), FilterProblem>)
    ensures
        match expressions_error(items@, path@, 0) {
            Some(p) => r matches Err(e) && e@ == p,
            None => r is Ok,
        },
    decreases items@, 0nat,
{
    let ghost all = items@;
    let mut i: usize = 0;
    assert(all.subrange(0, all.len() as int) =~= all);
    while i < items.len()
        invariant
            all == items@,
            i <= all.len(),
            expressions_error(all, path@, 0) == expressions_error(all.subrange(i as int, all.len() as int), path@, i as nat),
        decreases items.len() - i,
    {
        let ghost rest = all.subrange(i as int, all.len() as int);
        assert(rest[0] == all[i as int]);
        assert(rest.drop_first() =~= all.subrange(i + 1, all.len() as int));
        let at = element_text(path, i);
        let checked = validate_expression(&items[i], &at);
        if checked.is_err() {
            return checked;
        }
        i += 1;
    }
    Ok(())
}

fn check_operand(v: &JsonValue, at: String) -> (r: Result<(), FilterProblem>)
    ensures
        match operand_error(*v, at@) {
            Some(p) => r matches Err(e) && e@ == p,
            None => r is Ok,
        },
{
    match v {
        JsonValue::String(s) => if same_text(s, "$") {
            Err(FilterProblem::EmptyFieldReference(at))
        } else {
            Ok(())
        },
        JsonValue::Array(_) => Err(FilterProblem::NotScalar(at)),
        JsonValue::Object(_) => Err(FilterProblem::NotScalar(at)),
        _ => Ok(()),
    }
}

fn validate_comparison(value: &JsonValue, op: &String, path: &String) -> (r: Result<(), FilterProblem>)
    ensures
        match comparison_error(*value, op@, path@) {
            Some(p) => r matches Err(e) && e@ == p,
            None => r is Ok,
        },
{
    let at = member_text(path, op);
    match value {
        JsonValue::Array(items) => {
            if items.len() != 2 {
                return Err(FilterProblem::OperandCount(at));
            }
            let first = check_operand(&items[0], element_text(&at, 0));
            if first.is_err() {
                return first;
            }
            check_operand(&items[1], element_text(&at, 1))
        },
        _ => Err(FilterProblem::MustBeArray(at)),
    }
}

/// Checks the condition on one field at `path`.
fn validate_condition(condition: &JsonValue, path: &String) -> (r: Result<(), FilterProblem>)
    ensures
        match condition_error(*condition, path@) {
            Some(p) => r matches Err(e) && e@ == p,
            None => r is Ok,
        },
    decreases condition, 1nat,
{
    match condition {
        JsonValue::Object(ops) => {
            let mut has_operator = false;
            let mut has_field = false;
            let mut i: usize = 0;
            while i < ops.len()
                invariant
                    i <= ops@.len(),
                    has_operator == exists|j: int| 0 <= j < i && starts_with_dollar(#[trigger] ops@[j].0@),
                    has_field == exists|j: int| 0 <= j < i && !starts_with_dollar(#[trigger] ops@[j].0@),
                decreases ops.len() - i,
            {
                if is_dollar_name(&ops[i].0) {
                    has_operator = true;
                } else {
                    has_field = true;
                }
                i += 1;
            }
            if !has_operator {
                return Ok(());
            }
            if has_field {
                return Err(FilterProblem::MixedOperatorsAndFields(path.clone()));
            }
            validate_operators(ops, path)
        },
        _ => Ok(()),
    }
}

/// Checks the operator conditions `ops` at `path`.
fn validate_operators(ops: &Vec<(String, JsonValue)>, path: &String) -> (r: Result<(), FilterProblem>)
    ensures
        match operators_error(ops@, path@) {
            Some(p) => r matches Err(e) && e@ == p,
            None => r is Ok,
        },
    decreases ops@, 0nat,
{
    let ghost all = ops@;
    let mut i: usize = 0;
    assert(all.subrange(0, all.len() as int) =~= all);
    while i < ops.len()
        invariant
            all == ops@,
            i <= all.len(),
            operators_error(all, path@) == operators_error(all.subrange(i as int, all.len() as int), path@),
        decreases ops.len() - i,
    {
        let ghost rest = all.subrange(i as int, all.len() as int);
        assert(rest[0] == all[i as int]);
        assert(rest.drop_first() =~= all.subrange(i + 1, all.len() as int));
        let (op, operand) = &ops[i];
        if !is_comparison_name(op) {
            if same_text(op, "$in") || same_text(op, "$nin") {
                if !matches!(operand, JsonValue::Array(_)) {
                    return Err(FilterProblem::MustBeArray(member_text(path, op)));
                }
            } else if same_text(op, "$not") {
                if matches!(operand, JsonValue::Object(_)) {
                    let checked = validate_condition(operand, &member_text(path, op));
                    if checked.is_err() {
                        return checked;
                    }
                } else {
                    return Err(FilterProblem::MustBeObject(member_text(path, op)));
                }
            } else {
                return Err(FilterProblem::UnsupportedOperator { operator: op.clone(), at: path.clone() });
            }
        }
        i += 1;
    }
    Ok(())
}

} // verus!
