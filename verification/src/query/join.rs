//! Join requests: their shape, and the rules that a request must meet
//! before any table is read.
use vstd::prelude::*;
use crate::text::{concat, same_text, strip_prefix};
use super::filter::{FilterProblem, FilterProblemView, JsonValue, filter_error, validate_filter};
use super::join_pipeline::pipeline_error;
use super::request::QueryProblem;

verus! {

/// The largest number of rows that a join may produce.
pub const MAX_JOIN_ROWS: usize = 100_000;

/// Join stages after the first are bounded below this count.
pub const MAX_JOIN_STAGES: usize = 8;

/// The kind of a join, as the request names it.
#[derive(Debug, Clone, Copy, PartialEq, Eq, Structural)]
pub enum JoinType {
    Inner,
    Left,
    Right,
    Full,
    Semi,
    Anti,
    Cross,
}

/// The joined table's field that a local field is compared with.
#[derive(Debug)]
pub struct JoinField {
    pub field: String,
}

/// One equality condition of a join: `{"$eq": {"$field": ...}}`.
#[derive(Debug)]
pub struct JoinCondition {
    pub equality: JoinField,
}

/// One join stage: its kind, the table it joins, and its equality
/// conditions, keyed by the local field in ascending order, each local field
/// at most once.
#[derive(Debug)]
pub struct JoinSpec {
    pub kind: JoinType,
    pub table: String,
    pub on: Vec<(String, JoinCondition)>,
}

/// A join of `from` with one or more further tables, with an optional
/// filter on the joined rows and a projection of their fields.
#[derive(Debug)]
pub struct JoinRequest {
    pub from: String,
    pub join: JoinSpec,
    pub joins: Vec<JoinSpec>,
    pub filter: Vec<(String, JsonValue)>,
    pub projection: Vec<(String, i8)>,
}

/// Which side of an equality condition a field stands on.
#[derive(Debug, Clone, Copy, PartialEq, Eq, Structural)]
pub enum FieldRole {
    /// The local field, the key of `join.on`.
    Local,
    /// The joined table's field, `join.on.$eq.$field`.
    Foreign,
}

/// Why a join request was refused.
#[derive(Debug, PartialEq, Eq)]
pub enum JoinProblem {
    EmptyTable,
    SelfJoin,
    CrossJoinWithConditions,
    MissingConditions,
    FieldNotQualified { role: FieldRole, table: String },
    EmptyField { role: FieldRole },
    ProjectionValue,
    ProjectionMixed,
    TooManyStages,
    EmptyStageTable,
    TableAlreadyPresent(String),
    FieldNotJoined { role: FieldRole },
    CrossPairOverflow,
    CrossPairsExceedLimit,
    ResultTooLarge,
    CrossEstimation,
    MergeFullJoin,
    MergeCrossJoin,
    MissingIndexedRecord(usize),
    IndexRowsMismatch,
    IndexLookupFailed,
}

/// Why a join request was refused.
#[derive(Debug, PartialEq, Eq)]
pub enum JoinError {
    Invalid(JoinProblem),
    Query(FilterProblem),
    Request(QueryProblem),
}

/// The conditions of a stage as (local field, joined field) texts.
pub open spec fn conditions(on: Seq<(String, JoinCondition)>) -> Seq<(Seq<char>, Seq<char>)> {
    on.map_values(|c: (String, JoinCondition)| (c.0@, c.1.equality.field@))
}

/// The field that `value` names in `table`, when it reads `table.<field>`.
pub open spec fn qualified(value: Seq<char>, table: Seq<char>) -> Option<Seq<char>> {
    let prefix = table.push('.');
    if prefix.is_prefix_of(value) {
        Some(value.subrange(prefix.len() as int, value.len() as int))
    } else {
        None
    }
}

/// The field of `table` that `value` names, or why it names none.
pub open spec fn qualified_field_of(value: Seq<char>, table: String, role: FieldRole) -> Result<Seq<char>, JoinProblem> {
    match qualified(value, table@) {
        None => Err(JoinProblem::FieldNotQualified { role, table }),
        Some(f) => if f.len() == 0 {
            Err(JoinProblem::EmptyField { role })
        } else {
            Ok(f)
        },
    }
}

/// The first refused condition of a two-table join, if any.
pub open spec fn conditions_error(cs: Seq<(Seq<char>, Seq<char>)>, from: String, table: String) -> Option<JoinProblem>
    decreases cs.len(),
{
    if cs.len() == 0 {
        None
    } else if qualified_field_of(cs[0].0, from, FieldRole::Local) is Err {
        Some(qualified_field_of(cs[0].0, from, FieldRole::Local)->Err_0)
    } else if qualified_field_of(cs[0].1, table, FieldRole::Foreign) is Err {
        Some(qualified_field_of(cs[0].1, table, FieldRole::Foreign)->Err_0)
    } else {
        conditions_error(cs.drop_first(), from, table)
    }
}

/// The join fields of a two-table request, or why they are refused: a cross
/// join takes no conditions and yields none; any other join needs at least
/// one condition, each naming a field of `from` and a field of the joined table.
pub open spec fn join_fields_of(r: JoinRequest) -> Result<(Seq<Seq<char>>, Seq<Seq<char>>), JoinProblem> {
    let cs = conditions(r.join.on@);
    if r.join.kind == JoinType::Cross {
        if cs.len() > 0 {
            Err(JoinProblem::CrossJoinWithConditions)
        } else {
            Ok((Seq::empty(), Seq::empty()))
        }
    } else if cs.len() == 0 {
        Err(JoinProblem::MissingConditions)
    } else {
        match conditions_error(cs, r.from, r.join.table) {
            Some(p) => Err(p),
            None => Ok((
                cs.map_values(|c: (Seq<char>, Seq<char>)| qualified(c.0, r.from@).unwrap()),
                cs.map_values(|c: (Seq<char>, Seq<char>)| qualified(c.1, r.join.table@).unwrap()),
            )),
        }
    }
}

/// Why a projection is refused: a value other than 0 or 1, or both.
pub open spec fn projection_error(p: Seq<(String, i8)>) -> Option<JoinProblem> {
    if exists|i: int| 0 <= i < p.len() && (#[trigger] p[i]).1 != 0 && p[i].1 != 1 {
        Some(JoinProblem::ProjectionValue)
    } else if (exists|i: int| 0 <= i < p.len() && (#[trigger] p[i]).1 == 1) && (exists|j: int|
        0 <= j < p.len() && (#[trigger] p[j]).1 == 0) {
        Some(JoinProblem::ProjectionMixed)
    } else {
        None
    }
}

/// The field of `table` that `value` names.
pub fn qualified_field(value: &str, table: &String, role: FieldRole) -> (r: Result<String, JoinError>)
    ensures
        match qualified_field_of(value@, *table, role) {
            Ok(f) => r matches Ok(s) && s@ == f,
            Err(p) => r == Err::<String, JoinError>(JoinError::Invalid(p)),
        },
{
    let prefix = concat(table, ".");
    proof {
        reveal_strlit(".");
        assert(prefix@ =~= table@.push('.'));
    }
    match strip_prefix(value, &prefix) {
        None => Err(JoinError::Invalid(JoinProblem::FieldNotQualified { role, table: table.clone() })),
        Some(field) => if field.as_str().is_empty() {
            Err(JoinError::Invalid(JoinProblem::EmptyField { role }))
        } else {
            Ok(field)
        },
    }
}

/// A join error with its texts as character sequences.
pub enum JoinErrorView {
    Invalid(JoinProblem),
    Query(FilterProblemView),
    Request(QueryProblem),
}

impl View for JoinError {
    type V = JoinErrorView;

    open spec fn view(&self) -> JoinErrorView {
        match self {
            JoinError::Invalid(p) => JoinErrorView::Invalid(*p),
            JoinError::Query(p) => JoinErrorView::Query(p@),
            JoinError::Request(p) => JoinErrorView::Request(*p),
        }
    }
}

/// The local and joined fields of a two-table request.
pub fn join_fields(request: &JoinRequest) -> (r: Result<(Vec<String>, Vec<String>), JoinError>)
    ensures
        match join_fields_of(*request) {
            Ok((local, foreign)) => r matches Ok((a, b)) && a@.map_values(|s: String| s@) == local && b@.map_values(
                |s: String| s@,
            ) == foreign,
            Err(p) => r == Err::<(Vec<String>, Vec<String>), JoinError>(JoinError::Invalid(p)),
        },
{
    let on = &request.join.on;
    let ghost cs = conditions(on@);
    if request.join.kind == JoinType::Cross {
        if on.len() > 0 {
            return Err(JoinError::Invalid(JoinProblem::CrossJoinWithConditions));
        }
        let a: Vec<String> = Vec::new();
        let b: Vec<String> = Vec::new();
        assert(a@.map_values(|s: String| s@) =~= Seq::<Seq<char>>::empty());
        assert(b@.map_values(|s: String| s@) =~= Seq::<Seq<char>>::empty());
        return Ok((a, b));
    }
    if on.len() == 0 {
        return Err(JoinError::Invalid(JoinProblem::MissingConditions));
    }
    let ghost from = request.from@;
    let ghost table = request.join.table@;
    let mut local: Vec<String> = Vec::new();
    let mut foreign: Vec<String> = Vec::new();
    let mut i: usize = 0;
    assert(cs.subrange(0, cs.len() as int) =~= cs);
    while i < on.len()
        invariant
            cs == conditions(on@),
            on == &request.join.on,
            from == request.from@,
            table == request.join.table@,
            i <= on@.len(),
            cs.len() == on@.len(),
            cs.len() > 0,
            request.join.kind != JoinType::Cross,
            conditions_error(cs, request.from, request.join.table) == conditions_error(
                cs.subrange(i as int, cs.len() as int),
                request.from,
                request.join.table,
            ),
            local@.map_values(|s: String| s@) == cs.subrange(0, i as int).map_values(
                |c: (Seq<char>, Seq<char>)| qualified(c.0, from).unwrap(),
            ),
            foreign@.map_values(|s: String| s@) == cs.subrange(0, i as int).map_values(
                |c: (Seq<char>, Seq<char>)| qualified(c.1, table).unwrap(),
            ),
        decreases on.len() - i,
    {
        let ghost rest = cs.subrange(i as int, cs.len() as int);
        assert(rest[0] == cs[i as int]);
        assert(rest.drop_first() =~= cs.subrange(i + 1, cs.len() as int));
        let (name, condition) = &on[i];
        assert(cs[i as int] == (name@, condition.equality.field@));
        let l = match qualified_field(name, &request.from, FieldRole::Local) {
            Ok(f) => f,
            Err(e) => {
                return Err(e);
            },
        };
        let f = match qualified_field(&condition.equality.field, &request.join.table, FieldRole::Foreign) {
            Ok(f) => f,
            Err(e) => {
                return Err(e);
            },
        };
        let ghost before_local = local@.map_values(|s: String| s@);
        let ghost before_foreign = foreign@.map_values(|s: String| s@);
        local.push(l);
        foreign.push(f);
        assert(local@.map_values(|s: String| s@) =~= before_local.push(qualified(cs[i as int].0, from).unwrap()));
        assert(foreign@.map_values(|s: String| s@) =~= before_foreign.push(qualified(cs[i as int].1, table).unwrap()));
        assert(cs.subrange(0, i + 1) =~= cs.subrange(0, i as int).push(cs[i as int]));
        i += 1;
    }
    assert(cs.subrange(0, cs.len() as int) =~= cs);
    Ok((local, foreign))
}

/// Checks a projection: values 0 or 1, and not both kinds.
pub fn validate_projection(projection: &Vec<(String, i8)>) -> (r: Result<(), JoinError>)
    ensures
        match projection_error(projection@) {
            Some(p) => r == Err::<(), JoinError>(JoinError::Invalid(p)),
            None => r is Ok,
        },
{
    let mut has_inclusion = false;
    let mut has_exclusion = false;
    let mut has_other = false;
    let mut i: usize = 0;
    while i < projection.len()
        invariant
            i <= projection@.len(),
            has_inclusion == exists|j: int| 0 <= j < i && (#[trigger] projection@[j]).1 == 1,
            has_exclusion == exists|j: int| 0 <= j < i && (#[trigger] projection@[j]).1 == 0,
            has_other == exists|j: int| 0 <= j < i && (#[trigger] projection@[j]).1 != 0 && projection@[j].1 != 1,
        decreases projection.len() - i,
    {
        let v = projection[i].1;
        if v == 1 {
            has_inclusion = true;
        } else if v == 0 {
            has_exclusion = true;
        } else {
            has_other = true;
        }
        i += 1;
    }
    if has_other {
        return Err(JoinError::Invalid(JoinProblem::ProjectionValue));
    }
    if has_inclusion && has_exclusion {
        return Err(JoinError::Invalid(JoinProblem::ProjectionMixed));
    }
    Ok(())
}

/// Why a join request is refused, if it is: the first failing rule among
/// table names, join fields, filter, projection, and further stages.
pub open spec fn request_error(r: JoinRequest) -> Option<JoinErrorView> {
    if r.from@.len() == 0 || r.join.table@.len() == 0 {
        Some(JoinErrorView::Invalid(JoinProblem::EmptyTable))
    } else if r.from@ == r.join.table@ {
        Some(JoinErrorView::Invalid(JoinProblem::SelfJoin))
    } else if join_fields_of(r) is Err {
        Some(JoinErrorView::Invalid(join_fields_of(r)->Err_0))
    } else if filter_error(r.filter@, "filter"@) is Some {
        Some(JoinErrorView::Query(filter_error(r.filter@, "filter"@).unwrap()))
    } else if projection_error(r.projection@) is Some {
        Some(JoinErrorView::Invalid(projection_error(r.projection@).unwrap()))
    } else if r.joins@.len() > 0 && pipeline_error(r) is Some {
        Some(JoinErrorView::Invalid(pipeline_error(r).unwrap()))
    } else {
        None
    }
}

/// Checks a join request before any table is read.
pub fn validate(request: &JoinRequest) -> (r: Result<(), JoinError>)
    ensures
        match request_error(*request) {
            Some(e) => r matches Err(x) && x@ == e,
            None => r is Ok,
        },
{
    if request.from.as_str().is_empty() || request.join.table.as_str().is_empty() {
        return Err(JoinError::Invalid(JoinProblem::EmptyTable));
    }
    if same_text(&request.from, &request.join.table) {
        return Err(JoinError::Invalid(JoinProblem::SelfJoin));
    }
    if let Err(e) = join_fields(request) {
        return Err(e);
    }
    if let Err(p) = validate_filter(&request.filter, &"filter".to_owned()) {
        return Err(JoinError::Query(p));
    }
    if let Err(e) = validate_projection(&request.projection) {
        return Err(e);
    }
    if request.joins.len() > 0 {
        if let Err(e) = super::join_pipeline::validate(request) {
            return Err(e);
        }
    }
    Ok(())
}

} // verus!
