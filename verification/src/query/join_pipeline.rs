//! Multi-stage joins: the rules that each stage must meet against the
//! tables joined before it.
use vstd::prelude::*;
use crate::text::{chars_of, concat, same_text, strip_prefix, substring};
use super::join::{
    FieldRole, JoinCondition, JoinError, JoinProblem, JoinRequest, JoinSpec, JoinType, MAX_JOIN_STAGES,
    conditions, qualified,
};
use super::filter::JsonValue;
use super::path::{qualified_found, qualified_value, referenced, PathMatch};

verus! {

/// Whether `value` names a field of one of `tables`: the first table whose
/// "table." prefix `value` carries decides, and the field must not be empty.
pub open spec fn qualified_in(value: Seq<char>, tables: Seq<Seq<char>>, role: FieldRole) -> Result<(), JoinProblem>
    decreases tables.len(),
{
    if tables.len() == 0 {
        Err(JoinProblem::FieldNotJoined { role })
    } else {
        match qualified(value, tables[0]) {
            Some(f) => if f.len() == 0 {
                Err(JoinProblem::EmptyField { role })
            } else {
                Ok(())
            },
            None => qualified_in(value, tables.drop_first(), role),
        }
    }
}

/// The first refused condition of a stage joining `table`, if any.
pub open spec fn stage_conditions_error(
    cs: Seq<(Seq<char>, Seq<char>)>,
    available: Seq<Seq<char>>,
    table: Seq<char>,
) -> Option<JoinProblem>
    decreases cs.len(),
{
    if cs.len() == 0 {
        None
    } else if qualified_in(cs[0].0, available, FieldRole::Local) is Err {
        Some(qualified_in(cs[0].0, available, FieldRole::Local)->Err_0)
    } else if qualified_in(cs[0].1, seq![table], FieldRole::Foreign) is Err {
        Some(qualified_in(cs[0].1, seq![table], FieldRole::Foreign)->Err_0)
    } else {
        stage_conditions_error(cs.drop_first(), available, table)
    }
}

/// Why a stage is refused after the tables `available`, if it is.
pub open spec fn spec_error(spec: JoinSpec, available: Seq<Seq<char>>) -> Option<JoinProblem> {
    let cs = conditions(spec.on@);
    if spec.table@.len() == 0 {
        Some(JoinProblem::EmptyStageTable)
    } else if available.contains(spec.table@) {
        Some(JoinProblem::TableAlreadyPresent(spec.table))
    } else if spec.kind == JoinType::Cross {
        if cs.len() > 0 {
            Some(JoinProblem::CrossJoinWithConditions)
        } else {
            None
        }
    } else if cs.len() == 0 {
        Some(JoinProblem::MissingConditions)
    } else {
        stage_conditions_error(cs, available, spec.table@)
    }
}

/// The first refused stage of `stages`, each checked against the tables
/// joined before it.
pub open spec fn stages_error(stages: Seq<JoinSpec>, available: Seq<Seq<char>>) -> Option<JoinProblem>
    decreases stages.len(),
{
    if stages.len() == 0 {
        None
    } else {
        match spec_error(stages[0], available) {
            Some(p) => Some(p),
            None => stages_error(stages.drop_first(), available.push(stages[0].table@)),
        }
    }
}

/// Why a multi-stage request is refused, if it is.
pub open spec fn pipeline_error(r: JoinRequest) -> Option<JoinProblem> {
    if r.joins@.len() >= MAX_JOIN_STAGES {
        Some(JoinProblem::TooManyStages)
    } else {
        stages_error(seq![r.join].add(r.joins@), seq![r.from@])
    }
}

/// The field that `path` names in `table`: "table.field" with a non-empty
/// field, split at the first '.'.
pub open spec fn unqualified(path: Seq<char>, table: Seq<char>) -> Option<Seq<char>> {
    if exists|k: int| 0 <= k < path.len() && path[k] == '.' {
        let k = choose|k: int| 0 <= k < path.len() && path[k] == '.' && forall|j: int| 0 <= j < k ==> path[j] != '.';
        let field = path.subrange(k + 1, path.len() as int);
        if path.subrange(0, k) == table && field.len() > 0 {
            Some(field)
        } else {
            None
        }
    } else {
        None
    }
}

/// Checks that `value` names a field of one of `tables`.
pub fn validate_qualified_field(value: &str, tables: &Vec<String>, role: FieldRole) -> (r: Result<(), JoinError>)
    ensures
        match qualified_in(value@, tables@.map_values(|t: String| t@), role) {
            Ok(()) => r is Ok,
            Err(p) => r == Err::<(), JoinError>(JoinError::Invalid(p)),
        },
{
    let ghost ts = tables@.map_values(|t: String| t@);
    let mut i: usize = 0;
    assert(ts.subrange(0, ts.len() as int) =~= ts);
    while i < tables.len()
        invariant
            ts == tables@.map_values(|t: String| t@),
            i <= ts.len(),
            qualified_in(value@, ts, role) == qualified_in(value@, ts.subrange(i as int, ts.len() as int), role),
        decreases tables.len() - i,
    {
        let ghost rest = ts.subrange(i as int, ts.len() as int);
        assert(rest[0] == ts[i as int]);
        assert(rest.drop_first() =~= ts.subrange(i + 1, ts.len() as int));
        let prefix = concat(&tables[i], ".");
        proof {
            reveal_strlit(".");
            assert(prefix@ =~= ts[i as int].push('.'));
        }
        if let Some(field) = strip_prefix(value, &prefix) {
            if field.as_str().is_empty() {
                return Err(JoinError::Invalid(JoinProblem::EmptyField { role }));
            }
            return Ok(());
        }
        i += 1;
    }
    Err(JoinError::Invalid(JoinProblem::FieldNotJoined { role }))
}

/// Checks one stage against the tables joined before it.
pub fn validate_spec(spec: &JoinSpec, available: &Vec<String>) -> (r: Result<(), JoinError>)
    ensures
        match spec_error(*spec, available@.map_values(|t: String| t@)) {
            Some(p) => r == Err::<(), JoinError>(JoinError::Invalid(p)),
            None => r is Ok,
        },
{
    let ghost avail = available@.map_values(|t: String| t@);
    let ghost cs = conditions(spec.on@);
    if spec.table.as_str().is_empty() {
        return Err(JoinError::Invalid(JoinProblem::EmptyStageTable));
    }
    let mut k: usize = 0;
    while k < available.len()
        invariant
            avail == available@.map_values(|t: String| t@),
            k <= available@.len(),
            spec.table@.len() > 0,
            forall|j: int| 0 <= j < k ==> avail[j] != spec.table@,
        decreases available.len() - k,
    {
        if same_text(&available[k], &spec.table) {
            assert(avail[k as int] == spec.table@);
            assert(avail.contains(spec.table@));
            return Err(JoinError::Invalid(JoinProblem::TableAlreadyPresent(spec.table.clone())));
        }
        k += 1;
    }
    assert(!avail.contains(spec.table@));
    if spec.kind == JoinType::Cross {
        if spec.on.len() > 0 {
            return Err(JoinError::Invalid(JoinProblem::CrossJoinWithConditions));
        }
        return Ok(());
    }
    if spec.on.len() == 0 {
        return Err(JoinError::Invalid(JoinProblem::MissingConditions));
    }
    let mut foreign_tables: Vec<String> = Vec::new();
    foreign_tables.push(spec.table.clone());
    assert(foreign_tables@.map_values(|t: String| t@) =~= seq![spec.table@]);
    let mut i: usize = 0;
    assert(cs.subrange(0, cs.len() as int) =~= cs);
    while i < spec.on.len()
        invariant
            avail == available@.map_values(|t: String| t@),
            cs == conditions(spec.on@),
            cs.len() == spec.on@.len(),
            foreign_tables@.map_values(|t: String| t@) == seq![spec.table@],
            i <= cs.len(),
            spec_error(*spec, avail) == stage_conditions_error(cs.subrange(i as int, cs.len() as int), avail, spec.table@),
        decreases spec.on.len() - i,
    {
        let ghost rest = cs.subrange(i as int, cs.len() as int);
        assert(rest[0] == cs[i as int]);
        assert(rest.drop_first() =~= cs.subrange(i + 1, cs.len() as int));
        let (local, condition) = &spec.on[i];
        if let Err(e) = validate_qualified_field(local, available, FieldRole::Local) {
            return Err(e);
        }
        if let Err(e) = validate_qualified_field(&condition.equality.field, &foreign_tables, FieldRole::Foreign) {
            return Err(e);
        }
        i += 1;
    }
    Ok(())
}

/// Checks every stage of a multi-stage request: fewer than eight further
/// stages, each joining a new table on fields of tables already joined.
pub fn validate(request: &JoinRequest) -> (r: Result<(), JoinError>)
    ensures
        match pipeline_error(*request) {
            Some(p) => r == Err::<(), JoinError>(JoinError::Invalid(p)),
            None => r is Ok,
        },
{
    if request.joins.len() >= MAX_JOIN_STAGES {
        return Err(JoinError::Invalid(JoinProblem::TooManyStages));
    }
    let ghost stages = seq![request.join].add(request.joins@);
    let mut available: Vec<String> = Vec::new();
    available.push(request.from.clone());
    assert(available@.map_values(|t: String| t@) =~= seq![request.from@]);
    if let Err(e) = validate_spec(&request.join, &available) {
        return Err(e);
    }
    available.push(request.join.table.clone());
    assert(stages.drop_first() =~= request.joins@);
    assert(available@.map_values(|t: String| t@) =~= seq![request.from@].push(stages[0].table@));
    let mut i: usize = 0;
    assert(request.joins@.subrange(0, request.joins@.len() as int) =~= request.joins@);
    while i < request.joins.len()
        invariant
            stages == seq![request.join].add(request.joins@),
            i <= request.joins@.len(),
            pipeline_error(*request) == stages_error(
                request.joins@.subrange(i as int, request.joins@.len() as int),
                available@.map_values(|t: String| t@),
            ),
        decreases request.joins.len() - i,
    {
        let ghost rest = request.joins@.subrange(i as int, request.joins@.len() as int);
        assert(rest[0] == request.joins@[i as int]);
        assert(rest.drop_first() =~= request.joins@.subrange(i + 1, request.joins@.len() as int));
        let spec = &request.joins[i];
        if let Err(e) = validate_spec(spec, &available) {
            return Err(e);
        }
        let ghost before = available@.map_values(|t: String| t@);
        available.push(spec.table.clone());
        assert(available@.map_values(|t: String| t@) =~= before.push(spec.table@));
        i += 1;
    }
    Ok(())
}

/// The local and joined fields of a stage, in condition order.
pub fn stage_fields(spec: &JoinSpec) -> (r: (Vec<String>, Vec<String>))
    ensures
        r.0@.map_values(|s: String| s@) == conditions(spec.on@).map_values(|c: (Seq<char>, Seq<char>)| c.0),
        r.1@.map_values(|s: String| s@) == conditions(spec.on@).map_values(|c: (Seq<char>, Seq<char>)| c.1),
{
    let ghost cs = conditions(spec.on@);
    let mut local: Vec<String> = Vec::new();
    let mut foreign: Vec<String> = Vec::new();
    let mut i: usize = 0;
    while i < spec.on.len()
        invariant
            cs == conditions(spec.on@),
            i <= spec.on@.len(),
            local@.map_values(|s: String| s@) == cs.subrange(0, i as int).map_values(|c: (Seq<char>, Seq<char>)| c.0),
            foreign@.map_values(|s: String| s@) == cs.subrange(0, i as int).map_values(|c: (Seq<char>, Seq<char>)| c.1),
        decreases spec.on.len() - i,
    {
        let (name, condition) = &spec.on[i];
        let ghost before_local = local@.map_values(|s: String| s@);
        let ghost before_foreign = foreign@.map_values(|s: String| s@);
        local.push(name.clone());
        foreign.push(condition.equality.field.clone());
        assert(cs.subrange(0, i + 1) =~= cs.subrange(0, i as int).push(cs[i as int]));
        assert(local@.map_values(|s: String| s@) =~= before_local.push(cs[i as int].0));
        assert(foreign@.map_values(|s: String| s@) =~= before_foreign.push(cs[i as int].1));
        i += 1;
    }
    assert(cs.subrange(0, cs.len() as int) =~= cs);
    (local, foreign)
}

/// The field that `path` names in `table`, when `path` reads "table.field".
pub fn unqualified_field(path: &str, table: &str) -> (r: Option<String>)
    ensures
        match unqualified(path@, table@) {
            Some(f) => r matches Some(s) && s@ == f,
            None => r is None,
        },
{
    let cs = chars_of(path);
    let mut k: usize = 0;
    while k < cs.len() && cs[k] != '.'
        invariant
            cs@ == path@,
            k <= cs@.len(),
            forall|j: int| 0 <= j < k ==> path@[j] != '.',
        decreases cs.len() - k,
    {
        k += 1;
    }
    if k == cs.len() {
        return None;
    }
    proof {
        let m = choose|m: int| 0 <= m < path@.len() && path@[m] == '.' && forall|j: int| 0 <= j < m ==> path@[j] != '.';
        assert(path@[k as int] == '.');
        if m < k {
            assert(path@[m] != '.');
        } else if m > k {
            assert(path@[k as int] != '.');
        }
    }
    let head = substring(path, 0, k);
    if same_text(&head, table) && k + 1 < cs.len() {
        Some(substring(path, k + 1, cs.len()))
    } else {
        None
    }
}

/// The values that a path match stands for.
pub open spec fn match_values(m: PathMatch) -> Seq<JsonValue> {
    match m {
        PathMatch::Missing => Seq::empty(),
        PathMatch::One(x) => seq![*x],
        PathMatch::Many(xs) => referenced(xs@),
    }
}

/// What a field finds can stand in a join key: something, and not a lone null.
pub open spec fn keyable(found: Seq<JsonValue>) -> bool {
    found.len() > 1 || (found.len() == 1 && found[0] != JsonValue::Null)
}

/// What a field finds can stand in a merge key: one boolean, number or string.
pub open spec fn mergeable(found: Seq<JsonValue>) -> bool {
    found.len() == 1 && (found[0] is Bool || found[0] is Number || found[0] is String)
}

/// The values of a joined row's join key, field by field: none where a
/// field finds nothing or a lone null.
pub fn key_values<'a>(values: &'a Vec<(String, JsonValue)>, fields: &Vec<String>) -> (r: Option<Vec<PathMatch<'a>>>)
    ensures
        r is Some <==> forall|i: int| 0 <= i < fields@.len() ==> keyable(qualified_found(values@, (#[trigger] fields@[i])@)),
        r matches Some(ks) ==> ks@.len() == fields@.len() && forall|i: int| 0 <= i < fields@.len() ==> match_values(
            #[trigger] ks@[i],
        ) == qualified_found(values@, fields@[i]@),
{
    let mut out: Vec<PathMatch<'a>> = Vec::new();
    let mut i: usize = 0;
    while i < fields.len()
        invariant
            i <= fields@.len(),
            out@.len() == i,
            forall|j: int| 0 <= j < i ==> keyable(qualified_found(values@, (#[trigger] fields@[j])@)),
            forall|j: int| 0 <= j < i ==> match_values(#[trigger] out@[j]) == qualified_found(values@, fields@[j]@),
        decreases fields.len() - i,
    {
        let found = qualified_value(values, fields[i].as_str());
        let usable = match &found {
            PathMatch::Missing => false,
            PathMatch::One(JsonValue::Null) => false,
            PathMatch::One(_) => true,
            PathMatch::Many(_) => true,
        };
        if !usable {
            return None;
        }
        out.push(found);
        i += 1;
    }
    Some(out)
}

/// The values of a record's merge key, field by field: none where a field
/// does not find exactly one boolean, number or string.
pub fn merge_key_values<'a>(values: &'a Vec<(String, JsonValue)>, fields: &Vec<String>) -> (r: Option<Vec<&'a JsonValue>>)
    ensures
        r is Some <==> forall|i: int| 0 <= i < fields@.len() ==> mergeable(qualified_found(values@, (#[trigger] fields@[i])@)),
        r matches Some(ks) ==> ks@.len() == fields@.len() && forall|i: int| 0 <= i < fields@.len() ==> seq![
            *(#[trigger] ks@[i]),
        ] == qualified_found(values@, fields@[i]@),
{
    let mut out: Vec<&'a JsonValue> = Vec::new();
    let mut i: usize = 0;
    while i < fields.len()
        invariant
            i <= fields@.len(),
            out@.len() == i,
            forall|j: int| 0 <= j < i ==> mergeable(qualified_found(values@, (#[trigger] fields@[j])@)),
            forall|j: int| 0 <= j < i ==> seq![*(#[trigger] out@[j])] == qualified_found(values@, fields@[j]@),
        decreases fields.len() - i,
    {
        let value = match qualified_value(values, fields[i].as_str()) {
            PathMatch::One(v) => match v {
                JsonValue::Bool(_) | JsonValue::Number(_) | JsonValue::String(_) => v,
                _ => return None,
            },
            _ => return None,
        };
        out.push(value);
        i += 1;
    }
    Some(out)
}

} // verus!
