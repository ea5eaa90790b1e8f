use vstd::prelude::*;
use vstd::string::StringExecFns;
use crate::error::DbError;
use crate::filter::{entry_lookup, Filter, FilterCondition, FilterOp};
use crate::json::JsonValue;

verus! {

broadcast use vstd::std_specs::vec::axiom_vec_decreases_to_view, vstd::seq::axiom_seq_index_decreases;

/// The index of the first entry named `key`, or the number of entries when none is.
pub open spec fn key_index(es: Seq<(String, JsonValue)>, key: Seq<char>) -> int
    decreases es.len(),
{
    if es.len() == 0 {
        0
    } else if es[0].0@ == key {
        0
    } else {
        1 + key_index(es.drop_first(), key)
    }
}

pub open spec fn str_of(v: Option<JsonValue>) -> Option<Seq<char>> {
    match v {
        Some(JsonValue::String(s)) => Some(s@),
        _ => None,
    }
}

/// The operator a condition names on the wire.
pub open spec fn op_named(name: Seq<char>) -> Option<FilterOp> {
    if name == "eq"@ {
        Some(FilterOp::Eq)
    } else if name == "gt"@ {
        Some(FilterOp::Gt)
    } else if name == "lt"@ {
        Some(FilterOp::Lt)
    } else if name == "gte"@ {
        Some(FilterOp::Gte)
    } else if name == "lte"@ {
        Some(FilterOp::Lte)
    } else if name == "contains"@ {
        Some(FilterOp::Contains)
    } else if name == "startsWith"@ {
        Some(FilterOp::StartsWith)
    } else if name == "endsWith"@ {
        Some(FilterOp::EndsWith)
    } else {
        None
    }
}

/// `j` is the wire form of `f`: `{"type": "and"|"or", "conditions": [...]}` or
/// `{"type": "condition", "field": ..., "op": ..., "value": ...}`.
pub open spec fn parses_to(j: JsonValue, f: Filter) -> bool
    decreases j,
{
    match j {
        JsonValue::Object(es) => {
            let t = str_of(entry_lookup(es@, "type"@));
            let k = key_index(es@, "conditions"@);
            if t == Some("and"@) || t == Some("or"@) {
                if 0 <= k < es@.len() {
                    match es@[k].1 {
                        JsonValue::Array(xs) => match f {
                            Filter::And(fs) => t == Some("and"@) && all_parse_to(xs@, fs@),
                            Filter::Or(fs) => t == Some("or"@) && all_parse_to(xs@, fs@),
                            _ => false,
                        },
                        _ => false,
                    }
                } else {
                    false
                }
            } else if t == Some("condition"@) {
                match (
                    str_of(entry_lookup(es@, "field"@)),
                    str_of(entry_lookup(es@, "op"@)),
                    entry_lookup(es@, "value"@),
                ) {
                    (Some(field), Some(op), Some(v)) => match (op_named(op), f) {
                        (Some(o), Filter::Condition(c)) => c.field@ == field && c.op == o && c.value == v,
                        _ => false,
                    },
                    _ => false,
                }
            } else {
                false
            }
        },
        _ => false,
    }
}

pub open spec fn all_parse_to(xs: Seq<JsonValue>, fs: Seq<Filter>) -> bool
    decreases xs,
{
    xs.len() == fs.len() && (xs.len() == 0 || (parses_to(xs[0], fs[0]) && all_parse_to(
        xs.drop_first(),
        fs.drop_first(),
    )))
}


fn json_error(msg: &str) -> (r: DbError)
    ensures
        r is Json,
{
    DbError::Json(String::from_str(msg))
}

fn is_word(s: &String, w: &str) -> (r: bool)
    ensures
        r == (s@ == w@),
{
    *s == String::from_str(w)
}

/// The index of the first entry named `key`.
fn find_key(es: &Vec<(String, JsonValue)>, key: &str) -> (r: usize)
    ensures
        r as int == key_index(es@, key@),
        r <= es.len(),
        r < es.len() ==> entry_lookup(es@, key@) == Some(es@[r as int].1),
        r == es.len() ==> entry_lookup(es@, key@) is None,
{
    let k = String::from_str(key);
    let mut j: usize = 0;
    proof {
        assert(es@.subrange(0, es@.len() as int) =~= es@);
    }
    while j < es.len()
        invariant
            0 <= j <= es.len(),
            k@ == key@,
            key_index(es@, key@) == j + key_index(es@.subrange(j as int, es@.len() as int), key@),
            entry_lookup(es@, key@) == entry_lookup(es@.subrange(j as int, es@.len() as int), key@),
        decreases es.len() - j,
    {
        proof {
            let sub = es@.subrange(j as int, es@.len() as int);
            assert(sub[0] == es@[j as int]);
            assert(sub.drop_first() =~= es@.subrange(j + 1, es@.len() as int));
        }
        if es[j].0 == k {
            return j;
        }
        j = j + 1;
    }
    j
}

/// The string an entry holds, when it is one.
fn string_at(es: &Vec<(String, JsonValue)>, i: usize) -> (r: Option<&String>)
    requires
        i < es.len(),
    ensures
        match r {
            Some(s) => str_of(Some(es@[i as int].1)) == Some(s@),
            None => str_of(Some(es@[i as int].1)) is None,
        },
{
    match &es[i].1 {
        JsonValue::String(s) => Some(s),
        _ => None,
    }
}

fn op_from(name: &String) -> (r: Option<FilterOp>)
    ensures
        r == op_named(name@),
{
    if is_word(name, "eq") {
        Some(FilterOp::Eq)
    } else if is_word(name, "gt") {
        Some(FilterOp::Gt)
    } else if is_word(name, "lt") {
        Some(FilterOp::Lt)
    } else if is_word(name, "gte") {
        Some(FilterOp::Gte)
    } else if is_word(name, "lte") {
        Some(FilterOp::Lte)
    } else if is_word(name, "contains") {
        Some(FilterOp::Contains)
    } else if is_word(name, "startsWith") {
        Some(FilterOp::StartsWith)
    } else if is_word(name, "endsWith") {
        Some(FilterOp::EndsWith)
    } else {
        None
    }
}

proof fn lemma_all_parse_push(xs: Seq<JsonValue>, fs: Seq<Filter>, x: JsonValue, f: Filter)
    requires
        all_parse_to(xs, fs),
        parses_to(x, f),
    ensures
        all_parse_to(xs.push(x), fs.push(f)),
    decreases xs.len(),
{
    if xs.len() > 0 {
        lemma_all_parse_push(xs.drop_first(), fs.drop_first(), x, f);
        assert(xs.push(x).drop_first() =~= xs.drop_first().push(x));
        assert(fs.push(f).drop_first() =~= fs.drop_first().push(f));
    } else {
        assert(xs.push(x).drop_first() =~= xs);
        assert(fs.push(f).drop_first() =~= fs);
    }
}

proof fn lemma_all_parse_index(xs: Seq<JsonValue>, fs: Seq<Filter>, i: int)
    requires
        all_parse_to(xs, fs),
        0 <= i < xs.len(),
    ensures
        parses_to(xs[i], fs[i]),
    decreases xs.len(),
{
    if i > 0 {
        lemma_all_parse_index(xs.drop_first(), fs.drop_first(), i - 1);
    }
}

/// Reads a filter from its wire form: `{"type": "and"|"or", "conditions": [...]}`
/// or `{"type": "condition", "field": "a.b", "op": "eq"|"gt"|"lt"|"gte"|"lte"|
/// "contains"|"startsWith"|"endsWith", "value": ...}`. Fails exactly when
/// `json` is the wire form of no filter.
pub fn parse_filter(json: JsonValue) -> (r: Result<Filter, DbError>)
    ensures
        r matches Ok(f) ==> parses_to(json, f),
        r matches Ok(f) ==> (json.wf() ==> f.wf()),
        r is Err ==> forall|f: Filter| !parses_to(json, f),
        r matches Err(e) ==> e is Json,
    decreases json,
{
    let ghost j0 = json;
    match json {
        JsonValue::Object(mut es) => {
            let ghost es0 = es@;
            let ti = find_key(&es, "type");
            if ti == es.len() {
                return Err(json_error("Invalid filter type. Must be 'and', 'or', or 'condition'"));
            }
            let (is_and, is_or, is_condition) = match string_at(&es, ti) {
                Some(t) => (is_word(t, "and"), is_word(t, "or"), is_word(t, "condition")),
                None => {
                    return Err(json_error("Invalid filter type. Must be 'and', 'or', or 'condition'"));
                },
            };
            if is_and || is_or {
                let ci = find_key(&es, "conditions");
                if ci == es.len() {
                    return Err(json_error("'conditions' array required for AND/OR filter"));
                }
                let entry = es.remove(ci);
                let ghost entry0 = entry;
                match entry.1 {
                    JsonValue::Array(mut xs) => {
                        let ghost xs0 = xs@;
                        proof {
                            assert(entry0 == es0[ci as int]);
                            assert(decreases_to!(j0 => j0->Object_0));
                            assert(decreases_to!(j0->Object_0 => es0));
                            assert(decreases_to!(es0 => es0[ci as int]));
                            assert(decreases_to!(es0[ci as int] => es0[ci as int].1));
                            assert(decreases_to!(es0[ci as int].1 => (es0[ci as int].1)->Array_0));
                            assert((es0[ci as int].1)->Array_0@ == xs0);
                            assert(decreases_to!(j0 => xs0));
                        }
                        let mut fs: Vec<Filter> = Vec::new();
                        let ghost mut k: int = 0;
                        proof {
                            if j0.wf() {
                                assert(es0[ci as int].1.wf());
                                let arr = es0[ci as int].1;
                                assert(arr->Array_0@ == xs0);
                                assert(arr.wf() ==> forall|m: int| 0 <= m < xs0.len() ==> (#[trigger] xs0[m]).wf());
                            }
                            assert(xs0.subrange(0, xs0.len() as int) =~= xs0);
                            assert(xs0.subrange(0, 0) =~= Seq::<JsonValue>::empty());
                            assert(fs@ =~= Seq::<Filter>::empty());
                        }
                        while xs.len() > 0
                            invariant
                                0 <= k <= xs0.len(),
                                decreases_to!(j0 => xs0),
                                j0 == json,
                                j0 is Object,
                                j0->Object_0@ == es0,
                                0 <= ci < es0.len(),
                                key_index(es0, "conditions"@) == ci,
                                es0[ci as int].1 is Array,
                                (es0[ci as int].1)->Array_0@ == xs0,
                                str_of(entry_lookup(es0, "type"@)) == Some("and"@) || str_of(entry_lookup(es0, "type"@)) == Some("or"@),
                                is_and ==> str_of(entry_lookup(es0, "type"@)) == Some("and"@),
                                !is_and ==> str_of(entry_lookup(es0, "type"@)) == Some("or"@),
                                xs@ == xs0.subrange(k, xs0.len() as int),
                                all_parse_to(xs0.subrange(0, k), fs@),
                                fs@.len() == k,
                                j0.wf() ==> forall|m: int| 0 <= m < xs0.len() ==> (#[trigger] xs0[m]).wf(),
                                j0.wf() ==> forall|m: int| 0 <= m < fs@.len() ==> (#[trigger] fs@[m]).wf(),
                            decreases xs.len(),
                        {
                            let x = xs.remove(0);
                            proof {
                                assert(x == xs0[k]);
                                assert(xs@ =~= xs0.subrange(k + 1, xs0.len() as int));
                                assert(decreases_to!(xs0 => xs0[k]));
                                assert(decreases_to!(j0 => x));
                            }
                            match parse_filter(x) {
                                Ok(f) => {
                                    proof {
                                        lemma_all_parse_push(xs0.subrange(0, k), fs@, x, f);
                                        assert(xs0.subrange(0, k).push(x) =~= xs0.subrange(0, k + 1));
                                    }
                                    fs.push(f);
                                },
                                Err(e) => {
                                    proof {
                                        assert forall|g: Filter| !parses_to(j0, g) by {
                                            if parses_to(j0, g) {
                                                let gs = match g {
                                                    Filter::And(v) => v@,
                                                    Filter::Or(v) => v@,
                                                    _ => Seq::empty(),
                                                };
                                                assert(all_parse_to(xs0, gs));
                                                lemma_all_parse_index(xs0, gs, k);
                                            }
                                        }
                                    }
                                    return Err(e);
                                },
                            }
                            proof {
                                k = k + 1;
                            }
                        }
                        proof {
                            assert(xs0.subrange(0, k) =~= xs0);
                        }
                        if is_and {
                            Ok(Filter::And(fs))
                        } else {
                            Ok(Filter::Or(fs))
                        }
                    },
                    _ => Err(json_error("'conditions' array required for AND/OR filter")),
                }
            } else if is_condition {
                let fi = find_key(&es, "field");
                let field = if fi < es.len() {
                    match string_at(&es, fi) {
                        Some(s) => s.clone(),
                        None => {
                            return Err(json_error("'field' string required for condition"));
                        },
                    }
                } else {
                    return Err(json_error("'field' string required for condition"));
                };
                let oi = find_key(&es, "op");
                let op = if oi < es.len() {
                    match string_at(&es, oi) {
                        Some(s) => match op_from(s) {
                            Some(o) => o,
                            None => {
                                return Err(json_error("Invalid or missing 'op' in condition"));
                            },
                        },
                        None => {
                            return Err(json_error("Invalid or missing 'op' in condition"));
                        },
                    }
                } else {
                    return Err(json_error("Invalid or missing 'op' in condition"));
                };
                let vi = find_key(&es, "value");
                if vi == es.len() {
                    return Err(json_error("'value' required for condition"));
                }
                let entry = es.remove(vi);
                proof {
                    assert(entry == es0[vi as int]);
                }
                proof {
                    if j0.wf() {
                        assert(es0[vi as int].1.wf());
                    }
                }
                Ok(Filter::Condition(FilterCondition { field, op, value: entry.1 }))
            } else {
                Err(json_error("Invalid filter type. Must be 'and', 'or', or 'condition'"))
            }
        },
        _ => Err(json_error("Invalid filter type. Must be 'and', 'or', or 'condition'")),
    }
}

} // verus!
