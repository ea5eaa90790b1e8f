use vstd::prelude::*;
use core::cmp::Ordering;
use crate::document::Document;
use crate::error::{DbError, FilterError};
use crate::json::{json_eq, json_equal, JsonValue};
use crate::text::{
    compare_str, is_infix, is_prefix, is_suffix, lex_order, split_dot, split_on_dot, str_contains,
    str_ends_with, str_starts_with,
};

verus! {

/// The comparison a condition applies between a document's field and its value.
#[derive(Debug, Clone, Copy, PartialEq, Eq, Structural)]
pub enum FilterOp {
    Eq,
    Gt,
    Lt,
    Gte,
    Lte,
    Contains,
    StartsWith,
    EndsWith,
}

/// `field` is a dotted path into the document's data.
#[derive(Debug)]
pub struct FilterCondition {
    pub field: String,
    pub op: FilterOp,
    pub value: JsonValue,
}

/// A predicate tree over one document's data.
#[derive(Debug)]
pub enum Filter {
    And(Vec<Filter>),
    Or(Vec<Filter>),
    Condition(FilterCondition),
}

impl Filter {
    /// Every value a condition compares with is a well-formed JSON value.
    pub open spec fn wf(&self) -> bool
        decreases *self,
    {
        match *self {
            Filter::And(fs) => forall|i: int| 0 <= i < fs@.len() ==> (#[trigger] fs@[i]).wf(),
            Filter::Or(fs) => forall|i: int| 0 <= i < fs@.len() ==> (#[trigger] fs@[i]).wf(),
            Filter::Condition(c) => c.value.wf(),
        }
    }
}

impl Filter {
    /// Whether every value a condition compares with is well formed.
    pub fn is_wf(&self) -> (r: bool)
        ensures
            r == self.wf(),
        decreases self,
    {
        match self {
            Filter::And(fs) | Filter::Or(fs) => {
                let mut i: usize = 0;
                while i < fs.len()
                    invariant
                        0 <= i <= fs.len(),
                        *self == Filter::And(*fs) || *self == Filter::Or(*fs),
                        forall|k: int| 0 <= k < i ==> (#[trigger] fs@[k]).wf(),
                    decreases fs.len() - i,
                {
                    proof {
                        broadcast use vstd::std_specs::vec::axiom_vec_index_decreases;
                        if *self == Filter::And(*fs) {
                            assert(decreases_to!(*self => (*self)->And_0));
                        } else {
                            assert(decreases_to!(*self => (*self)->Or_0));
                        }
                        assert(decreases_to!(*fs => fs[i as int]));
                    }
                    if !fs[i].is_wf() {
                        return false;
                    }
                    i = i + 1;
                }
                true
            },
            Filter::Condition(c) => c.value.is_wf(),
        }
    }
}

pub open spec fn entry_lookup(es: Seq<(String, JsonValue)>, key: Seq<char>) -> Option<JsonValue>
    decreases es.len(),
{
    if es.len() == 0 {
        None
    } else if es[0].0@ == key {
        Some(es[0].1)
    } else {
        entry_lookup(es.drop_first(), key)
    }
}

/// The member `key` of an object; nothing for any other value.
pub open spec fn member(v: JsonValue, key: Seq<char>) -> Option<JsonValue> {
    match v {
        JsonValue::Object(es) => entry_lookup(es@, key),
        _ => None,
    }
}

/// Successive member lookups along `segs`.
pub open spec fn resolve(v: JsonValue, segs: Seq<Seq<char>>) -> Option<JsonValue>
    decreases segs.len(),
{
    if segs.len() == 0 {
        Some(v)
    } else {
        match member(v, segs[0]) {
            None => None,
            Some(c) => resolve(c, segs.drop_first()),
        }
    }
}

/// The value at a dotted path.
pub open spec fn nested_value(v: JsonValue, path: Seq<char>) -> Option<JsonValue> {
    resolve(v, split_dot(path))
}

pub open spec fn is_nan_bits(b: u64) -> bool {
    (b / 0x10_0000_0000_0000u64) % 0x800 == 0x7ff && b % 0x10_0000_0000_0000u64 != 0
}

/// The position of a non-NaN double on the number line, from its bits.
pub open spec fn float_key(b: u64) -> int {
    if b < 0x8000_0000_0000_0000u64 {
        b as int
    } else {
        -((b - 0x8000_0000_0000_0000u64) as int)
    }
}

/// The order of two doubles given by their bits; a NaN compares as equal.
pub open spec fn float_order(a: u64, b: u64) -> Ordering {
    if is_nan_bits(a) || is_nan_bits(b) {
        Ordering::Equal
    } else if float_key(a) < float_key(b) {
        Ordering::Less
    } else if float_key(a) > float_key(b) {
        Ordering::Greater
    } else {
        Ordering::Equal
    }
}

pub open spec fn bool_order(a: bool, b: bool) -> Ordering {
    if a == b {
        Ordering::Equal
    } else if !a {
        Ordering::Less
    } else {
        Ordering::Greater
    }
}

pub open spec fn type_mismatch() -> DbError {
    DbError::Filter(FilterError::TypeMismatch)
}

/// Ordering of two JSON values: numbers as doubles, strings lexicographically,
/// booleans with false first; any other pairing is a type mismatch.
pub open spec fn compare_spec(a: JsonValue, b: JsonValue) -> Result<Ordering, DbError> {
    match (a, b) {
        (JsonValue::Number(x), JsonValue::Number(y)) => Ok(float_order(x.float_bits, y.float_bits)),
        (JsonValue::String(x), JsonValue::String(y)) => Ok(lex_order(x@, y@)),
        (JsonValue::Bool(x), JsonValue::Bool(y)) => Ok(bool_order(x, y)),
        _ => Err(type_mismatch()),
    }
}

/// What an ordering operator makes of a comparison's outcome.
pub open spec fn order_test(op: FilterOp, o: Ordering) -> bool {
    match op {
        FilterOp::Gt => o == Ordering::Greater,
        FilterOp::Lt => o == Ordering::Less,
        FilterOp::Gte => o != Ordering::Less,
        _ => o != Ordering::Greater,
    }
}

pub open spec fn string_test(op: FilterOp, field: Seq<char>, pattern: Seq<char>) -> bool {
    match op {
        FilterOp::Contains => is_infix(pattern, field),
        FilterOp::StartsWith => is_prefix(pattern, field),
        _ => is_suffix(pattern, field),
    }
}

/// Applies `op` to the field's value `v` and the condition's value `w`.
pub open spec fn apply_op(op: FilterOp, v: JsonValue, w: JsonValue) -> Result<bool, DbError> {
    match op {
        FilterOp::Eq => Ok(json_eq(v, w)),
        FilterOp::Gt | FilterOp::Lt | FilterOp::Gte | FilterOp::Lte => match compare_spec(v, w) {
            Ok(o) => Ok(order_test(op, o)),
            Err(e) => Err(e),
        },
        _ => match (v, w) {
            (JsonValue::String(s), JsonValue::String(p)) => Ok(string_test(op, s@, p@)),
            _ => Err(type_mismatch()),
        },
    }
}

pub open spec fn condition_holds(c: FilterCondition, data: JsonValue) -> Result<bool, DbError> {
    match nested_value(data, c.field@) {
        None => Err(DbError::Filter(FilterError::FieldNotFound(c.field))),
        Some(v) => apply_op(c.op, v, c.value),
    }
}

/// What a filter makes of a document's data: children are evaluated left to
/// right, `And` stops at the first false child, `Or` at the first true one, and
/// the first failure is the result.
pub open spec fn eval(f: Filter, data: JsonValue) -> Result<bool, DbError>
    decreases f,
{
    match f {
        Filter::And(fs) => eval_all(fs@, data),
        Filter::Or(fs) => eval_any(fs@, data),
        Filter::Condition(c) => condition_holds(c, data),
    }
}

pub open spec fn eval_all(fs: Seq<Filter>, data: JsonValue) -> Result<bool, DbError>
    decreases fs,
{
    if fs.len() == 0 {
        Ok(true)
    } else {
        match eval(fs[0], data) {
            Ok(true) => eval_all(fs.drop_first(), data),
            other => other,
        }
    }
}

pub open spec fn eval_any(fs: Seq<Filter>, data: JsonValue) -> Result<bool, DbError>
    decreases fs,
{
    if fs.len() == 0 {
        Ok(false)
    } else {
        match eval(fs[0], data) {
            Ok(false) => eval_any(fs.drop_first(), data),
            other => other,
        }
    }
}


fn is_nan(b: u64) -> (r: bool)
    ensures
        r == is_nan_bits(b),
{
    (b / 0x10_0000_0000_0000u64) % 0x800 == 0x7ff && b % 0x10_0000_0000_0000u64 != 0
}

fn key_of(b: u64) -> (r: i128)
    ensures
        r as int == float_key(b),
{
    if b < 0x8000_0000_0000_0000u64 {
        b as i128
    } else {
        -((b - 0x8000_0000_0000_0000u64) as i128)
    }
}

/// The order of two doubles given by their bits, a NaN comparing as equal.
pub fn compare_float_bits(a: u64, b: u64) -> (r: Ordering)
    ensures
        r == float_order(a, b),
{
    if is_nan(a) || is_nan(b) {
        return Ordering::Equal;
    }
    let ka = key_of(a);
    let kb = key_of(b);
    if ka < kb {
        Ordering::Less
    } else if ka > kb {
        Ordering::Greater
    } else {
        Ordering::Equal
    }
}

/// Orders two JSON values of the same comparable type. Numbers go by their
/// double bits, which for well-formed numbers (`JsonNumber::wf`) is the order
/// of their values as doubles.
pub fn compare_values(a: &JsonValue, b: &JsonValue) -> (r: Result<Ordering, DbError>)
    requires
        a.wf(),
        b.wf(),
    ensures
        r == compare_spec(*a, *b),
{
    match (a, b) {
        (JsonValue::Number(x), JsonValue::Number(y)) => Ok(compare_float_bits(x.float_bits, y.float_bits)),
        (JsonValue::String(x), JsonValue::String(y)) => Ok(compare_str(x.as_str(), y.as_str())),
        (JsonValue::Bool(x), JsonValue::Bool(y)) => {
            if *x == *y {
                Ok(Ordering::Equal)
            } else if !*x {
                Ok(Ordering::Less)
            } else {
                Ok(Ordering::Greater)
            }
        },
        _ => Err(DbError::Filter(FilterError::TypeMismatch)),
    }
}

/// The member `key` of `v` when `v` is an object that has it.
pub fn get_member<'a>(v: &'a JsonValue, key: &String) -> (r: Option<&'a JsonValue>)
    ensures
        match r {
            Some(x) => member(*v, key@) == Some(*x),
            None => member(*v, key@) is None,
        },
        v.wf() ==> (r matches Some(x) ==> x.wf()),
{
    match v {
        JsonValue::Object(es) => {
            let mut j: usize = 0;
            proof {
                assert(es@.subrange(0, es@.len() as int) =~= es@);
            }
            while j < es.len()
                invariant
                    0 <= j <= es.len(),
                    *v == JsonValue::Object(*es),
                    v.wf() ==> forall|k: int| 0 <= k < es@.len() ==> (#[trigger] es@[k]).1.wf(),
                    entry_lookup(es@, key@) == entry_lookup(es@.subrange(j as int, es@.len() as int), key@),
                decreases es.len() - j,
            {
                proof {
                    let sub = es@.subrange(j as int, es@.len() as int);
                    assert(sub[0] == es@[j as int]);
                    assert(sub.drop_first() =~= es@.subrange(j + 1, es@.len() as int));
                }
                if es[j].0 == *key {
                    proof {
                        if v.wf() {
                            assert(es@[j as int].1.wf());
                        }
                    }
                    return Some(&es[j].1);
                }
                j = j + 1;
            }
            None
        },
        _ => None,
    }
}

/// The value at the dotted path `path` of `value`: each piece between the dots
/// is looked up in turn.
pub fn get_nested_value<'a>(value: &'a JsonValue, path: &str) -> (r: Option<&'a JsonValue>)
    ensures
        match r {
            Some(x) => nested_value(*value, path@) == Some(*x),
            None => nested_value(*value, path@) is None,
        },
        value.wf() ==> (r matches Some(x) ==> x.wf()),
{
    let parts = split_on_dot(path);
    let ghost segs = split_dot(path@);
    let ghost parts_view = parts@.map_values(|p: String| p@);
    proof {
        assert(parts_view =~= segs);
        assert(parts_view.subrange(0, parts_view.len() as int) =~= segs);
    }
    let mut current = value;
    let mut i: usize = 0;
    while i < parts.len()
        invariant
            0 <= i <= parts.len(),
            parts_view == parts@.map_values(|p: String| p@),
            parts_view.len() == parts@.len(),
            parts_view == segs,
            segs == split_dot(path@),
            resolve(*value, parts_view) == resolve(*current, parts_view.subrange(i as int, parts_view.len() as int)),
            value.wf() ==> current.wf(),
        decreases parts.len() - i,
    {
        proof {
            let sub = parts_view.subrange(i as int, parts_view.len() as int);
            assert(sub[0] == parts@[i as int]@);
            assert(sub.drop_first() =~= parts_view.subrange(i + 1, parts_view.len() as int));
        }
        match get_member(current, &parts[i]) {
            Some(next) => {
                current = next;
            },
            None => {
                proof {
                    let sub = parts_view.subrange(i as int, parts_view.len() as int);
                    assert(resolve(*current, sub) is None);
                }
                return None;
            },
        }
        i = i + 1;
    }
    proof {
        assert(parts_view.subrange(i as int, parts_view.len() as int).len() == 0);
        assert(parts_view =~= segs);
    }
    Some(current)
}

/// Applies `op` to a field's value and a condition's value.
pub fn apply_filter_op(op: FilterOp, v: &JsonValue, w: &JsonValue) -> (r: Result<bool, DbError>)
    requires
        v.wf(),
        w.wf(),
    ensures
        r == apply_op(op, *v, *w),
{
    match op {
        FilterOp::Eq => Ok(json_equal(v, w)),
        FilterOp::Gt | FilterOp::Lt | FilterOp::Gte | FilterOp::Lte => {
            let o = compare_values(v, w)?;
            let holds = match (op, o) {
                (FilterOp::Gt, Ordering::Greater) => true,
                (FilterOp::Gt, _) => false,
                (FilterOp::Lt, Ordering::Less) => true,
                (FilterOp::Lt, _) => false,
                (FilterOp::Gte, Ordering::Less) => false,
                (FilterOp::Gte, _) => true,
                (_, Ordering::Greater) => false,
                (_, _) => true,
            };
            Ok(holds)
        },
        _ => match (v, w) {
            (JsonValue::String(s), JsonValue::String(p)) => {
                let holds = match op {
                    FilterOp::Contains => str_contains(s.as_str(), p.as_str()),
                    FilterOp::StartsWith => str_starts_with(s.as_str(), p.as_str()),
                    _ => str_ends_with(s.as_str(), p.as_str()),
                };
                Ok(holds)
            },
            _ => Err(DbError::Filter(FilterError::TypeMismatch)),
        },
    }
}


/// Evaluates a condition against a document's data.
pub fn condition_matches(c: &FilterCondition, data: &JsonValue) -> (r: Result<bool, DbError>)
    requires
        c.value.wf(),
        data.wf(),
    ensures
        r == condition_holds(*c, *data),
{
    match get_nested_value(data, c.field.as_str()) {
        None => Err(DbError::Filter(FilterError::FieldNotFound(c.field.clone()))),
        Some(v) => apply_filter_op(c.op, v, &c.value),
    }
}

impl Filter {
    /// Whether `doc`'s data satisfies this filter, or the first failure met
    /// while evaluating it left to right.
    pub fn matches(&self, doc: &Document) -> (r: Result<bool, DbError>)
        requires
            self.wf(),
            doc.data.wf(),
        ensures
            r == eval(*self, doc.data),
        decreases self,
    {
        match self {
            Filter::And(filters) => {
                let mut i: usize = 0;
                proof {
                    assert(filters@.subrange(0, filters@.len() as int) =~= filters@);
                }
                while i < filters.len()
                    invariant
                        0 <= i <= filters.len(),
                        *self == Filter::And(*filters),
                        self.wf(),
                        doc.data.wf(),
                        eval_all(filters@, doc.data) == eval_all(filters@.subrange(i as int, filters@.len() as int), doc.data),
                    decreases filters.len() - i,
                {
                    proof {
                        broadcast use vstd::std_specs::vec::axiom_vec_index_decreases;
                        assert(decreases_to!(*self => (*self)->And_0));
                        assert(decreases_to!(*filters => filters[i as int]));
                        let sub = filters@.subrange(i as int, filters@.len() as int);
                        assert(sub[0] == filters@[i as int]);
                        assert(filters@[i as int].wf());
                        assert(sub.drop_first() =~= filters@.subrange(i + 1, filters@.len() as int));
                    }
                    let m = filters[i].matches(doc);
                    match m {
                        Ok(true) => {},
                        _ => {
                            return m;
                        },
                    }
                    i = i + 1;
                }
                Ok(true)
            },
            Filter::Or(filters) => {
                let mut i: usize = 0;
                proof {
                    assert(filters@.subrange(0, filters@.len() as int) =~= filters@);
                }
                while i < filters.len()
                    invariant
                        0 <= i <= filters.len(),
                        *self == Filter::Or(*filters),
                        self.wf(),
                        doc.data.wf(),
                        eval_any(filters@, doc.data) == eval_any(filters@.subrange(i as int, filters@.len() as int), doc.data),
                    decreases filters.len() - i,
                {
                    proof {
                        broadcast use vstd::std_specs::vec::axiom_vec_index_decreases;
                        assert(decreases_to!(*self => (*self)->Or_0));
                        assert(decreases_to!(*filters => filters[i as int]));
                        let sub = filters@.subrange(i as int, filters@.len() as int);
                        assert(sub[0] == filters@[i as int]);
                        assert(filters@[i as int].wf());
                        assert(sub.drop_first() =~= filters@.subrange(i + 1, filters@.len() as int));
                    }
                    let m = filters[i].matches(doc);
                    match m {
                        Ok(false) => {},
                        _ => {
                            return m;
                        },
                    }
                    i = i + 1;
                }
                Ok(false)
            },
            Filter::Condition(c) => condition_matches(c, &doc.data),
        }
    }
}


/// An `And` of no filters accepts every document; an `Or` of none accepts no document.
pub proof fn lemma_empty_combinators(fs: Vec<Filter>, data: JsonValue)
    requires
        fs@.len() == 0,
    ensures
        eval(Filter::And(fs), data) == Ok::<bool, DbError>(true),
        eval(Filter::Or(fs), data) == Ok::<bool, DbError>(false),
{
}

} // verus!
