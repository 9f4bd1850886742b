//! Coercers: each one brings a JSON value to one primitive type, replacing a
//! compatible representation, or reports that it cannot.
use vstd::prelude::*;

use crate::errors::{append_errors, error_at, errors_view, DslError, ErrorKind, ErrorView};
use crate::json::{JValue, Json};
use crate::text::{
    chars_of, dec, dec_int, float_text, is_numeral, is_numeral_text, i64_text, int_float_text, parse_float_text, parse_i64,
    parse_i64_spec, parse_u64, parse_u64_spec, string_of, truncate_i64, truncate_i64_spec,
    truncate_u64, truncate_u64_spec, u64_text,
};

verus! {

/// The primitive types a coercer can target.
#[derive(Clone, Copy, PartialEq, Eq, Structural, Debug)]
pub enum PrimitiveType {
    String,
    I64,
    U64,
    F64,
    Boolean,
    Null,
    Array,
    Object,
    /// Reserved; no coercer targets it.
    File,
}

/// What coercing a value comes to: the value that then stands in its place,
/// and the errors, none when coercion succeeded.
pub struct Coerced {
    pub value: JValue,
    pub errors: Seq<ErrorView>,
}

pub open spec fn kept(v: JValue) -> Coerced {
    Coerced { value: v, errors: Seq::empty() }
}

pub open spec fn wrong_type(v: JValue, path: Seq<char>) -> Coerced {
    Coerced { value: v, errors: seq![error_at(ErrorKind::WrongType, path)] }
}

/// The path of the `i`-th element, or of the entry `key`, below `path`.
pub open spec fn child_path(path: Seq<char>, seg: Seq<char>) -> Seq<char> {
    path + seq!['/'] + seg
}

pub open spec fn index_path(path: Seq<char>, i: int) -> Seq<char> {
    child_path(path, dec(i as nat))
}

/// Coercion of `v` to the scalar type `t`.
pub open spec fn scalar_coerce(t: PrimitiveType, v: JValue, path: Seq<char>) -> Coerced {
    match t {
        PrimitiveType::String => match v {
            JValue::Str(_) => kept(v),
            JValue::I64(n) => kept(JValue::Str(dec_int(n as int))),
            JValue::U64(n) => kept(JValue::Str(dec(n as nat))),
            JValue::F64(x) => if is_numeral(x) {
                kept(JValue::Str(x))
            } else {
                wrong_type(v, path)
            },
            _ => wrong_type(v, path),
        },
        PrimitiveType::I64 => match v {
            JValue::I64(_) => kept(v),
            JValue::U64(n) => kept(JValue::I64(n as i64)),
            JValue::F64(x) => if is_numeral(x) {
                kept(JValue::I64(truncate_i64_spec(x)))
            } else {
                wrong_type(v, path)
            },
            JValue::Str(s) => match parse_i64_spec(s) {
                Some(n) => kept(JValue::I64(n)),
                None => wrong_type(v, path),
            },
            _ => wrong_type(v, path),
        },
        PrimitiveType::U64 => match v {
            JValue::U64(_) => kept(v),
            JValue::I64(n) => kept(JValue::U64(n as u64)),
            JValue::F64(x) => if is_numeral(x) {
                kept(JValue::U64(truncate_u64_spec(x)))
            } else {
                wrong_type(v, path)
            },
            JValue::Str(s) => match parse_u64_spec(s) {
                Some(n) => kept(JValue::U64(n)),
                None => wrong_type(v, path),
            },
            _ => wrong_type(v, path),
        },
        PrimitiveType::F64 => match v {
            JValue::F64(_) => kept(v),
            JValue::I64(n) => kept(JValue::F64(int_float_text(n as int))),
            JValue::U64(n) => kept(JValue::F64(int_float_text(n as int))),
            JValue::Str(s) => match float_text(s) {
                Some(x) => kept(JValue::F64(x)),
                None => wrong_type(v, path),
            },
            _ => wrong_type(v, path),
        },
        PrimitiveType::Boolean => match v {
            JValue::Boolean(_) => kept(v),
            JValue::Str(s) => if s == seq!['t', 'r', 'u', 'e'] {
                kept(JValue::Boolean(true))
            } else if s == seq!['f', 'a', 'l', 's', 'e'] {
                kept(JValue::Boolean(false))
            } else {
                wrong_type(v, path)
            },
            _ => wrong_type(v, path),
        },
        PrimitiveType::Null => match v {
            JValue::Null => kept(v),
            JValue::Str(s) => if s.len() == 0 {
                kept(JValue::Null)
            } else {
                wrong_type(v, path)
            },
            _ => wrong_type(v, path),
        },
        PrimitiveType::Object => match v {
            JValue::Object(_) => kept(v),
            _ => wrong_type(v, path),
        },
        PrimitiveType::Array => match v {
            JValue::Array(_) => kept(v),
            _ => wrong_type(v, path),
        },
        PrimitiveType::File => wrong_type(v, path),
    }
}

/// Coercion of `v` by `c`. An array coercer with an element coercer applies
/// it to every element, at the element's own path, and gathers the errors of
/// all elements in index order.
pub open spec fn coerce_spec(c: Coercer, v: JValue, path: Seq<char>) -> Coerced
    decreases c, 0nat,
{
    match c {
        Coercer::Array(a) => match v {
            JValue::Array(items) => match a.sub_coercer {
                None => kept(v),
                Some(sub) => Coerced {
                    value: JValue::Array(
                        Seq::new(
                            items.len(),
                            |i: int| coerce_spec(*sub, items[i], index_path(path, i)).value,
                        ),
                    ),
                    errors: element_errors(*sub, items, path, items.len()),
                },
            },
            _ => wrong_type(v, path),
        },
        _ => scalar_coerce(c.primitive(), v, path),
    }
}

/// The errors of coercing the first `n` elements of `items` with `sub`, in
/// index order.
pub open spec fn element_errors(sub: Coercer, items: Seq<JValue>, path: Seq<char>, n: nat) -> Seq<
    ErrorView,
>
    decreases sub, n + 1,
{
    if n == 0 || n > items.len() {
        Seq::empty()
    } else {
        element_errors(sub, items, path, (n - 1) as nat) + coerce_spec(
            sub,
            items[n - 1],
            index_path(path, n - 1),
        ).errors
    }
}

/// How a coercer's answer relates to what it comes to: `after` is the value
/// held in place once the coercer returned. `Ok(Some(x))` is a replacement
/// that differs from the value held, so a value that coercion leaves as it
/// is comes back as `Ok(None)`.
pub open spec fn answers(
    r: Result<Option<Json>, Vec<DslError>>,
    after: JValue,
    out: Coerced,
) -> bool {
    match r {
        Ok(None) => after == out.value && out.errors.len() == 0,
        Ok(Some(x)) => x@ == out.value && out.errors.len() == 0 && x@ != after,
        Err(e) => errors_view(e@) == out.errors && out.errors.len() > 0 && after == out.value,
    }
}

/// The path of a child node: `path`, a slash, and `seg`.
pub fn join_path(path: &String, seg: Vec<char>) -> (r: String)
    ensures
        r@ == child_path(path@, seg@),
{
    let mut cs = chars_of(path.as_str());
    cs.push('/');
    let ghost s0 = seg@;
    let mut seg = seg;
    cs.append(&mut seg);
    assert(cs@ =~= child_path(path@, s0));
    string_of(&cs)
}

fn wrong_type_error(path: &String, detail: &str) -> (r: Vec<DslError>)
    ensures
        errors_view(r@) == seq![error_at(ErrorKind::WrongType, path@)],
{
    let e = DslError::new(ErrorKind::WrongType, path, detail);
    let r = vec![e];
    assert(errors_view(r@) =~= seq![error_at(ErrorKind::WrongType, path@)]);
    r
}

fn string_json(cs: &Vec<char>) -> (r: Json)
    ensures
        r@ == JValue::Str(cs@),
{
    Json::String(string_of(cs))
}

fn float_json(cs: &Vec<char>) -> (r: Json)
    ensures
        r@ == JValue::F64(cs@),
{
    Json::F64(string_of(cs))
}

/// Coerces `val` to the scalar type `t`.
fn coerce_scalar(t: PrimitiveType, val: &Json, path: &String) -> (r: Result<Option<Json>, Vec<DslError>>)
    ensures
        answers(r, val@, scalar_coerce(t, val@, path@)),
{
    match t {
        PrimitiveType::String => match val {
            Json::String(_) => Ok(None),
            Json::I64(n) => Ok(Some(string_json(&i64_text(*n)))),
            Json::U64(n) => Ok(Some(string_json(&u64_text(*n)))),
            Json::F64(x) => if is_numeral_text(&chars_of(x.as_str())) {
                Ok(Some(Json::String(x.clone())))
            } else {
                Err(wrong_type_error(path, "Float value is not a numeral"))
            },
            _ => Err(wrong_type_error(path, "Can't coerce value to string")),
        },
        PrimitiveType::I64 => match val {
            Json::I64(_) => Ok(None),
            Json::U64(n) => Ok(Some(Json::I64(*n as i64))),
            Json::F64(x) => {
                let cs = chars_of(x.as_str());
                if is_numeral_text(&cs) {
                    Ok(Some(Json::I64(truncate_i64(&cs))))
                } else {
                    Err(wrong_type_error(path, "Float value is not a numeral"))
                }
            },
            Json::String(s) => match parse_i64(&chars_of(s.as_str())) {
                Some(n) => Ok(Some(Json::I64(n))),
                None => Err(wrong_type_error(path, "Can't coerce string value to i64")),
            },
            _ => Err(wrong_type_error(path, "Can't coerce object value to i64")),
        },
        PrimitiveType::U64 => match val {
            Json::U64(_) => Ok(None),
            Json::I64(n) => Ok(Some(Json::U64(*n as u64))),
            Json::F64(x) => {
                let cs = chars_of(x.as_str());
                if is_numeral_text(&cs) {
                    Ok(Some(Json::U64(truncate_u64(&cs))))
                } else {
                    Err(wrong_type_error(path, "Float value is not a numeral"))
                }
            },
            Json::String(s) => match parse_u64(&chars_of(s.as_str())) {
                Some(n) => Ok(Some(Json::U64(n))),
                None => Err(wrong_type_error(path, "Can't coerce string value to u64")),
            },
            _ => Err(wrong_type_error(path, "Can't coerce object value to u64")),
        },
        PrimitiveType::F64 => match val {
            Json::F64(_) => Ok(None),
            Json::I64(n) => {
                let mut cs = i64_text(*n);
                cs.push('.');
                cs.push('0');
                assert(cs@ =~= int_float_text(*n as int));
                Ok(Some(float_json(&cs)))
            },
            Json::U64(n) => {
                let mut cs = u64_text(*n);
                cs.push('.');
                cs.push('0');
                assert(cs@ =~= int_float_text(*n as int));
                Ok(Some(float_json(&cs)))
            },
            Json::String(s) => match parse_float_text(&chars_of(s.as_str())) {
                Some(x) => Ok(Some(float_json(&x))),
                None => Err(wrong_type_error(path, "Can't coerce string value to f64")),
            },
            _ => Err(wrong_type_error(path, "Can't coerce object value to f64")),
        },
        PrimitiveType::Boolean => match val {
            Json::Boolean(_) => Ok(None),
            Json::String(s) => {
                let cs = chars_of(s.as_str());
                if cs.len() == 4 && cs[0] == 't' && cs[1] == 'r' && cs[2] == 'u' && cs[3] == 'e' {
                    assert(cs@ =~= seq!['t', 'r', 'u', 'e']);
                    Ok(Some(Json::Boolean(true)))
                } else if cs.len() == 5 && cs[0] == 'f' && cs[1] == 'a' && cs[2] == 'l' && cs[3]
                    == 's' && cs[4] == 'e' {
                    assert(cs@ =~= seq!['f', 'a', 'l', 's', 'e']);
                    Ok(Some(Json::Boolean(false)))
                } else {
                    Err(
                        wrong_type_error(
                            path,
                            "Can't coerce this string value to boolean. Correct values are 'true' and 'false'",
                        ),
                    )
                }
            },
            _ => Err(wrong_type_error(path, "Can't coerce object to boolean")),
        },
        PrimitiveType::Null => match val {
            Json::Null => Ok(None),
            Json::String(s) => {
                let cs = chars_of(s.as_str());
                if cs.len() == 0 {
                    Ok(Some(Json::Null))
                } else {
                    Err(
                        wrong_type_error(
                            path,
                            "Can't coerce this string value to null. Correct value is only empty string",
                        ),
                    )
                }
            },
            _ => Err(wrong_type_error(path, "Can't coerce object to null")),
        },
        PrimitiveType::Object => match val {
            Json::Object(_) => Ok(None),
            _ => Err(wrong_type_error(path, "Can't coerce non-object value to the object type")),
        },
        PrimitiveType::Array => match val {
            Json::Array(_) => Ok(None),
            _ => Err(wrong_type_error(path, "Can't coerce object to array")),
        },
        PrimitiveType::File => Err(wrong_type_error(path, "Files are not coerced")),
    }
}

/// Coerces to a string: numbers are written out in decimal.
#[derive(Clone, Copy)]
pub struct StringCoercer;

/// Coerces to a signed integer: unsigned integers are cast, numerals
/// truncated toward zero, strings read in decimal.
#[derive(Clone, Copy)]
pub struct I64Coercer;

/// Coerces to an unsigned integer: signed integers are cast, numerals
/// truncated toward zero, strings read in decimal.
#[derive(Clone, Copy)]
pub struct U64Coercer;

/// Coerces to a floating-point number: integers and decimal strings become
/// numerals.
#[derive(Clone, Copy)]
pub struct F64Coercer;

/// Coerces to a boolean: only the strings `true` and `false` convert.
#[derive(Clone, Copy)]
pub struct BooleanCoercer;

/// Coerces to null: only the empty string converts.
#[derive(Clone, Copy)]
pub struct NullCoercer;

/// Accepts only objects.
#[derive(Clone, Copy)]
pub struct ObjectCoercer;

/// Accepts only arrays, and coerces each element when it has an element
/// coercer.
pub struct ArrayCoercer {
    pub sub_coercer: Option<Box<Coercer>>,
}

/// A coercer of any of the supported kinds.
pub enum Coercer {
    String(StringCoercer),
    I64(I64Coercer),
    U64(U64Coercer),
    F64(F64Coercer),
    Boolean(BooleanCoercer),
    Null(NullCoercer),
    Array(ArrayCoercer),
    Object(ObjectCoercer),
}

/// How deeply array coercers are nested in `c`.
pub open spec fn depth(c: Coercer) -> nat
    decreases c,
{
    match c {
        Coercer::Array(a) => match a.sub_coercer {
            Some(sub) => 1 + depth(*sub),
            None => 1,
        },
        _ => 0,
    }
}

pub open spec fn array_depth(a: ArrayCoercer) -> nat {
    match a.sub_coercer {
        Some(sub) => 1 + depth(*sub),
        None => 1,
    }
}

impl StringCoercer {
    pub fn get_primitive_type(&self) -> (r: PrimitiveType)
        ensures
            r == PrimitiveType::String,
    {
        PrimitiveType::String
    }

    pub fn coerce(&self, val: &mut Json, path: &String) -> (r: Result<Option<Json>, Vec<DslError>>)
        ensures
            *final(val) == *old(val),
            answers(r, final(val)@, scalar_coerce(PrimitiveType::String, old(val)@, path@)),
    {
        coerce_scalar(PrimitiveType::String, val, path)
    }
}

impl I64Coercer {
    pub fn get_primitive_type(&self) -> (r: PrimitiveType)
        ensures
            r == PrimitiveType::I64,
    {
        PrimitiveType::I64
    }

    pub fn coerce(&self, val: &mut Json, path: &String) -> (r: Result<Option<Json>, Vec<DslError>>)
        ensures
            *final(val) == *old(val),
            answers(r, final(val)@, scalar_coerce(PrimitiveType::I64, old(val)@, path@)),
    {
        coerce_scalar(PrimitiveType::I64, val, path)
    }
}

impl U64Coercer {
    pub fn get_primitive_type(&self) -> (r: PrimitiveType)
        ensures
            r == PrimitiveType::U64,
    {
        PrimitiveType::U64
    }

    pub fn coerce(&self, val: &mut Json, path: &String) -> (r: Result<Option<Json>, Vec<DslError>>)
        ensures
            *final(val) == *old(val),
            answers(r, final(val)@, scalar_coerce(PrimitiveType::U64, old(val)@, path@)),
    {
        coerce_scalar(PrimitiveType::U64, val, path)
    }
}

impl F64Coercer {
    pub fn get_primitive_type(&self) -> (r: PrimitiveType)
        ensures
            r == PrimitiveType::F64,
    {
        PrimitiveType::F64
    }

    pub fn coerce(&self, val: &mut Json, path: &String) -> (r: Result<Option<Json>, Vec<DslError>>)
        ensures
            *final(val) == *old(val),
            answers(r, final(val)@, scalar_coerce(PrimitiveType::F64, old(val)@, path@)),
    {
        coerce_scalar(PrimitiveType::F64, val, path)
    }
}

impl BooleanCoercer {
    pub fn get_primitive_type(&self) -> (r: PrimitiveType)
        ensures
            r == PrimitiveType::Boolean,
    {
        PrimitiveType::Boolean
    }

    pub fn coerce(&self, val: &mut Json, path: &String) -> (r: Result<Option<Json>, Vec<DslError>>)
        ensures
            *final(val) == *old(val),
            answers(r, final(val)@, scalar_coerce(PrimitiveType::Boolean, old(val)@, path@)),
    {
        coerce_scalar(PrimitiveType::Boolean, val, path)
    }
}

impl NullCoercer {
    pub fn get_primitive_type(&self) -> (r: PrimitiveType)
        ensures
            r == PrimitiveType::Null,
    {
        PrimitiveType::Null
    }

    pub fn coerce(&self, val: &mut Json, path: &String) -> (r: Result<Option<Json>, Vec<DslError>>)
        ensures
            *final(val) == *old(val),
            answers(r, final(val)@, scalar_coerce(PrimitiveType::Null, old(val)@, path@)),
    {
        coerce_scalar(PrimitiveType::Null, val, path)
    }
}

impl ObjectCoercer {
    pub fn get_primitive_type(&self) -> (r: PrimitiveType)
        ensures
            r == PrimitiveType::Object,
    {
        PrimitiveType::Object
    }

    pub fn coerce(&self, val: &mut Json, path: &String) -> (r: Result<Option<Json>, Vec<DslError>>)
        ensures
            *final(val) == *old(val),
            answers(r, final(val)@, scalar_coerce(PrimitiveType::Object, old(val)@, path@)),
    {
        coerce_scalar(PrimitiveType::Object, val, path)
    }
}

/// Coerces each element of `items` with `sub`, in index order, and gathers
/// the errors of all elements.
fn coerce_items(sub: &Coercer, items: &mut Vec<Json>, path: &String) -> (r: Vec<DslError>)
    ensures
        final(items)@.len() == old(items)@.len(),
        forall|i: int|
            0 <= i < old(items)@.len() ==> (#[trigger] final(items)@[i])@ == coerce_spec(
                *sub,
                old(items)@[i]@,
                index_path(path@, i),
            ).value,
        errors_view(r@) == element_errors(
            *sub,
            Json::Array(*old(items))@->Array_0,
            path@,
            old(items)@.len(),
        ),
    decreases depth(*sub), 3nat,
{
    let ghost orig = items@;
    let ghost iv = Json::Array(*items)@->Array_0;
    let mut errs: Vec<DslError> = Vec::new();
    let mut i: usize = 0;
    assert(errors_view(errs@) =~= Seq::<ErrorView>::empty());
    while i < items.len()
        invariant
            items@.len() == orig.len(),
            0 <= i <= items@.len(),
            iv.len() == orig.len(),
            forall|j: int| 0 <= j < orig.len() ==> #[trigger] iv[j] == orig[j]@,
            forall|j: int|
                0 <= j < i ==> (#[trigger] items@[j])@ == coerce_spec(
                    *sub,
                    orig[j]@,
                    index_path(path@, j),
                ).value,
            forall|j: int| i <= j < items@.len() ==> #[trigger] items@[j] == orig[j],
            errors_view(errs@) == element_errors(*sub, iv, path@, i as nat),
        decreases items@.len() - i,
    {
        let item_path = join_path(path, u64_text(i as u64));
        let mut item = items.remove(i);
        let r = sub.coerce(&mut item, &item_path);
        let ghost before = errs@;
        match r {
            Ok(Some(x)) => {
                items.insert(i, x);
            },
            Ok(None) => {
                items.insert(i, item);
            },
            Err(e) => {
                items.insert(i, item);
                append_errors(&mut errs, e);
            },
        }
        proof {
            assert(iv[i as int] == orig[i as int]@);
            assert(errors_view(errs@) =~= element_errors(*sub, iv, path@, (i + 1) as nat));
        }
        i = i + 1;
    }
    errs
}

/// The array that `coerce_items` leaves is what the array coercer comes to.
proof fn lemma_coerced_items(a: ArrayCoercer, before: Vec<Json>, after: Vec<Json>, path: Seq<char>)
    requires
        a.sub_coercer is Some,
        after@.len() == before@.len(),
        forall|i: int|
            0 <= i < before@.len() ==> (#[trigger] after@[i])@ == coerce_spec(
                *a.sub_coercer->0,
                before@[i]@,
                index_path(path, i),
            ).value,
    ensures
        Json::Array(after)@ == coerce_spec(Coercer::Array(a), Json::Array(before)@, path).value,
{
    let sub = *a.sub_coercer->0;
    let items = Json::Array(before)@->Array_0;
    let lhs = Json::Array(after)@->Array_0;
    let rhs = Seq::new(items.len(), |i: int| coerce_spec(sub, items[i], index_path(path, i)).value);
    assert forall|i: int| 0 <= i < items.len() implies lhs[i] == rhs[i] by {
        assert(items[i] == before@[i]@);
        assert(lhs[i] == after@[i]@);
    }
    assert(lhs =~= rhs);
    let out = coerce_spec(Coercer::Array(a), JValue::Array(items), path);
    assert(out.value is Array);
    assert(out.value->Array_0 =~= rhs);
}

impl ArrayCoercer {
    /// An array coercer that leaves the elements as they are.
    pub fn new() -> (r: ArrayCoercer)
        ensures
            r.sub_coercer is None,
    {
        ArrayCoercer { sub_coercer: None }
    }

    /// An array coercer that coerces each element with `sub_coercer`.
    pub fn of_type(sub_coercer: Coercer) -> (r: ArrayCoercer)
        ensures
            r.sub_coercer == Some(Box::new(sub_coercer)),
    {
        ArrayCoercer { sub_coercer: Some(Box::new(sub_coercer)) }
    }

    pub fn get_primitive_type(&self) -> (r: PrimitiveType)
        ensures
            r == PrimitiveType::Array,
    {
        PrimitiveType::Array
    }

    /// Elements are coerced in place; the answer is never a replacement.
    pub fn coerce(&self, val: &mut Json, path: &String) -> (r: Result<Option<Json>, Vec<DslError>>)
        ensures
            r is Ok ==> r == Ok::<Option<Json>, Vec<DslError>>(None),
            answers(
                r,
                final(val)@,
                coerce_spec(Coercer::Array(*self), old(val)@, path@),
            ),
        decreases array_depth(*self), 1nat,
    {
        match val {
            Json::Array(items) => {
                match &self.sub_coercer {
                    None => Ok(None),
                    Some(sub) => {
                        let ghost orig = *items;
                        let errs = coerce_items(sub, items, path);
                        proof {
                            lemma_coerced_items(*self, orig, *items, path@);
                        }
                        if errs.len() == 0 {
                            Ok(None)
                        } else {
                            Err(errs)
                        }
                    },
                }
            },
            _ => Err(wrong_type_error(path, "Can't coerce object to array")),
        }
    }
}

impl Coercer {
    /// The primitive type the coercer targets.
    pub open spec fn primitive(&self) -> PrimitiveType {
        match self {
            Coercer::String(_) => PrimitiveType::String,
            Coercer::I64(_) => PrimitiveType::I64,
            Coercer::U64(_) => PrimitiveType::U64,
            Coercer::F64(_) => PrimitiveType::F64,
            Coercer::Boolean(_) => PrimitiveType::Boolean,
            Coercer::Null(_) => PrimitiveType::Null,
            Coercer::Array(_) => PrimitiveType::Array,
            Coercer::Object(_) => PrimitiveType::Object,
        }
    }

    pub fn get_primitive_type(&self) -> (r: PrimitiveType)
        ensures
            r == self.primitive(),
    {
        match self {
            Coercer::String(c) => c.get_primitive_type(),
            Coercer::I64(c) => c.get_primitive_type(),
            Coercer::U64(c) => c.get_primitive_type(),
            Coercer::F64(c) => c.get_primitive_type(),
            Coercer::Boolean(c) => c.get_primitive_type(),
            Coercer::Null(c) => c.get_primitive_type(),
            Coercer::Array(c) => c.get_primitive_type(),
            Coercer::Object(c) => c.get_primitive_type(),
        }
    }

    /// `Ok(None)`: the value is of the right type, or was coerced in place;
    /// `Ok(Some(v))`: `v` is to replace it; `Err`: the failures.
    pub fn coerce(&self, val: &mut Json, path: &String) -> (r: Result<Option<Json>, Vec<DslError>>)
        ensures
            answers(r, final(val)@, coerce_spec(*self, old(val)@, path@)),
        decreases depth(*self), 2nat,
    {
        match self {
            Coercer::String(c) => c.coerce(val, path),
            Coercer::I64(c) => c.coerce(val, path),
            Coercer::U64(c) => c.coerce(val, path),
            Coercer::F64(c) => c.coerce(val, path),
            Coercer::Boolean(c) => c.coerce(val, path),
            Coercer::Null(c) => c.coerce(val, path),
            Coercer::Array(c) => c.coerce(val, path),
            Coercer::Object(c) => c.coerce(val, path),
        }
    }
}

/// A coercer to strings.
pub fn string() -> (r: Coercer)
    ensures
        r == Coercer::String(StringCoercer),
{
    Coercer::String(StringCoercer)
}

/// A coercer to signed integers.
pub fn int64() -> (r: Coercer)
    ensures
        r == Coercer::I64(I64Coercer),
{
    Coercer::I64(I64Coercer)
}

/// A coercer to unsigned integers.
pub fn uint64() -> (r: Coercer)
    ensures
        r == Coercer::U64(U64Coercer),
{
    Coercer::U64(U64Coercer)
}

/// A coercer to floating-point numbers.
pub fn float64() -> (r: Coercer)
    ensures
        r == Coercer::F64(F64Coercer),
{
    Coercer::F64(F64Coercer)
}

/// A coercer to booleans.
pub fn boolean() -> (r: Coercer)
    ensures
        r == Coercer::Boolean(BooleanCoercer),
{
    Coercer::Boolean(BooleanCoercer)
}

/// A coercer to null.
pub fn null() -> (r: Coercer)
    ensures
        r == Coercer::Null(NullCoercer),
{
    Coercer::Null(NullCoercer)
}

/// A coercer that accepts any array.
pub fn array() -> (r: Coercer)
    ensures
        r == Coercer::Array(ArrayCoercer { sub_coercer: None }),
{
    Coercer::Array(ArrayCoercer::new())
}

/// A coercer to arrays whose elements are coerced by `inner`.
pub fn array_of(inner: Coercer) -> (r: Coercer)
    ensures
        r == Coercer::Array(ArrayCoercer { sub_coercer: Some(Box::new(inner)) }),
{
    Coercer::Array(ArrayCoercer::of_type(inner))
}

/// A coercer that accepts any object.
pub fn object() -> (r: Coercer)
    ensures
        r == Coercer::Object(ObjectCoercer),
{
    Coercer::Object(ObjectCoercer)
}

} // verus!
