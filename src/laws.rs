//! Properties that hold of every parameter set, coercer and value.
use vstd::prelude::*;

use crate::builder::{declared, first_named, names_unique};
use crate::coercers::{coerce_spec, index_path, scalar_coerce, ArrayCoercer, Coercer, PrimitiveType};
use crate::errors::{strs_view, ErrorKind, ErrorView};
use crate::json::{find_key, JValue};
use crate::coercers::child_path;
use crate::params::{
    count_present, custom_errors, group_errors, group_path, groups_errors, nested_items_spec,
    nested_spec, param_spec, param_value_spec, params_spec, process_spec, value_errors, Check,
    Group, Param, ParamSet,
};

verus! {

/// A mutually exclusive group reports an error exactly when more than one of
/// its keys is present, an exactly-one group exactly when the number present
/// is not one, an at-least-one group exactly when none is present; each
/// reports at most one error, at the object's path and naming the keys.
pub proof fn group_arithmetic<C: Check>(
    keys: Vec<String>,
    entries: Seq<(Seq<char>, JValue)>,
    path: Seq<char>,
    strict: bool,
)
    ensures
        ({
            let p = count_present(strs_view(keys@), entries);
            &&& (group_errors(Group::<C>::MutuallyExclusive(keys), entries, path, strict).len() > 0
                <==> p > 1)
            &&& (group_errors(Group::<C>::ExactlyOneOf(keys), entries, path, strict).len() > 0
                <==> p != 1)
            &&& (group_errors(Group::<C>::AtLeastOneOf(keys), entries, path, strict).len() > 0
                <==> p == 0)
        }),
        group_errors(Group::<C>::MutuallyExclusive(keys), entries, path, strict).len() <= 1,
        group_errors(Group::<C>::ExactlyOneOf(keys), entries, path, strict).len() <= 1,
        group_errors(Group::<C>::AtLeastOneOf(keys), entries, path, strict).len() <= 1,
        forall|e: ErrorView|
            group_errors(Group::<C>::MutuallyExclusive(keys), entries, path, strict).contains(e)
                ==> e == (ErrorView {
                kind: ErrorKind::MutuallyExclusive,
                path,
                params: strs_view(keys@),
            }),
{
    let g = group_errors(Group::<C>::MutuallyExclusive(keys), entries, path, strict);
    assert forall|e: ErrorView| g.contains(e) implies e == (ErrorView {
        kind: ErrorKind::MutuallyExclusive,
        path,
        params: strs_view(keys@),
    }) by {
        let i = choose|i: int| 0 <= i < g.len() && g[i] == e;
    }
}

/// Processing one parameter changes nothing but the entry of its own key:
/// every other entry keeps its key and value, and at most one entry, the
/// parameter's default, is added at the end.
pub proof fn param_touches_only_its_key<C: Check>(
    set: ParamSet<C>,
    k: int,
    entries: Seq<(Seq<char>, JValue)>,
    path: Seq<char>,
    strict: bool,
)
    requires
        0 <= k < set.params@.len(),
    ensures
        ({
            let after = param_spec(set, k, entries, path, strict).0;
            &&& entries.len() <= after.len() <= entries.len() + 1
            &&& forall|j: int|
                0 <= j < entries.len() && entries[j].0 != set.params@[k].name@ ==> #[trigger] after[j]
                    == entries[j]
            &&& after.len() == entries.len() + 1 ==> after.last().0 == set.params@[k].name@
        }),
{
    crate::json::lemma_find_key(entries, set.params@[k].name@);
}

/// Whether `v` already has the type that `c` coerces to: for an array
/// coercer with an element coercer, every element has the element type.
pub open spec fn has_type(c: Coercer, v: JValue) -> bool
    decreases c,
{
    match c {
        Coercer::String(_) => v is Str,
        Coercer::I64(_) => v is I64,
        Coercer::U64(_) => v is U64,
        Coercer::F64(_) => v is F64,
        Coercer::Boolean(_) => v is Boolean,
        Coercer::Null(_) => v is Null,
        Coercer::Object(_) => v is Object,
        Coercer::Array(a) => match v {
            JValue::Array(items) => match a.sub_coercer {
                None => true,
                Some(sub) => forall|i: int| 0 <= i < items.len() ==> has_type(*sub, #[trigger] items[i]),
            },
            _ => false,
        },
    }
}

proof fn lemma_no_element_errors(sub: Coercer, items: Seq<JValue>, path: Seq<char>, n: nat)
    requires
        n <= items.len(),
        forall|i: int| 0 <= i < n ==> (#[trigger] coerce_spec(sub, items[i], index_path(path, i))).errors.len() == 0,
    ensures
        crate::coercers::element_errors(sub, items, path, n).len() == 0,
    decreases n,
{
    if n > 0 {
        lemma_no_element_errors(sub, items, path, (n - 1) as nat);
        assert(coerce_spec(sub, items[n - 1], index_path(path, n - 1)).errors.len() == 0);
        assert(crate::coercers::element_errors(sub, items, path, n) == crate::coercers::element_errors(sub, items, path, (n - 1) as nat) + coerce_spec(sub, items[n - 1], index_path(path, n - 1)).errors);
    }
}

/// A value that already has a coercer's type comes through coercion
/// unchanged and without error.
pub proof fn coerce_keeps_typed_value(c: Coercer, v: JValue, path: Seq<char>)
    requires
        has_type(c, v),
    ensures
        coerce_spec(c, v, path).value == v,
        coerce_spec(c, v, path).errors.len() == 0,
    decreases c,
{
    match c {
        Coercer::Array(a) => match v {
            JValue::Array(items) => match a.sub_coercer {
                None => {},
                Some(sub) => {
                    assert forall|i: int| 0 <= i < items.len() implies (#[trigger] coerce_spec(
                        *sub,
                        items[i],
                        index_path(path, i),
                    )).errors.len() == 0 && coerce_spec(*sub, items[i], index_path(path, i)).value
                        == items[i] by {
                        coerce_keeps_typed_value(*sub, items[i], index_path(path, i));
                    }
                    lemma_no_element_errors(*sub, items, path, items.len());
                    let out = coerce_spec(c, v, path);
                    let rhs = Seq::new(
                        items.len(),
                        |i: int| coerce_spec(*sub, items[i], index_path(path, i)).value,
                    );
                    assert(out.value->Array_0 =~= rhs);
                    assert(rhs =~= items);
                },
            },
            _ => {},
        },
        _ => {},
    }
}

proof fn lemma_same_element_errors(
    sub: Coercer,
    items: Seq<JValue>,
    items2: Seq<JValue>,
    path: Seq<char>,
    n: nat,
)
    requires
        n <= items.len(),
        items2.len() == items.len(),
        forall|i: int|
            0 <= i < n ==> (#[trigger] coerce_spec(sub, items2[i], index_path(path, i))).errors
                == coerce_spec(sub, items[i], index_path(path, i)).errors,
    ensures
        crate::coercers::element_errors(sub, items2, path, n) == crate::coercers::element_errors(
            sub,
            items,
            path,
            n,
        ),
    decreases n,
{
    if n > 0 {
        lemma_same_element_errors(sub, items, items2, path, (n - 1) as nat);
        assert(coerce_spec(sub, items2[n - 1], index_path(path, n - 1)).errors == coerce_spec(
            sub,
            items[n - 1],
            index_path(path, n - 1),
        ).errors);
    }
}

/// Coercing a second time changes nothing: the value stays what the first
/// coercion left and the errors are the same.
pub proof fn coerce_is_stable(c: Coercer, v: JValue, path: Seq<char>)
    ensures
        coerce_spec(c, coerce_spec(c, v, path).value, path) == coerce_spec(c, v, path),
    decreases c,
{
    let once = coerce_spec(c, v, path);
    match c {
        Coercer::Array(a) => match v {
            JValue::Array(items) => match a.sub_coercer {
                None => {},
                Some(sub) => {
                    let items2 = once.value->Array_0;
                    let rhs1 = Seq::new(
                        items.len(),
                        |i: int| coerce_spec(*sub, items[i], index_path(path, i)).value,
                    );
                    assert(items2 =~= rhs1);
                    assert forall|i: int| 0 <= i < items.len() implies #[trigger] coerce_spec(
                        *sub,
                        items2[i],
                        index_path(path, i),
                    ) == coerce_spec(*sub, items[i], index_path(path, i)) by {
                        coerce_is_stable(*sub, items[i], index_path(path, i));
                    }
                    lemma_same_element_errors(*sub, items, items2, path, items.len());
                    let twice = coerce_spec(c, once.value, path);
                    let rhs2 = Seq::new(
                        items2.len(),
                        |i: int| coerce_spec(*sub, items2[i], index_path(path, i)).value,
                    );
                    assert(twice.value->Array_0 =~= rhs2);
                    assert(rhs2 =~= items2);
                    assert(twice.errors == once.errors);
                },
            },
            _ => {},
        },
        _ => {
            assert(scalar_coerce(c.primitive(), once.value, path) == once);
        },
    }
}

/// Every error of a coercion is reported at the coerced node or below it:
/// its path starts with the node's path.
pub proof fn coerce_errors_rooted(c: Coercer, v: JValue, path: Seq<char>)
    ensures
        forall|e: ErrorView|
            coerce_spec(c, v, path).errors.contains(e) ==> e.path.len() >= path.len()
                && e.path.subrange(0, path.len() as int) == path,
    decreases c,
{
    let out = coerce_spec(c, v, path);
    match c {
        Coercer::Array(a) => match v {
            JValue::Array(items) => match a.sub_coercer {
                None => {},
                Some(sub) => {
                    assert forall|i: int| 0 <= i < items.len() implies forall|e: ErrorView|
                        (#[trigger] coerce_spec(*sub, items[i], index_path(path, i))).errors.contains(
                            e,
                        ) ==> e.path.len() >= path.len() && e.path.subrange(0, path.len() as int)
                            == path by {
                        coerce_errors_rooted(*sub, items[i], index_path(path, i));
                        let ip = index_path(path, i);
                        assert(ip.subrange(0, path.len() as int) =~= path);
                        assert forall|e: ErrorView|
                            coerce_spec(*sub, items[i], ip).errors.contains(e) implies e.path.len()
                            >= path.len() && e.path.subrange(0, path.len() as int) == path by {
                            assert(e.path.subrange(0, path.len() as int) =~= e.path.subrange(
                                0,
                                ip.len() as int,
                            ).subrange(0, path.len() as int));
                        }
                    }
                    lemma_element_errors_rooted(*sub, items, path, items.len());
                    assert(out.errors == crate::coercers::element_errors(*sub, items, path, items.len()));
                },
            },
            _ => {
                assert forall|e: ErrorView| out.errors.contains(e) implies e.path.len()
                    >= path.len() && e.path.subrange(0, path.len() as int) == path by {
                    let i = choose|i: int| 0 <= i < out.errors.len() && out.errors[i] == e;
                    assert(path.subrange(0, path.len() as int) =~= path);
                }
            },
        },
        _ => {
            assert forall|e: ErrorView| out.errors.contains(e) implies e.path.len() >= path.len()
                && e.path.subrange(0, path.len() as int) == path by {
                let i = choose|i: int| 0 <= i < out.errors.len() && out.errors[i] == e;
                assert(path.subrange(0, path.len() as int) =~= path);
            }
        },
    }
}

proof fn lemma_element_errors_rooted(sub: Coercer, items: Seq<JValue>, path: Seq<char>, n: nat)
    requires
        n <= items.len(),
        forall|i: int|
            0 <= i < items.len() ==> forall|e: ErrorView|
                (#[trigger] coerce_spec(sub, items[i], index_path(path, i))).errors.contains(e)
                    ==> e.path.len() >= path.len() && e.path.subrange(0, path.len() as int) == path,
    ensures
        forall|e: ErrorView|
            crate::coercers::element_errors(sub, items, path, n).contains(e) ==> e.path.len()
                >= path.len() && e.path.subrange(0, path.len() as int) == path,
    decreases n,
{
    if n > 0 {
        lemma_element_errors_rooted(sub, items, path, (n - 1) as nat);
        let prev = crate::coercers::element_errors(sub, items, path, (n - 1) as nat);
        let last = coerce_spec(sub, items[n - 1], index_path(path, n - 1)).errors;
        assert forall|e: ErrorView|
            crate::coercers::element_errors(sub, items, path, n).contains(e) implies e.path.len()
            >= path.len() && e.path.subrange(0, path.len() as int) == path by {
            let all = prev + last;
            let j = choose|j: int| 0 <= j < all.len() && all[j] == e;
            if j < prev.len() {
                assert(prev.contains(e));
            } else {
                assert(last[j - prev.len()] == e);
                assert(last.contains(e));
            }
        }
    }
}

/// Each element of a coerced array is what coercing that element alone at
/// its own path gives, whatever the other elements are and whether they
/// fail.
pub proof fn element_coerced_alone(a: ArrayCoercer, items: Seq<JValue>, path: Seq<char>, i: int)
    requires
        a.sub_coercer is Some,
        0 <= i < items.len(),
    ensures
        coerce_spec(Coercer::Array(a), JValue::Array(items), path).value->Array_0[i]
            == coerce_spec(*a.sub_coercer->0, items[i], index_path(path, i)).value,
        coerce_spec(Coercer::Array(a), JValue::Array(items), path).value->Array_0.len()
            == items.len(),
{
}

/// The errors of elements `j + 1` up to `n` of `items`, in index order.
pub open spec fn errors_after(sub: Coercer, items: Seq<JValue>, path: Seq<char>, j: int, n: nat) -> Seq<
    ErrorView,
>
    decreases n,
{
    if n == 0 || n <= j + 1 || n > items.len() {
        Seq::empty()
    } else {
        errors_after(sub, items, path, j, (n - 1) as nat) + coerce_spec(
            sub,
            items[n - 1],
            index_path(path, n - 1),
        ).errors
    }
}

proof fn lemma_element_errors_split(sub: Coercer, items: Seq<JValue>, path: Seq<char>, j: int, n: nat)
    requires
        0 <= j < n <= items.len(),
    ensures
        crate::coercers::element_errors(sub, items, path, n) == crate::coercers::element_errors(
            sub,
            items,
            path,
            j as nat,
        ) + coerce_spec(sub, items[j], index_path(path, j)).errors + errors_after(
            sub,
            items,
            path,
            j,
            n,
        ),
    decreases n,
{
    let seg = coerce_spec(sub, items[j], index_path(path, j)).errors;
    let pre = crate::coercers::element_errors(sub, items, path, j as nat);
    if n == j + 1 {
        assert(crate::coercers::element_errors(sub, items, path, n) =~= pre + seg + errors_after(
            sub,
            items,
            path,
            j,
            n,
        ));
    } else {
        lemma_element_errors_split(sub, items, path, j, (n - 1) as nat);
        assert(crate::coercers::element_errors(sub, items, path, n) =~= pre + seg + errors_after(
            sub,
            items,
            path,
            j,
            n,
        ));
    }
}

/// The report of an array coercion is, in order, the errors of the
/// elements before `j`, those of element `j` alone, and those of the
/// elements after it: what element `j` reports depends on nothing but
/// element `j`, so a failing sibling neither removes nor alters it.
pub proof fn element_errors_alone(a: ArrayCoercer, items: Seq<JValue>, path: Seq<char>, j: int)
    requires
        a.sub_coercer is Some,
        0 <= j < items.len(),
    ensures
        coerce_spec(Coercer::Array(a), JValue::Array(items), path).errors
            == crate::coercers::element_errors(*a.sub_coercer->0, items, path, j as nat)
            + coerce_spec(*a.sub_coercer->0, items[j], index_path(path, j)).errors + errors_after(
            *a.sub_coercer->0,
            items,
            path,
            j,
            items.len(),
        ),
{
    lemma_element_errors_split(*a.sub_coercer->0, items, path, j, items.len());
}

/// Declaring a parameter keeps the names of a set unique.
pub proof fn declaring_keeps_names_unique<C>(params: Seq<Param<C>>, p: Param<C>)
    requires
        names_unique(params),
    ensures
        names_unique(declared(params, p)),
{
    crate::builder::lemma_first_named(params, p.name@);
    let d = declared(params, p);
    assert forall|i: int, j: int| 0 <= i < j < d.len() implies (#[trigger] d[i]).name@
        != (#[trigger] d[j]).name@ by {
        match first_named(params, p.name@) {
            Some(f) => {
                if i != f && j != f {
                    assert(d[i] == params[i] && d[j] == params[j]);
                }
            },
            None => {},
        }
    }
}

/// Whether `p` is a prefix of `q`.
pub open spec fn is_prefix(p: Seq<char>, q: Seq<char>) -> bool {
    p.len() <= q.len() && q.subrange(0, p.len() as int) == p
}

/// Whether every error is reported at `path` or below it.
pub open spec fn rooted(errs: Seq<ErrorView>, path: Seq<char>) -> bool {
    forall|i: int| 0 <= i < errs.len() ==> is_prefix(path, (#[trigger] errs[i]).path)
}

/// Whether every validator of type `C` reports at or below the path it is
/// given.
pub open spec fn checks_rooted<C: Check>() -> bool {
    forall|c: C, v: JValue, p: Seq<char>, s: bool| rooted(#[trigger] c.outcome(v, p, s), p)
}

proof fn lemma_rooted_concat(a: Seq<ErrorView>, b: Seq<ErrorView>, path: Seq<char>)
    requires
        rooted(a, path),
        rooted(b, path),
    ensures
        rooted(a + b, path),
{
    assert forall|i: int| 0 <= i < (a + b).len() implies is_prefix(path, #[trigger] (a + b)[i].path) by {
        if i < a.len() {
            assert((a + b)[i] == a[i]);
        } else {
            assert((a + b)[i] == b[i - a.len()]);
        }
    }
}

proof fn lemma_rooted_below(errs: Seq<ErrorView>, path: Seq<char>, deeper: Seq<char>)
    requires
        is_prefix(path, deeper),
        rooted(errs, deeper),
    ensures
        rooted(errs, path),
{
    assert forall|i: int| 0 <= i < errs.len() implies is_prefix(path, #[trigger] errs[i].path) by {
        let q = errs[i].path;
        assert(q.subrange(0, path.len() as int) =~= q.subrange(0, deeper.len() as int).subrange(
            0,
            path.len() as int,
        ));
    }
}

proof fn lemma_child_prefix(path: Seq<char>, seg: Seq<char>)
    ensures
        is_prefix(path, child_path(path, seg)),
{
    assert(child_path(path, seg).subrange(0, path.len() as int) =~= path);
}

proof fn lemma_single_rooted(kind: ErrorKind, path: Seq<char>)
    ensures
        rooted(seq![crate::errors::error_at(kind, path)], path),
{
    assert(path.subrange(0, path.len() as int) =~= path);
}

proof fn lemma_customs_rooted<C: Check>(cs: Seq<C>, v: JValue, path: Seq<char>, strict: bool, n: nat)
    requires
        checks_rooted::<C>(),
    ensures
        rooted(custom_errors(cs, v, path, strict, n), path),
    decreases n,
{
    if n == 0 || n > cs.len() {
    } else {
        lemma_customs_rooted(cs, v, path, strict, (n - 1) as nat);
        assert(rooted(cs[n - 1].outcome(v, path, strict), path));
        lemma_rooted_concat(
            custom_errors(cs, v, path, strict, (n - 1) as nat),
            cs[n - 1].outcome(v, path, strict),
            path,
        );
    }
}

proof fn lemma_value_errors_rooted<C: Check>(p: Param<C>, v: JValue, path: Seq<char>, strict: bool)
    requires
        checks_rooted::<C>(),
    ensures
        rooted(value_errors(p, v, path, strict), path),
{
    lemma_single_rooted(ErrorKind::WrongValue, path);
    lemma_single_rooted(ErrorKind::WrongType, path);
    lemma_customs_rooted(p.validators@, v, path, strict, p.validators@.len());
    let e: Seq<ErrorView> = Seq::empty();
    assert(rooted(e, path));
    let allow = match p.allow_values {
        Some(vals) => if crate::params::member(vals@, v) {
            e
        } else {
            seq![crate::errors::error_at(ErrorKind::WrongValue, path)]
        },
        None => e,
    };
    let reject = match p.reject_values {
        Some(vals) => if crate::params::member(vals@, v) {
            seq![crate::errors::error_at(ErrorKind::WrongValue, path)]
        } else {
            e
        },
        None => e,
    };
    let rx = match p.regex {
        Some(pat) => match v {
            JValue::Str(s) => if crate::pattern::full_match(pat@, s) {
                e
            } else {
                seq![crate::errors::error_at(ErrorKind::WrongValue, path)]
            },
            _ => seq![crate::errors::error_at(ErrorKind::WrongType, path)],
        },
        None => e,
    };
    lemma_rooted_concat(allow, reject, path);
    lemma_rooted_concat(allow + reject, rx, path);
    lemma_rooted_concat(
        allow + reject + rx,
        custom_errors(p.validators@, v, path, strict, p.validators@.len()),
        path,
    );
}

proof fn lemma_groups_rooted<C: Check>(
    gs: Seq<Group<C>>,
    entries: Seq<(Seq<char>, JValue)>,
    path: Seq<char>,
    strict: bool,
    n: nat,
)
    requires
        checks_rooted::<C>(),
    ensures
        rooted(groups_errors(gs, entries, path, strict, n), path),
    decreases n,
{
    if n == 0 || n > gs.len() {
    } else {
        lemma_groups_rooted(gs, entries, path, strict, (n - 1) as nat);
        let g = group_errors(gs[n - 1], entries, path, strict);
        assert(rooted(g, path)) by {
            assert(path.subrange(0, path.len() as int) =~= path);
            match gs[n - 1] {
                Group::Custom(c) => {
                    assert(rooted(c.outcome(JValue::Object(entries), path, strict), path));
                },
                _ => {},
            }
        }
        lemma_rooted_concat(groups_errors(gs, entries, path, strict, (n - 1) as nat), g, path);
    }
}

/// Every error that applying a set reports stands at the path of the value
/// it was applied to, or below it, provided the caller's validators report
/// at or below the path they are given.
pub proof fn process_errors_rooted<C: Check>(
    set: ParamSet<C>,
    v: JValue,
    path: Seq<char>,
    strict: bool,
)
    requires
        checks_rooted::<C>(),
    ensures
        rooted(process_spec(set, v, path, strict).1, path),
    decreases set, 3nat, 0nat,
{
    match v {
        JValue::Object(entries) => {
            lemma_params_rooted(set, entries, path, strict, set.params@.len());
            let (obj, errs) = params_spec(set, entries, path, strict, set.params@.len());
            let gp = group_path(path);
            lemma_groups_rooted(set.groups@, obj, gp, strict, set.groups@.len());
            assert(is_prefix(path, gp)) by {
                if path.len() == 0 {
                    assert(gp.subrange(0, 0) =~= path);
                } else {
                    assert(path.subrange(0, path.len() as int) =~= path);
                }
            }
            lemma_rooted_below(groups_errors(set.groups@, obj, gp, strict, set.groups@.len()), path, gp);
            lemma_rooted_concat(errs, groups_errors(set.groups@, obj, gp, strict, set.groups@.len()), path);
        },
        _ => {
            lemma_single_rooted(ErrorKind::WrongType, path);
        },
    }
}

proof fn lemma_params_rooted<C: Check>(
    set: ParamSet<C>,
    entries: Seq<(Seq<char>, JValue)>,
    path: Seq<char>,
    strict: bool,
    n: nat,
)
    requires
        checks_rooted::<C>(),
    ensures
        rooted(params_spec(set, entries, path, strict, n).1, path),
    decreases set, 2nat, n,
{
    if n == 0 || n > set.params@.len() {
        assert(rooted(Seq::<ErrorView>::empty(), path));
    } else {
        lemma_params_rooted(set, entries, path, strict, (n - 1) as nat);
        let (e1, r1) = params_spec(set, entries, path, strict, (n - 1) as nat);
        lemma_param_rooted(set, n - 1, e1, path, strict);
        lemma_rooted_concat(r1, param_spec(set, n - 1, e1, path, strict).1, path);
    }
}

proof fn lemma_param_rooted<C: Check>(
    set: ParamSet<C>,
    k: int,
    entries: Seq<(Seq<char>, JValue)>,
    path: Seq<char>,
    strict: bool,
)
    requires
        checks_rooted::<C>(),
    ensures
        rooted(param_spec(set, k, entries, path, strict).1, path),
    decreases set, 1nat, 0nat,
{
    assert(rooted(Seq::<ErrorView>::empty(), path));
    if 0 <= k < set.params@.len() {
        let p = set.params@[k];
        let ppath = child_path(path, p.name@);
        lemma_child_prefix(path, p.name@);
        lemma_single_rooted(ErrorKind::Required, ppath);
        lemma_single_rooted(ErrorKind::WrongType, ppath);
        match find_key(entries, p.name@) {
            Some(i) => {
                lemma_value_rooted(set, k, entries[i].1, ppath, strict);
            },
            None => {
                match p.default {
                    Some(d) => {
                        lemma_value_rooted(set, k, d@, ppath, strict);
                    },
                    None => {},
                }
            },
        }
        lemma_rooted_below(param_spec(set, k, entries, path, strict).1, path, ppath);
    }
}

proof fn lemma_value_rooted<C: Check>(
    set: ParamSet<C>,
    k: int,
    v: JValue,
    ppath: Seq<char>,
    strict: bool,
)
    requires
        checks_rooted::<C>(),
    ensures
        rooted(param_value_spec(set, k, v, ppath, strict).1, ppath),
    decreases set, 0nat, 0nat,
{
    if 0 <= k < set.params@.len() {
        let p = set.params@[k];
        let c = match p.coercer {
            Some(c) => coerce_spec(c, v, ppath),
            None => crate::coercers::kept(v),
        };
        match p.coercer {
            Some(co) => {
                coerce_errors_rooted(co, v, ppath);
                assert forall|i: int| 0 <= i < c.errors.len() implies is_prefix(
                    ppath,
                    #[trigger] c.errors[i].path,
                ) by {
                    assert(c.errors.contains(c.errors[i]));
                }
            },
            None => {
                assert(rooted(c.errors, ppath));
            },
        }
        if c.errors.len() == 0 {
            let (v2, nerrs) = match p.nested {
                Some(ns) => nested_spec(*ns, c.value, ppath, strict),
                None => (c.value, Seq::empty()),
            };
            match p.nested {
                Some(ns) => {
                    lemma_nested_rooted(*ns, c.value, ppath, strict);
                },
                None => {
                    assert(rooted(nerrs, ppath));
                },
            }
            lemma_value_errors_rooted(p, v2, ppath, strict);
            lemma_rooted_concat(nerrs, value_errors(p, v2, ppath, strict), ppath);
        }
    } else {
        assert(rooted(Seq::<ErrorView>::empty(), ppath));
    }
}

proof fn lemma_nested_rooted<C: Check>(ns: ParamSet<C>, v: JValue, path: Seq<char>, strict: bool)
    requires
        checks_rooted::<C>(),
    ensures
        rooted(nested_spec(ns, v, path, strict).1, path),
    decreases ns, 5nat, 0nat,
{
    match v {
        JValue::Object(_) => {
            process_errors_rooted(ns, v, path, strict);
        },
        JValue::Array(items) => {
            lemma_nested_items_rooted(ns, items, path, strict, items.len());
        },
        _ => {
            assert(rooted(Seq::<ErrorView>::empty(), path));
        },
    }
}

proof fn lemma_nested_items_rooted<C: Check>(
    ns: ParamSet<C>,
    items: Seq<JValue>,
    path: Seq<char>,
    strict: bool,
    n: nat,
)
    requires
        checks_rooted::<C>(),
    ensures
        rooted(nested_items_spec(ns, items, path, strict, n).1, path),
    decreases ns, 4nat, n,
{
    if n == 0 || n > items.len() {
        assert(rooted(Seq::<ErrorView>::empty(), path));
    } else {
        lemma_nested_items_rooted(ns, items, path, strict, (n - 1) as nat);
        let (its, errs) = nested_items_spec(ns, items, path, strict, (n - 1) as nat);
        match items[n - 1] {
            JValue::Object(_) => {
                let ip = index_path(path, n - 1);
                process_errors_rooted(ns, items[n - 1], ip, strict);
                lemma_child_prefix(path, crate::text::dec((n - 1) as nat));
                lemma_rooted_below(process_spec(ns, items[n - 1], ip, strict).1, path, ip);
                lemma_rooted_concat(errs, process_spec(ns, items[n - 1], ip, strict).1, path);
            },
            _ => {},
        }
    }
}

/// Whether `v`, at `path`, already matches `set`: it is an object; every
/// absent key is optional and has no default; a null stands only where
/// null is allowed; every other value already has its coercer's type,
/// matches its nested set, and passes its value checks; and no group
/// constraint fails.
pub open spec fn conforms<C: Check>(set: ParamSet<C>, v: JValue, path: Seq<char>, strict: bool) -> bool
    decreases set, 3nat, 0nat,
{
    match v {
        JValue::Object(entries) => params_conform(set, entries, path, strict, set.params@.len())
            && groups_errors(set.groups@, entries, group_path(path), strict, set.groups@.len()).len()
            == 0,
        _ => false,
    }
}

pub open spec fn params_conform<C: Check>(
    set: ParamSet<C>,
    entries: Seq<(Seq<char>, JValue)>,
    path: Seq<char>,
    strict: bool,
    n: nat,
) -> bool
    decreases set, 2nat, n,
{
    if n == 0 || n > set.params@.len() {
        true
    } else {
        params_conform(set, entries, path, strict, (n - 1) as nat) && param_conforms(
            set,
            n - 1,
            entries,
            path,
            strict,
        )
    }
}

pub open spec fn param_conforms<C: Check>(
    set: ParamSet<C>,
    k: int,
    entries: Seq<(Seq<char>, JValue)>,
    path: Seq<char>,
    strict: bool,
) -> bool
    decreases set, 1nat, 0nat,
{
    if 0 <= k < set.params@.len() {
        let p = set.params@[k];
        match find_key(entries, p.name@) {
            None => !p.required && p.default is None,
            Some(i) => if entries[i].1 == JValue::Null {
                p.allow_null
            } else {
                value_conforms(set, k, entries[i].1, child_path(path, p.name@), strict)
            },
        }
    } else {
        true
    }
}

pub open spec fn value_conforms<C: Check>(
    set: ParamSet<C>,
    k: int,
    v: JValue,
    ppath: Seq<char>,
    strict: bool,
) -> bool
    decreases set, 0nat, 0nat,
{
    if 0 <= k < set.params@.len() {
        let p = set.params@[k];
        &&& match p.coercer {
            Some(c) => has_type(c, v),
            None => true,
        }
        &&& match p.nested {
            Some(ns) => nested_conforms(*ns, v, ppath, strict),
            None => true,
        }
        &&& value_errors(p, v, ppath, strict).len() == 0
    } else {
        true
    }
}

pub open spec fn nested_conforms<C: Check>(ns: ParamSet<C>, v: JValue, path: Seq<char>, strict: bool) -> bool
    decreases ns, 5nat, 0nat,
{
    match v {
        JValue::Object(_) => conforms(ns, v, path, strict),
        JValue::Array(items) => items_conform(ns, items, path, strict, items.len()),
        _ => true,
    }
}

pub open spec fn items_conform<C: Check>(
    ns: ParamSet<C>,
    items: Seq<JValue>,
    path: Seq<char>,
    strict: bool,
    n: nat,
) -> bool
    decreases ns, 4nat, n,
{
    if n == 0 || n > items.len() {
        true
    } else {
        items_conform(ns, items, path, strict, (n - 1) as nat) && (items[n - 1] is Object
            ==> conforms(ns, items[n - 1], index_path(path, n - 1), strict))
    }
}

/// A value that already matches a set comes through processing unchanged
/// and without a single error.
pub proof fn conforming_value_is_fixed<C: Check>(
    set: ParamSet<C>,
    v: JValue,
    path: Seq<char>,
    strict: bool,
)
    requires
        conforms(set, v, path, strict),
    ensures
        process_spec(set, v, path, strict) == (v, Seq::<ErrorView>::empty()),
    decreases set, 3nat, 0nat,
{
    match v {
        JValue::Object(entries) => {
            lemma_params_fixed(set, entries, path, strict, set.params@.len());
            let g = groups_errors(set.groups@, entries, group_path(path), strict, set.groups@.len());
            assert(g =~= Seq::<ErrorView>::empty());
            assert(Seq::<ErrorView>::empty() + g =~= Seq::<ErrorView>::empty());
        },
        _ => {},
    }
}

proof fn lemma_params_fixed<C: Check>(
    set: ParamSet<C>,
    entries: Seq<(Seq<char>, JValue)>,
    path: Seq<char>,
    strict: bool,
    n: nat,
)
    requires
        params_conform(set, entries, path, strict, n),
    ensures
        params_spec(set, entries, path, strict, n) == (entries, Seq::<ErrorView>::empty()),
    decreases set, 2nat, n,
{
    if n == 0 || n > set.params@.len() {
    } else {
        lemma_params_fixed(set, entries, path, strict, (n - 1) as nat);
        lemma_param_fixed(set, n - 1, entries, path, strict);
        assert(Seq::<ErrorView>::empty() + Seq::<ErrorView>::empty() =~= Seq::<ErrorView>::empty());
    }
}

proof fn lemma_param_fixed<C: Check>(
    set: ParamSet<C>,
    k: int,
    entries: Seq<(Seq<char>, JValue)>,
    path: Seq<char>,
    strict: bool,
)
    requires
        param_conforms(set, k, entries, path, strict),
    ensures
        param_spec(set, k, entries, path, strict) == (entries, Seq::<ErrorView>::empty()),
    decreases set, 1nat, 0nat,
{
    if 0 <= k < set.params@.len() {
        let p = set.params@[k];
        crate::json::lemma_find_key(entries, p.name@);
        match find_key(entries, p.name@) {
            Some(i) => {
                if entries[i].1 != JValue::Null {
                    lemma_value_fixed(set, k, entries[i].1, child_path(path, p.name@), strict);
                    assert(entries.update(i, (entries[i].0, entries[i].1)) =~= entries);
                }
            },
            None => {},
        }
    }
}

proof fn lemma_value_fixed<C: Check>(
    set: ParamSet<C>,
    k: int,
    v: JValue,
    ppath: Seq<char>,
    strict: bool,
)
    requires
        value_conforms(set, k, v, ppath, strict),
    ensures
        param_value_spec(set, k, v, ppath, strict) == (v, Seq::<ErrorView>::empty()),
    decreases set, 0nat, 0nat,
{
    if 0 <= k < set.params@.len() {
        let p = set.params@[k];
        match p.coercer {
            Some(c) => {
                coerce_keeps_typed_value(c, v, ppath);
            },
            None => {},
        }
        match p.nested {
            Some(ns) => {
                lemma_nested_fixed(*ns, v, ppath, strict);
            },
            None => {},
        }
        let ve = value_errors(p, v, ppath, strict);
        assert(ve =~= Seq::<ErrorView>::empty());
        assert(Seq::<ErrorView>::empty() + ve =~= Seq::<ErrorView>::empty());
    }
}

proof fn lemma_nested_fixed<C: Check>(ns: ParamSet<C>, v: JValue, path: Seq<char>, strict: bool)
    requires
        nested_conforms(ns, v, path, strict),
    ensures
        nested_spec(ns, v, path, strict) == (v, Seq::<ErrorView>::empty()),
    decreases ns, 5nat, 0nat,
{
    match v {
        JValue::Object(_) => {
            conforming_value_is_fixed(ns, v, path, strict);
        },
        JValue::Array(items) => {
            lemma_items_fixed(ns, items, path, strict, items.len());
        },
        _ => {},
    }
}

proof fn lemma_items_fixed<C: Check>(
    ns: ParamSet<C>,
    items: Seq<JValue>,
    path: Seq<char>,
    strict: bool,
    n: nat,
)
    requires
        items_conform(ns, items, path, strict, n),
    ensures
        nested_items_spec(ns, items, path, strict, n) == (items, Seq::<ErrorView>::empty()),
    decreases ns, 4nat, n,
{
    if n == 0 || n > items.len() {
    } else {
        lemma_items_fixed(ns, items, path, strict, (n - 1) as nat);
        match items[n - 1] {
            JValue::Object(_) => {
                conforming_value_is_fixed(ns, items[n - 1], index_path(path, n - 1), strict);
                assert(items.update(n - 1, items[n - 1]) =~= items);
                assert(Seq::<ErrorView>::empty() + Seq::<ErrorView>::empty() =~= Seq::<ErrorView>::empty());
            },
            _ => {},
        }
    }
}

/// Whether processing by `set` can never leave null where a value stood:
/// no parameter coerces to null or defaults to null, in `set` and in every
/// nested set; and no two parameters of one set share a name.
pub open spec fn stable_shape<C: Check>(set: ParamSet<C>) -> bool
    decreases set, 1nat, 0nat,
{
    names_unique(set.params@) && params_stable_shape(set, set.params@.len())
}

pub open spec fn params_stable_shape<C: Check>(set: ParamSet<C>, n: nat) -> bool
    decreases set, 0nat, n,
{
    if n == 0 || n > set.params@.len() {
        true
    } else {
        let p = set.params@[n - 1];
        &&& params_stable_shape(set, (n - 1) as nat)
        &&& !(p.coercer matches Some(Coercer::Null(_)))
        &&& (p.default matches Some(d) ==> d@ != JValue::Null)
        &&& (p.nested matches Some(ns) ==> stable_shape(*ns))
    }
}

proof fn lemma_param_shape<C: Check>(set: ParamSet<C>, n: nat, k: int)
    requires
        params_stable_shape(set, n),
        0 <= k < n <= set.params@.len(),
    ensures
        !(set.params@[k].coercer matches Some(Coercer::Null(_))),
        set.params@[k].default matches Some(d) ==> d@ != JValue::Null,
        set.params@[k].nested matches Some(ns) ==> stable_shape(*ns),
    decreases n,
{
    if k < n - 1 {
        lemma_param_shape(set, (n - 1) as nat, k);
    }
}

/// Two entry lists agree on where `key` first stands and on that entry.
pub open spec fn same_slot(a: Seq<(Seq<char>, JValue)>, b: Seq<(Seq<char>, JValue)>, key: Seq<char>) -> bool {
    &&& find_key(a, key) == find_key(b, key)
    &&& (find_key(a, key) matches Some(i) ==> a[i] == b[i])
}

/// `after` keeps every key of `before` at its place, and every entry whose
/// key differs from `name`; what it adds at the end has key `name`.
pub open spec fn only_touches(before: Seq<(Seq<char>, JValue)>, after: Seq<(Seq<char>, JValue)>, name: Seq<char>) -> bool {
    &&& before.len() <= after.len()
    &&& forall|j: int| 0 <= j < before.len() ==> (#[trigger] after[j]).0 == before[j].0
    &&& forall|j: int| 0 <= j < before.len() && before[j].0 != name ==> #[trigger] after[j] == before[j]
    &&& forall|j: int| before.len() <= j < after.len() ==> (#[trigger] after[j]).0 == name
}

proof fn lemma_param_only_touches<C: Check>(
    set: ParamSet<C>,
    k: int,
    entries: Seq<(Seq<char>, JValue)>,
    path: Seq<char>,
    strict: bool,
)
    ensures
        0 <= k < set.params@.len() ==> only_touches(
            entries,
            param_spec(set, k, entries, path, strict).0,
            set.params@[k].name@,
        ),
        !(0 <= k < set.params@.len()) ==> param_spec(set, k, entries, path, strict).0 == entries,
{
    if 0 <= k < set.params@.len() {
        crate::json::lemma_find_key(entries, set.params@[k].name@);
    }
}

proof fn lemma_slot_kept(a: Seq<(Seq<char>, JValue)>, b: Seq<(Seq<char>, JValue)>, name: Seq<char>, key: Seq<char>)
    requires
        only_touches(a, b, name),
        name != key,
    ensures
        same_slot(a, b, key),
{
    crate::json::lemma_find_key(a, key);
    crate::json::lemma_find_key(b, key);
    match find_key(a, key) {
        Some(i) => {
            match find_key(b, key) {
                Some(j) => {
                    if j < i {
                        assert(b[j].0 == a[j].0);
                    } else if j > i {
                        assert(b[i].0 == a[i].0);
                    }
                },
                None => {
                    assert(b[i].0 == a[i].0);
                },
            }
        },
        None => {
            match find_key(b, key) {
                Some(j) => {
                    if j < a.len() {
                        assert(b[j].0 == a[j].0);
                    }
                },
                None => {},
            }
        },
    }
}

proof fn lemma_only_touches_trans(
    a: Seq<(Seq<char>, JValue)>,
    b: Seq<(Seq<char>, JValue)>,
    c: Seq<(Seq<char>, JValue)>,
    name: Seq<char>,
    key: Seq<char>,
)
    requires
        same_slot(a, b, key),
        only_touches(b, c, name),
        name != key,
    ensures
        same_slot(a, c, key),
{
    lemma_slot_kept(b, c, name, key);
}

/// The entries the first `m` parameters leave keep the slot of an earlier
/// parameter as that parameter left it.
proof fn lemma_slot_persists<C: Check>(
    set: ParamSet<C>,
    entries: Seq<(Seq<char>, JValue)>,
    path: Seq<char>,
    strict: bool,
    k: nat,
    m: nat,
)
    requires
        names_unique(set.params@),
        k < m <= set.params@.len(),
    ensures
        same_slot(
            params_spec(set, entries, path, strict, k + 1).0,
            params_spec(set, entries, path, strict, m).0,
            set.params@[k as int].name@,
        ),
    decreases m,
{
    let key = set.params@[k as int].name@;
    if m == k + 1 {
        crate::json::lemma_find_key(params_spec(set, entries, path, strict, m).0, key);
    } else {
        lemma_slot_persists(set, entries, path, strict, k, (m - 1) as nat);
        let prev = params_spec(set, entries, path, strict, (m - 1) as nat).0;
        lemma_param_only_touches(set, m - 1, prev, path, strict);
        assert(set.params@[m - 1].name@ != key);
        lemma_only_touches_trans(
            params_spec(set, entries, path, strict, k + 1).0,
            prev,
            params_spec(set, entries, path, strict, m).0,
            set.params@[m - 1].name@,
            key,
        );
    }
}

proof fn lemma_element_errors_each(sub: Coercer, items: Seq<JValue>, path: Seq<char>, n: nat)
    requires
        n <= items.len(),
        crate::coercers::element_errors(sub, items, path, n).len() == 0,
    ensures
        forall|i: int|
            0 <= i < n ==> (#[trigger] coerce_spec(sub, items[i], index_path(path, i))).errors.len()
                == 0,
    decreases n,
{
    if n > 0 {
        lemma_element_errors_each(sub, items, path, (n - 1) as nat);
    }
}

proof fn lemma_object_coerce(co: Coercer, a: Seq<(Seq<char>, JValue)>, b: Seq<(Seq<char>, JValue)>, p: Seq<char>)
    requires
        coerce_spec(co, JValue::Object(a), p) == crate::coercers::kept(JValue::Object(a)),
    ensures
        coerce_spec(co, JValue::Object(b), p) == crate::coercers::kept(JValue::Object(b)),
{
    match co {
        Coercer::Array(_) => {
            assert(coerce_spec(co, JValue::Object(a), p).errors.len() == 1);
        },
        _ => {
            assert(co.primitive() == PrimitiveType::Object) by {
                if co.primitive() != PrimitiveType::Object {
                    assert(scalar_coerce(co.primitive(), JValue::Object(a), p).errors.len() == 1);
                }
            }
        },
    }
}

/// What applying a nested set to the first `n` elements leaves: processed
/// objects among them, every other element as it was.
proof fn lemma_items_result<C: Check>(
    ns: ParamSet<C>,
    items: Seq<JValue>,
    path: Seq<char>,
    strict: bool,
    n: nat,
)
    requires
        n <= items.len(),
    ensures
        ({
            let r = nested_items_spec(ns, items, path, strict, n).0;
            &&& r.len() == items.len()
            &&& forall|j: int|
                0 <= j < n ==> #[trigger] r[j] == if items[j] is Object {
                    process_spec(ns, items[j], index_path(path, j), strict).0
                } else {
                    items[j]
                }
            &&& forall|j: int| n <= j < items.len() ==> #[trigger] r[j] == items[j]
        }),
    decreases n,
{
    if n > 0 {
        lemma_items_result(ns, items, path, strict, (n - 1) as nat);
    }
}

proof fn lemma_fixed_after_nested<C: Check>(
    co: Coercer,
    ns: ParamSet<C>,
    u: JValue,
    path: Seq<char>,
    strict: bool,
)
    requires
        coerce_spec(co, u, path) == crate::coercers::kept(u),
    ensures
        coerce_spec(co, nested_spec(ns, u, path, strict).0, path) == crate::coercers::kept(
            nested_spec(ns, u, path, strict).0,
        ),
{
    match u {
        JValue::Object(a) => {
            let out = process_spec(ns, u, path, strict).0;
            lemma_object_coerce(co, a, out->Object_0, path);
        },
        JValue::Array(items) => {
            let f = nested_items_spec(ns, items, path, strict, items.len()).0;
            lemma_items_result(ns, items, path, strict, items.len());
            match co {
                Coercer::Array(a) => match a.sub_coercer {
                    None => {},
                    Some(sub) => {
                        let first = coerce_spec(co, u, path);
                        let rhs = Seq::new(
                            items.len(),
                            |i: int| coerce_spec(*sub, items[i], index_path(path, i)).value,
                        );
                        assert(first.value->Array_0 =~= rhs);
                        lemma_element_errors_each(*sub, items, path, items.len());
                        assert forall|j: int| 0 <= j < f.len() implies (#[trigger] coerce_spec(
                            *sub,
                            f[j],
                            index_path(path, j),
                        )) == crate::coercers::kept(f[j]) by {
                            assert(rhs[j] == items[j]);
                            assert(coerce_spec(*sub, items[j], index_path(path, j)).errors.len() == 0);
                            assert(coerce_spec(*sub, items[j], index_path(path, j)).errors =~= Seq::<
                                ErrorView,
                            >::empty());
                            match items[j] {
                                JValue::Object(x) => {
                                    lemma_object_coerce(
                                        *sub,
                                        x,
                                        f[j]->Object_0,
                                        index_path(path, j),
                                    );
                                },
                                _ => {},
                            }
                        }
                        lemma_no_element_errors(*sub, f, path, f.len());
                        let second = coerce_spec(co, JValue::Array(f), path);
                        let rhs2 = Seq::new(
                            f.len(),
                            |i: int| coerce_spec(*sub, f[i], index_path(path, i)).value,
                        );
                        assert(second.value->Array_0 =~= rhs2);
                        assert(rhs2 =~= f);
                    },
                },
                _ => {
                    assert(coerce_spec(co, u, path).errors.len() == 1);
                },
            }
        },
        _ => {},
    }
}

proof fn lemma_value_not_null<C: Check>(set: ParamSet<C>, k: int, x: JValue, ppath: Seq<char>, strict: bool)
    requires
        0 <= k < set.params@.len(),
        x != JValue::Null,
        !(set.params@[k].coercer matches Some(Coercer::Null(_))),
    ensures
        param_value_spec(set, k, x, ppath, strict).0 != JValue::Null,
{
    let p = set.params@[k];
    let c = match p.coercer {
        Some(co) => coerce_spec(co, x, ppath),
        None => crate::coercers::kept(x),
    };
    assert(c.value != JValue::Null) by {
        match p.coercer {
            Some(co) => match co {
                Coercer::Array(a) => {},
                _ => {},
            },
            None => {},
        }
    }
}

proof fn lemma_value_stable<C: Check>(set: ParamSet<C>, k: int, x: JValue, ppath: Seq<char>, strict: bool)
    requires
        0 <= k < set.params@.len(),
        set.params@[k].nested matches Some(ns) ==> stable_shape(*ns),
    ensures
        param_value_spec(set, k, param_value_spec(set, k, x, ppath, strict).0, ppath, strict)
            == param_value_spec(set, k, x, ppath, strict),
    decreases set, 0nat, 0nat,
{
    let p = set.params@[k];
    let c = match p.coercer {
        Some(co) => coerce_spec(co, x, ppath),
        None => crate::coercers::kept(x),
    };
    match p.coercer {
        Some(co) => {
            coerce_is_stable(co, x, ppath);
        },
        None => {},
    }
    if c.errors.len() == 0 {
        match p.nested {
            Some(ns) => {
                match p.coercer {
                    Some(co) => {
                        assert(c.errors =~= Seq::<ErrorView>::empty());
                        assert(coerce_spec(co, c.value, ppath) == crate::coercers::kept(c.value));
                        lemma_fixed_after_nested(co, *ns, c.value, ppath, strict);
                    },
                    None => {},
                }
                lemma_nested_stable(*ns, c.value, ppath, strict);
            },
            None => {},
        }
    }
}

proof fn lemma_nested_stable<C: Check>(ns: ParamSet<C>, u: JValue, path: Seq<char>, strict: bool)
    requires
        stable_shape(ns),
    ensures
        nested_spec(ns, nested_spec(ns, u, path, strict).0, path, strict) == nested_spec(
            ns,
            u,
            path,
            strict,
        ),
    decreases ns, 5nat, 0nat,
{
    match u {
        JValue::Object(_) => {
            processing_is_stable(ns, u, path, strict);
        },
        JValue::Array(items) => {
            lemma_items_result(ns, items, path, strict, items.len());
            lemma_items_stable(ns, items, path, strict, items.len());
        },
        _ => {},
    }
}

proof fn lemma_items_stable<C: Check>(
    ns: ParamSet<C>,
    items: Seq<JValue>,
    path: Seq<char>,
    strict: bool,
    m: nat,
)
    requires
        stable_shape(ns),
        m <= items.len(),
    ensures
        ({
            let f = nested_items_spec(ns, items, path, strict, items.len()).0;
            nested_items_spec(ns, f, path, strict, m) == (f, nested_items_spec(
                ns,
                items,
                path,
                strict,
                m,
            ).1)
        }),
    decreases ns, 4nat, m,
{
    let f = nested_items_spec(ns, items, path, strict, items.len()).0;
    lemma_items_result(ns, items, path, strict, items.len());
    if m > 0 {
        lemma_items_stable(ns, items, path, strict, (m - 1) as nat);
        let j = m - 1;
        match items[j] {
            JValue::Object(_) => {
                processing_is_stable(ns, items[j], index_path(path, j), strict);
                assert(f[j] is Object);
                assert(f.update(j, f[j]) =~= f);
            },
            _ => {
                assert(!(f[j] is Object));
            },
        }
    }
}

/// Applying a set a second time to what a first application left changes
/// nothing more and reports the same errors, for a set in which no
/// parameter coerces or defaults to null and names are unique.
pub proof fn processing_is_stable<C: Check>(set: ParamSet<C>, v: JValue, path: Seq<char>, strict: bool)
    requires
        stable_shape(set),
    ensures
        process_spec(set, process_spec(set, v, path, strict).0, path, strict) == process_spec(
            set,
            v,
            path,
            strict,
        ),
    decreases set, 3nat, 0nat,
{
    match v {
        JValue::Object(entries) => {
            lemma_params_stable(set, entries, path, strict, set.params@.len());
        },
        _ => {},
    }
}

proof fn lemma_params_stable<C: Check>(
    set: ParamSet<C>,
    entries: Seq<(Seq<char>, JValue)>,
    path: Seq<char>,
    strict: bool,
    m: nat,
)
    requires
        stable_shape(set),
        m <= set.params@.len(),
    ensures
        ({
            let f = params_spec(set, entries, path, strict, set.params@.len()).0;
            params_spec(set, f, path, strict, m) == (f, params_spec(set, entries, path, strict, m).1)
        }),
    decreases set, 2nat, m,
{
    if m > 0 {
        lemma_params_stable(set, entries, path, strict, (m - 1) as nat);
        let k = m - 1;
        let f = params_spec(set, entries, path, strict, set.params@.len()).0;
        let ek = params_spec(set, entries, path, strict, k as nat).0;
        lemma_slot_persists(set, entries, path, strict, k as nat, set.params@.len());
        lemma_param_shape(set, set.params@.len(), k);
        lemma_param_stable(set, k, ek, f, path, strict);
    }
}

proof fn lemma_param_stable<C: Check>(
    set: ParamSet<C>,
    k: int,
    e: Seq<(Seq<char>, JValue)>,
    f: Seq<(Seq<char>, JValue)>,
    path: Seq<char>,
    strict: bool,
)
    requires
        0 <= k < set.params@.len(),
        !(set.params@[k].coercer matches Some(Coercer::Null(_))),
        set.params@[k].default matches Some(d) ==> d@ != JValue::Null,
        set.params@[k].nested matches Some(ns) ==> stable_shape(*ns),
        same_slot(param_spec(set, k, e, path, strict).0, f, set.params@[k].name@),
    ensures
        param_spec(set, k, f, path, strict) == (f, param_spec(set, k, e, path, strict).1),
    decreases set, 1nat, 0nat,
{
    let p = set.params@[k];
    let name = p.name@;
    let ppath = child_path(path, name);
    let after = param_spec(set, k, e, path, strict).0;
    crate::json::lemma_find_key(e, name);
    crate::json::lemma_find_key(after, name);
    crate::json::lemma_find_key(f, name);
    match find_key(e, name) {
        Some(i) => {
            if e[i].1 != JValue::Null {
                let x = e[i].1;
                lemma_value_not_null(set, k, x, ppath, strict);
                lemma_value_stable(set, k, x, ppath, strict);
                assert(after[i].0 == name);
                assert(find_key(after, name) == Some(i)) by {
                    match find_key(after, name) {
                        Some(j) => {
                            if j < i {
                                assert(after[j].0 == e[j].0);
                            }
                        },
                        None => {},
                    }
                }
                let w = param_value_spec(set, k, x, ppath, strict).0;
                assert(f[i] == (e[i].0, w));
                assert(f.update(i, (f[i].0, w)) =~= f);
            }
        },
        None => {
            if !p.required {
                match p.default {
                    Some(d) => {
                        lemma_value_not_null(set, k, d@, ppath, strict);
                        lemma_value_stable(set, k, d@, ppath, strict);
                        let w = param_value_spec(set, k, d@, ppath, strict).0;
                        assert(find_key(after, name) == Some(e.len() as int)) by {
                            match find_key(after, name) {
                                Some(j) => {
                                    if j < e.len() {
                                        assert(after[j] == e[j]);
                                    }
                                },
                                None => {},
                            }
                        }
                        let i = e.len() as int;
                        assert(f[i] == (name, w));
                        assert(f.update(i, (f[i].0, w)) =~= f);
                    },
                    None => {},
                }
            }
        },
    }
}

proof fn lemma_slot_from_start<C: Check>(
    set: ParamSet<C>,
    entries: Seq<(Seq<char>, JValue)>,
    path: Seq<char>,
    strict: bool,
    k: int,
    m: nat,
)
    requires
        names_unique(set.params@),
        0 <= m <= k < set.params@.len(),
    ensures
        same_slot(entries, params_spec(set, entries, path, strict, m).0, set.params@[k].name@),
    decreases m,
{
    let key = set.params@[k].name@;
    crate::json::lemma_find_key(entries, key);
    if m > 0 {
        lemma_slot_from_start(set, entries, path, strict, k, (m - 1) as nat);
        let prev = params_spec(set, entries, path, strict, (m - 1) as nat).0;
        lemma_param_only_touches(set, m - 1, prev, path, strict);
        assert(set.params@[m - 1].name@ != key);
        lemma_only_touches_trans(
            entries,
            prev,
            params_spec(set, entries, path, strict, m).0,
            set.params@[m - 1].name@,
            key,
        );
    } else {
        assert(params_spec(set, entries, path, strict, 0).0 == entries);
    }
}

/// What a parameter reports depends on nothing but its own entry: where its
/// key first stands and the value there.
proof fn lemma_param_errors_by_slot<C: Check>(
    set: ParamSet<C>,
    k: int,
    a: Seq<(Seq<char>, JValue)>,
    b: Seq<(Seq<char>, JValue)>,
    path: Seq<char>,
    strict: bool,
)
    requires
        0 <= k < set.params@.len(),
        same_slot(a, b, set.params@[k].name@),
    ensures
        param_spec(set, k, a, path, strict).1 == param_spec(set, k, b, path, strict).1,
{
}

/// The errors a parameter reports are those it reports when processed
/// alone on the input: whatever the parameters declared before it did or
/// failed to do, in a set whose names are unique.
pub proof fn parameter_errors_independent<C: Check>(
    set: ParamSet<C>,
    entries: Seq<(Seq<char>, JValue)>,
    path: Seq<char>,
    strict: bool,
    k: int,
)
    requires
        names_unique(set.params@),
        0 <= k < set.params@.len(),
    ensures
        param_spec(set, k, params_spec(set, entries, path, strict, k as nat).0, path, strict).1
            == param_spec(set, k, entries, path, strict).1,
{
    lemma_slot_from_start(set, entries, path, strict, k, k as nat);
    lemma_param_errors_by_slot(
        set,
        k,
        entries,
        params_spec(set, entries, path, strict, k as nat).0,
        path,
        strict,
    );
}

} // verus!
