//! Parameters, parameter sets, and what applying a set to a value does.
use vstd::prelude::*;

use crate::coercers::{child_path, coerce_spec, index_path, join_path, kept, Coercer};
use crate::errors::{append_errors, error_at, errors_view, strs_view, DslError, ErrorKind, ErrorView};
use crate::json::{
    entries_view, find_entry, find_key, lemma_find_key, items_view, json_clone, json_equal, lemma_array_view,
    lemma_object_view, JValue, Json,
};
use crate::text::{chars_of, string_of, u64_text};
use crate::pattern::{full_match, matches_whole};

verus! {

broadcast use vstd::std_specs::vec::group_vec_axioms;

/// A validator supplied by the caller, run on a parameter's value or, at
/// group level, on the enclosing object. It returns the errors it finds;
/// `outcome` states which, so an implementation is written in verified code.
/// [`Rule`] covers the common cases.
pub trait Check {
    /// The errors the validator finds in `val` at `path`.
    spec fn outcome(&self, val: JValue, path: Seq<char>, strict: bool) -> Seq<ErrorView>;

    fn check(&self, val: &Json, path: &String, strict: bool) -> (r: Vec<DslError>)
        ensures
            errors_view(r@) == self.outcome(val@, path@, strict),
    ;
}

/// The validator that finds nothing, for sets that use no validator of their
/// own.
pub struct NoCheck;

impl Check for NoCheck {
    open spec fn outcome(&self, val: JValue, path: Seq<char>, strict: bool) -> Seq<ErrorView> {
        Seq::empty()
    }

    fn check(&self, val: &Json, path: &String, strict: bool) -> (r: Vec<DslError>) {
        let r: Vec<DslError> = Vec::new();
        assert(errors_view(r@) =~= Seq::<ErrorView>::empty());
        r
    }
}

/// Ready-made validators.
pub enum Rule {
    /// Reports an error of `kind` unless the value equals `expected`.
    Equals { expected: Json, kind: ErrorKind, detail: String },
    /// Reports an error of `kind`, whatever the value.
    Reject { kind: ErrorKind, detail: String },
}

impl Check for Rule {
    open spec fn outcome(&self, val: JValue, path: Seq<char>, strict: bool) -> Seq<ErrorView> {
        match self {
            Rule::Equals { expected, kind, .. } => if val == expected@ {
                Seq::empty()
            } else {
                seq![error_at(*kind, path)]
            },
            Rule::Reject { kind, .. } => seq![error_at(*kind, path)],
        }
    }

    fn check(&self, val: &Json, path: &String, strict: bool) -> (r: Vec<DslError>) {
        match self {
            Rule::Equals { expected, kind, detail } => {
                if json_equal(val, expected) {
                    no_errors()
                } else {
                    error_list(*kind, path, detail.as_str())
                }
            },
            Rule::Reject { kind, detail } => error_list(*kind, path, detail.as_str()),
        }
    }
}

/// One named field of an object and what is asked of it.
pub struct Param<C> {
    pub name: String,
    pub coercer: Option<Coercer>,
    pub nested: Option<Box<ParamSet<C>>>,
    pub required: bool,
    pub default: Option<Json>,
    pub allow_null: bool,
    pub validators: Vec<C>,
    pub allow_values: Option<Vec<Json>>,
    pub reject_values: Option<Vec<Json>>,
    pub regex: Option<String>,
}

/// A constraint over several keys of one object.
pub enum Group<C> {
    /// At most one of the keys may be present.
    MutuallyExclusive(Vec<String>),
    /// Exactly one of the keys must be present.
    ExactlyOneOf(Vec<String>),
    /// At least one of the keys must be present.
    AtLeastOneOf(Vec<String>),
    /// A validator of the caller's, run on the whole object.
    Custom(C),
}

/// The parameters of an object, in declaration order, and its group
/// constraints.
pub struct ParamSet<C> {
    pub params: Vec<Param<C>>,
    pub groups: Vec<Group<C>>,
}

/// Whether `v` equals one of `vals`.
pub open spec fn member(vals: Seq<Json>, v: JValue) -> bool {
    exists|i: int| 0 <= i < vals.len() && (#[trigger] vals[i])@ == v
}

/// The errors of the first `n` validators of `cs` on `v`, in order.
pub open spec fn custom_errors<C: Check>(
    cs: Seq<C>,
    v: JValue,
    path: Seq<char>,
    strict: bool,
    n: nat,
) -> Seq<ErrorView>
    decreases n,
{
    if n == 0 || n > cs.len() {
        Seq::empty()
    } else {
        custom_errors(cs, v, path, strict, (n - 1) as nat) + cs[n - 1].outcome(v, path, strict)
    }
}

/// The errors of a parameter's value checks on the coerced value `v`:
/// allowed values, rejected values, the pattern (which only a string can
/// match), then its own validators.
pub open spec fn value_errors<C: Check>(p: Param<C>, v: JValue, path: Seq<char>, strict: bool) -> Seq<
    ErrorView,
> {
    let allow = match p.allow_values {
        Some(vals) => if member(vals@, v) {
            Seq::empty()
        } else {
            seq![error_at(ErrorKind::WrongValue, path)]
        },
        None => Seq::empty(),
    };
    let reject = match p.reject_values {
        Some(vals) => if member(vals@, v) {
            seq![error_at(ErrorKind::WrongValue, path)]
        } else {
            Seq::empty()
        },
        None => Seq::empty(),
    };
    let rx = match p.regex {
        Some(pat) => match v {
            JValue::Str(s) => if full_match(pat@, s) {
                Seq::empty()
            } else {
                seq![error_at(ErrorKind::WrongValue, path)]
            },
            _ => seq![error_at(ErrorKind::WrongType, path)],
        },
        None => Seq::empty(),
    };
    allow + reject + rx + custom_errors(p.validators@, v, path, strict, p.validators@.len())
}

/// The path at which group constraints report: the object's own path, with
/// the root written `/`.
pub open spec fn group_path(path: Seq<char>) -> Seq<char> {
    if path.len() == 0 {
        seq!['/']
    } else {
        path
    }
}

/// How many distinct keys among `keys` the object holds: a key listed twice
/// counts once.
pub open spec fn count_present(keys: Seq<Seq<char>>, entries: Seq<(Seq<char>, JValue)>) -> nat
    decreases keys.len(),
{
    if keys.len() == 0 {
        0
    } else {
        count_present(keys.drop_last(), entries) + if find_key(entries, keys.last()) is Some
            && !keys.drop_last().contains(keys.last()) {
            1nat
        } else {
            0nat
        }
    }
}

pub open spec fn group_error(kind: ErrorKind, path: Seq<char>, keys: Seq<Seq<char>>) -> Seq<
    ErrorView,
> {
    seq![ErrorView { kind, path, params: keys }]
}

/// The errors of one group constraint on an object.
pub open spec fn group_errors<C: Check>(
    g: Group<C>,
    entries: Seq<(Seq<char>, JValue)>,
    path: Seq<char>,
    strict: bool,
) -> Seq<ErrorView> {
    match g {
        Group::MutuallyExclusive(keys) => if count_present(strs_view(keys@), entries) > 1 {
            group_error(ErrorKind::MutuallyExclusive, path, strs_view(keys@))
        } else {
            Seq::empty()
        },
        Group::ExactlyOneOf(keys) => if count_present(strs_view(keys@), entries) != 1 {
            group_error(ErrorKind::ExactlyOne, path, strs_view(keys@))
        } else {
            Seq::empty()
        },
        Group::AtLeastOneOf(keys) => if count_present(strs_view(keys@), entries) == 0 {
            group_error(ErrorKind::AtLeastOne, path, strs_view(keys@))
        } else {
            Seq::empty()
        },
        Group::Custom(c) => c.outcome(JValue::Object(entries), path, strict),
    }
}

/// The errors of the first `n` group constraints, in order.
pub open spec fn groups_errors<C: Check>(
    gs: Seq<Group<C>>,
    entries: Seq<(Seq<char>, JValue)>,
    path: Seq<char>,
    strict: bool,
    n: nat,
) -> Seq<ErrorView>
    decreases n,
{
    if n == 0 || n > gs.len() {
        Seq::empty()
    } else {
        groups_errors(gs, entries, path, strict, (n - 1) as nat) + group_errors(
            gs[n - 1],
            entries,
            path,
            strict,
        )
    }
}

/// Applying a set to a value: the value it leaves and the errors, in order.
/// A value that is no object is one error; otherwise each parameter is
/// processed in declaration order, then each group constraint runs on the
/// object as the parameters left it.
pub open spec fn process_spec<C: Check>(
    set: ParamSet<C>,
    v: JValue,
    path: Seq<char>,
    strict: bool,
) -> (JValue, Seq<ErrorView>)
    decreases set, 3nat, 0nat,
{
    match v {
        JValue::Object(entries) => {
            let (obj, errs) = params_spec(set, entries, path, strict, set.params@.len());
            (
                JValue::Object(obj),
                errs + groups_errors(
                    set.groups@,
                    obj,
                    group_path(path),
                    strict,
                    set.groups@.len(),
                ),
            )
        },
        _ => (v, seq![error_at(ErrorKind::WrongType, path)]),
    }
}

/// The first `n` parameters of `set`, processed in order on an object.
pub open spec fn params_spec<C: Check>(
    set: ParamSet<C>,
    entries: Seq<(Seq<char>, JValue)>,
    path: Seq<char>,
    strict: bool,
    n: nat,
) -> (Seq<(Seq<char>, JValue)>, Seq<ErrorView>)
    decreases set, 2nat, n,
{
    if n == 0 || n > set.params@.len() {
        (entries, Seq::empty())
    } else {
        let (e1, r1) = params_spec(set, entries, path, strict, (n - 1) as nat);
        let (e2, r2) = param_spec(set, n - 1, e1, path, strict);
        (e2, r1 + r2)
    }
}

/// Parameter `k` of `set`, processed on an object: an absent key is an
/// error when required and otherwise takes the default, if any; a null is
/// accepted only where allowed; anything else is coerced and checked.
pub open spec fn param_spec<C: Check>(
    set: ParamSet<C>,
    k: int,
    entries: Seq<(Seq<char>, JValue)>,
    path: Seq<char>,
    strict: bool,
) -> (Seq<(Seq<char>, JValue)>, Seq<ErrorView>)
    decreases set, 1nat, 0nat,
{
    if 0 <= k < set.params@.len() {
        let p = set.params@[k];
        let ppath = child_path(path, p.name@);
        match find_key(entries, p.name@) {
            None => if p.required {
                (entries, seq![error_at(ErrorKind::Required, ppath)])
            } else {
                match p.default {
                    Some(d) => {
                        let (nv, errs) = param_value_spec(set, k, d@, ppath, strict);
                        (entries.push((p.name@, nv)), errs)
                    },
                    None => (entries, Seq::empty()),
                }
            },
            Some(i) => if entries[i].1 == JValue::Null {
                if p.allow_null {
                    (entries, Seq::empty())
                } else {
                    (entries, seq![error_at(ErrorKind::WrongType, ppath)])
                }
            } else {
                let (nv, errs) = param_value_spec(set, k, entries[i].1, ppath, strict);
                (entries.update(i, (entries[i].0, nv)), errs)
            },
        }
    } else {
        (entries, Seq::empty())
    }
}

/// The value of parameter `k` coerced, then processed by the nested set,
/// then checked. A coercion failure stops there.
pub open spec fn param_value_spec<C: Check>(
    set: ParamSet<C>,
    k: int,
    v: JValue,
    ppath: Seq<char>,
    strict: bool,
) -> (JValue, Seq<ErrorView>)
    decreases set, 0nat, 0nat,
{
    if 0 <= k < set.params@.len() {
        let p = set.params@[k];
        let c = match p.coercer {
            Some(c) => coerce_spec(c, v, ppath),
            None => kept(v),
        };
        if c.errors.len() > 0 {
            (c.value, c.errors)
        } else {
            let (v2, nerrs) = match p.nested {
                Some(ns) => nested_spec(*ns, c.value, ppath, strict),
                None => (c.value, Seq::empty()),
            };
            (v2, nerrs + value_errors(p, v2, ppath, strict))
        }
    } else {
        (v, Seq::empty())
    }
}

/// A nested set applied to a value: to an object itself, to each object
/// element of an array at the element's path, to nothing else.
pub open spec fn nested_spec<C: Check>(
    ns: ParamSet<C>,
    v: JValue,
    path: Seq<char>,
    strict: bool,
) -> (JValue, Seq<ErrorView>)
    decreases ns, 5nat, 0nat,
{
    match v {
        JValue::Object(_) => process_spec(ns, v, path, strict),
        JValue::Array(items) => {
            let (its, errs) = nested_items_spec(ns, items, path, strict, items.len());
            (JValue::Array(its), errs)
        },
        _ => (v, Seq::empty()),
    }
}

/// A nested set applied to the object elements among the first `n`
/// elements of `items`.
pub open spec fn nested_items_spec<C: Check>(
    ns: ParamSet<C>,
    items: Seq<JValue>,
    path: Seq<char>,
    strict: bool,
    n: nat,
) -> (Seq<JValue>, Seq<ErrorView>)
    decreases ns, 4nat, n,
{
    if n == 0 || n > items.len() {
        (items, Seq::empty())
    } else {
        let (its, errs) = nested_items_spec(ns, items, path, strict, (n - 1) as nat);
        match items[n - 1] {
            JValue::Object(_) => {
                let (nv, e) = process_spec(ns, items[n - 1], index_path(path, n - 1), strict);
                (its.update(n - 1, nv), errs + e)
            },
            _ => (its, errs),
        }
    }
}

fn error_list(kind: ErrorKind, path: &String, detail: &str) -> (r: Vec<DslError>)
    ensures
        errors_view(r@) == seq![error_at(kind, path@)],
{
    let r = vec![DslError::new(kind, path, detail)];
    assert(errors_view(r@) =~= seq![error_at(kind, path@)]);
    r
}

fn no_errors() -> (r: Vec<DslError>)
    ensures
        errors_view(r@) == Seq::<ErrorView>::empty(),
{
    let r: Vec<DslError> = Vec::new();
    assert(errors_view(r@) =~= Seq::<ErrorView>::empty());
    r
}

/// Whether `v` equals one of `vals`.
fn is_member(vals: &Vec<Json>, v: &Json) -> (r: bool)
    ensures
        r == member(vals@, v@),
{
    let mut i: usize = 0;
    while i < vals.len()
        invariant
            0 <= i <= vals.len(),
            forall|j: int| 0 <= j < i ==> (#[trigger] vals@[j])@ != v@,
        decreases vals.len() - i,
    {
        if json_equal(&vals[i], v) {
            return true;
        }
        i = i + 1;
    }
    false
}

/// A copy of a list of strings.
pub fn clone_strings(v: &Vec<String>) -> (r: Vec<String>)
    ensures
        strs_view(r@) == strs_view(v@),
{
    let mut out: Vec<String> = Vec::new();
    let mut i: usize = 0;
    while i < v.len()
        invariant
            0 <= i <= v.len(),
            out@.len() == i,
            forall|j: int| 0 <= j < i ==> (#[trigger] out@[j])@ == v@[j]@,
        decreases v.len() - i,
    {
        out.push(v[i].clone());
        i = i + 1;
    }
    assert(strs_view(out@) =~= strs_view(v@));
    out
}

/// How many of `keys` the object holds.
fn count_keys(keys: &Vec<String>, entries: &Vec<(String, Json)>) -> (r: usize)
    ensures
        r == count_present(strs_view(keys@), entries_view(entries@)),
{
    let ghost ks = strs_view(keys@);
    let mut n: usize = 0;
    let mut i: usize = 0;
    while i < keys.len()
        invariant
            0 <= i <= keys.len(),
            ks == strs_view(keys@),
            n == count_present(ks.subrange(0, i as int), entries_view(entries@)),
            n <= i,
        decreases keys.len() - i,
    {
        let found = find_entry(entries, &keys[i]);
        let mut seen = false;
        let mut j: usize = 0;
        while j < i
            invariant
                0 <= j <= i < keys.len(),
                ks == strs_view(keys@),
                seen <==> exists|m: int| 0 <= m < j && ks[m] == ks[i as int],
            decreases i - j,
        {
            let ghost before = seen;
            if keys[j] == keys[i] {
                seen = true;
            }
            proof {
                assert(ks[j as int] == keys@[j as int]@ && ks[i as int] == keys@[i as int]@);
                if ks[j as int] == ks[i as int] {
                    assert(0 <= j < j + 1 && ks[j as int] == ks[i as int]);
                }
                if !seen {
                    assert forall|m: int| 0 <= m < j + 1 implies ks[m] != ks[i as int] by {
                        if m < j {
                            assert(!(0 <= m < j && ks[m] == ks[i as int]));
                        }
                    }
                }
            }
            j = j + 1;
        }
        proof {
            let pre = ks.subrange(0, i as int);
            assert(ks.subrange(0, i + 1).drop_last() =~= pre);
            assert(ks.subrange(0, i + 1).last() == keys@[i as int]@);
            if seen {
                let m = choose|m: int| 0 <= m < i && ks[m] == ks[i as int];
                assert(pre[m] == ks[i as int]);
            } else {
                assert forall|m: int| 0 <= m < pre.len() implies pre[m] != ks[i as int] by {
                    assert(pre[m] == ks[m]);
                }
            }
        }
        if found.is_some() && !seen {
            n = n + 1;
        }
        i = i + 1;
    }
    assert(ks.subrange(0, i as int) =~= ks);
    n
}

impl<C: Check> Param<C> {
    /// Runs the value checks of the parameter on its coerced value.
    fn check_value(&self, v: &Json, path: &String, strict: bool) -> (r: Vec<DslError>)
        ensures
            errors_view(r@) == value_errors(*self, v@, path@, strict),
    {
        let mut errs = no_errors();
        match &self.allow_values {
            Some(vals) => {
                if !is_member(vals, v) {
                    append_errors(
                        &mut errs,
                        error_list(ErrorKind::WrongValue, path, "Value is not among the allowed values"),
                    );
                }
            },
            None => {},
        }
        match &self.reject_values {
            Some(vals) => {
                if is_member(vals, v) {
                    append_errors(
                        &mut errs,
                        error_list(ErrorKind::WrongValue, path, "Value is among the rejected values"),
                    );
                }
            },
            None => {},
        }
        match &self.regex {
            Some(pat) => {
                match v {
                    Json::String(s) => {
                        if !matches_whole(pat, s) {
                            append_errors(
                                &mut errs,
                                error_list(ErrorKind::WrongValue, path, "Value does not match the pattern"),
                            );
                        }
                    },
                    _ => {
                        append_errors(
                            &mut errs,
                            error_list(ErrorKind::WrongType, path, "Only a string can match a pattern"),
                        );
                    },
                }
            },
            None => {},
        }
        let ghost base = errors_view(errs@);
        let mut i: usize = 0;
        while i < self.validators.len()
            invariant
                0 <= i <= self.validators.len(),
                errors_view(errs@) == base + custom_errors(
                    self.validators@,
                    v@,
                    path@,
                    strict,
                    i as nat,
                ),
            decreases self.validators.len() - i,
        {
            let e = self.validators[i].check(v, path, strict);
            append_errors(&mut errs, e);
            proof {
                assert(errors_view(errs@) =~= base + custom_errors(
                    self.validators@,
                    v@,
                    path@,
                    strict,
                    (i + 1) as nat,
                ));
            }
            i = i + 1;
        }
        errs
    }
}

impl<C: Check> Group<C> {
    /// Runs the constraint on an object.
    fn check_object(&self, entries: &Vec<(String, Json)>, path: &String, strict: bool) -> (r: Vec<
        DslError,
    >)
        ensures
            errors_view(r@) == group_errors(*self, entries_view(entries@), path@, strict),
    {
        match self {
            Group::MutuallyExclusive(keys) => {
                if count_keys(keys, entries) > 1 {
                    group_error_list(ErrorKind::MutuallyExclusive, path, keys, "Fields are mutually exclusive")
                } else {
                    no_errors()
                }
            },
            Group::ExactlyOneOf(keys) => {
                if count_keys(keys, entries) != 1 {
                    group_error_list(ErrorKind::ExactlyOne, path, keys, "Exactly one of the fields is required")
                } else {
                    no_errors()
                }
            },
            Group::AtLeastOneOf(keys) => {
                if count_keys(keys, entries) == 0 {
                    group_error_list(ErrorKind::AtLeastOne, path, keys, "At least one of the fields is required")
                } else {
                    no_errors()
                }
            },
            Group::Custom(c) => {
                let cl = clone_entries(entries);
                proof {
                    lemma_object_view(cl);
                }
                let obj = Json::Object(cl);
                c.check(&obj, path, strict)
            },
        }
    }
}

fn group_error_list(kind: ErrorKind, path: &String, keys: &Vec<String>, detail: &str) -> (r: Vec<
    DslError,
>)
    ensures
        errors_view(r@) == group_error(kind, path@, strs_view(keys@)),
{
    let e = DslError { kind, path: path.clone(), detail: detail.to_string(), params: clone_strings(keys) };
    let r = vec![e];
    assert(errors_view(r@) =~= group_error(kind, path@, strs_view(keys@)));
    r
}

/// A copy of an object's entries.
fn clone_entries(entries: &Vec<(String, Json)>) -> (r: Vec<(String, Json)>)
    ensures
        entries_view(r@) == entries_view(entries@),
{
    let mut out: Vec<(String, Json)> = Vec::new();
    let mut i: usize = 0;
    while i < entries.len()
        invariant
            0 <= i <= entries.len(),
            out@.len() == i,
            forall|j: int|
                0 <= j < i ==> (#[trigger] out@[j]).0@ == entries@[j].0@ && out@[j].1@
                    == entries@[j].1@,
        decreases entries.len() - i,
    {
        let v = json_clone(&entries[i].1);
        out.push((entries[i].0.clone(), v));
        i = i + 1;
    }
    assert(entries_view(out@) =~= entries_view(entries@));
    out
}

/// The path at which group constraints report.
fn group_path_of(path: &String) -> (r: String)
    ensures
        r@ == group_path(path@),
{
    let cs = chars_of(path.as_str());
    if cs.len() == 0 {
        let slash = vec!['/'];
        assert(slash@ =~= seq!['/']);
        string_of(&slash)
    } else {
        path.clone()
    }
}

impl<C: Check> ParamSet<C> {
    /// Applies the set to `val`, the root of a document: coerces in place
    /// and returns every error, in order.
    pub fn process(&self, val: &mut Json) -> (r: Vec<DslError>)
        ensures
            (final(val)@, errors_view(r@)) == process_spec(*self, old(val)@, Seq::empty(), false),
    {
        let root: Vec<char> = Vec::new();
        let path = string_of(&root);
        self.process_at(val, &path, false)
    }

    /// Applies the set to `val`, which stands at `path`.
    pub fn process_at(&self, val: &mut Json, path: &String, strict: bool) -> (r: Vec<DslError>)
        ensures
            (final(val)@, errors_view(r@)) == process_spec(*self, old(val)@, path@, strict),
        decreases self, 3nat, 0nat,
    {
        match val {
            Json::Object(entries) => {
                proof {
                    lemma_object_view(*entries);
                }
                let mut errs = self.process_params(entries, path, strict);
                let gpath = group_path_of(path);
                let gerrs = self.run_groups(entries, &gpath, strict);
                append_errors(&mut errs, gerrs);
                proof {
                    lemma_object_view(*entries);
                }
                errs
            },
            _ => error_list(ErrorKind::WrongType, path, "Value is not an object"),
        }
    }

    fn run_groups(&self, entries: &Vec<(String, Json)>, gpath: &String, strict: bool) -> (r: Vec<
        DslError,
    >)
        ensures
            errors_view(r@) == groups_errors(
                self.groups@,
                entries_view(entries@),
                gpath@,
                strict,
                self.groups@.len(),
            ),
    {
        let mut errs = no_errors();
        let mut i: usize = 0;
        while i < self.groups.len()
            invariant
                0 <= i <= self.groups.len(),
                errors_view(errs@) == groups_errors(
                    self.groups@,
                    entries_view(entries@),
                    gpath@,
                    strict,
                    i as nat,
                ),
            decreases self.groups.len() - i,
        {
            let e = self.groups[i].check_object(entries, gpath, strict);
            append_errors(&mut errs, e);
            i = i + 1;
        }
        errs
    }

    fn process_params(&self, entries: &mut Vec<(String, Json)>, path: &String, strict: bool) -> (r:
        Vec<DslError>)
        ensures
            (entries_view(final(entries)@), errors_view(r@)) == params_spec(
                *self,
                entries_view(old(entries)@),
                path@,
                strict,
                self.params@.len(),
            ),
        decreases self, 2nat, 0nat,
    {
        let ghost e0 = entries_view(entries@);
        let mut errs = no_errors();
        let mut k: usize = 0;
        while k < self.params.len()
            invariant
                0 <= k <= self.params.len(),
                (entries_view(entries@), errors_view(errs@)) == params_spec(
                    *self,
                    e0,
                    path@,
                    strict,
                    k as nat,
                ),
            decreases self.params.len() - k,
        {
            let e = self.process_param(k, entries, path, strict);
            append_errors(&mut errs, e);
            k = k + 1;
        }
        errs
    }

    fn process_param(&self, k: usize, entries: &mut Vec<(String, Json)>, path: &String, strict: bool) -> (r:
        Vec<DslError>)
        requires
            k < self.params@.len(),
        ensures
            (entries_view(final(entries)@), errors_view(r@)) == param_spec(
                *self,
                k as int,
                entries_view(old(entries)@),
                path@,
                strict,
            ),
        decreases self, 1nat, 0nat,
    {
        let p = &self.params[k];
        let ppath = join_path(path, chars_of(p.name.as_str()));
        let ghost ev = entries_view(entries@);
        proof {
            lemma_find_key(ev, p.name@);
        }
        match find_entry(entries, &p.name) {
            None => {
                if p.required {
                    return error_list(ErrorKind::Required, &ppath, "This field is required");
                }
                match &p.default {
                    None => no_errors(),
                    Some(d) => {
                        let mut v = json_clone(d);
                        let errs = self.param_value(k, &mut v, &ppath, strict);
                        entries.push((p.name.clone(), v));
                        assert(entries_view(entries@) =~= ev.push((p.name@, v@)));
                        errs
                    },
                }
            },
            Some(i) => {
                assert(ev[i as int].1 == entries@[i as int].1@);
                if let Json::Null = &entries[i].1 {
                    if p.allow_null {
                        return no_errors();
                    } else {
                        return error_list(
                            ErrorKind::WrongType,
                            &ppath,
                            "Null value is not allowed",
                        );
                    }
                }
                let (key, mut v) = entries.remove(i);
                let ghost kv = key@;
                let errs = self.param_value(k, &mut v, &ppath, strict);
                entries.insert(i, (key, v));
                assert(entries_view(entries@) =~= ev.update(i as int, (kv, v@)));
                errs
            },
        }
    }

    fn param_value(&self, k: usize, v: &mut Json, ppath: &String, strict: bool) -> (r: Vec<DslError>)
        requires
            k < self.params@.len(),
        ensures
            (final(v)@, errors_view(r@)) == param_value_spec(*self, k as int, old(v)@, ppath@, strict),
        decreases self, 0nat, 0nat,
    {
        let p = &self.params[k];
        match &p.coercer {
            Some(c) => {
                match c.coerce(v, ppath) {
                    Ok(Some(x)) => {
                        *v = x;
                    },
                    Ok(None) => {},
                    Err(e) => {
                        return e;
                    },
                }
            },
            None => {},
        }
        let mut errs = match &p.nested {
            Some(ns) => {
                assert(decreases_to!(*self => self.params@[k as int]));
                ns.process_nested(v, ppath, strict)
            },
            None => no_errors(),
        };
        let verrs = p.check_value(v, ppath, strict);
        append_errors(&mut errs, verrs);
        errs
    }

    fn process_nested(&self, v: &mut Json, path: &String, strict: bool) -> (r: Vec<DslError>)
        ensures
            (final(v)@, errors_view(r@)) == nested_spec(*self, old(v)@, path@, strict),
        decreases self, 5nat, 0nat,
    {
        match v {
            Json::Object(_) => self.process_at(v, path, strict),
            Json::Array(items) => {
                proof {
                    lemma_array_view(*items);
                }
                let ghost iv = items_view(items@);
                let mut errs = no_errors();
                let mut i: usize = 0;
                while i < items.len()
                    invariant
                        0 <= i <= items.len(),
                        iv.len() == items@.len(),
                        (items_view(items@), errors_view(errs@)) == nested_items_spec(
                            *self,
                            iv,
                            path@,
                            strict,
                            i as nat,
                        ),
                        forall|j: int| i <= j < iv.len() ==> (#[trigger] items@[j])@ == iv[j],
                    decreases items.len() - i,
                {
                    let ghost before = items_view(items@);
                    let is_object = match &items[i] {
                        Json::Object(_) => true,
                        _ => false,
                    };
                    if is_object {
                        let ipath = join_path(path, u64_text(i as u64));
                        let mut item = items.remove(i);
                        let e = self.process_at(&mut item, &ipath, strict);
                        items.insert(i, item);
                        append_errors(&mut errs, e);
                        assert(items_view(items@) =~= before.update(i as int, item@));
                    } else {
                        assert(!(iv[i as int] is Object));
                    }
                    i = i + 1;
                }
                proof {
                    lemma_array_view(*items);
                }
                errs
            },
            _ => no_errors(),
        }
    }
}

} // verus!
