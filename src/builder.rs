//! Chainable construction of parameter sets.
use vstd::prelude::*;

use crate::coercers::Coercer;
use crate::errors::strs_view;
use crate::json::Json;
use crate::pattern::{pattern_usable, usable};
use crate::params::{clone_strings, Check, Group, Param, ParamSet};

verus! {

/// The index of the first parameter named `name`.
pub open spec fn first_named<C>(params: Seq<Param<C>>, name: Seq<char>) -> Option<int>
    decreases params.len(),
{
    if params.len() == 0 {
        None
    } else {
        match first_named(params.drop_last(), name) {
            Some(i) => Some(i),
            None => if params.last().name@ == name {
                Some(params.len() - 1)
            } else {
                None
            },
        }
    }
}

pub proof fn lemma_first_named<C>(params: Seq<Param<C>>, name: Seq<char>)
    ensures
        match first_named(params, name) {
            Some(i) => 0 <= i < params.len() && params[i].name@ == name && forall|j: int|
                0 <= j < i ==> (#[trigger] params[j]).name@ != name,
            None => forall|j: int| 0 <= j < params.len() ==> (#[trigger] params[j]).name@ != name,
        },
    decreases params.len(),
{
    if params.len() > 0 {
        lemma_first_named(params.drop_last(), name);
        assert forall|j: int| 0 <= j < params.len() - 1 implies params.drop_last()[j]
            == #[trigger] params[j] by {}
    }
}

/// The parameters once `p` is declared: it takes the place of a parameter
/// of the same name, or comes last.
pub open spec fn declared<C>(params: Seq<Param<C>>, p: Param<C>) -> Seq<Param<C>> {
    match first_named(params, p.name@) {
        Some(i) => params.update(i, p),
        None => params.push(p),
    }
}

/// Whether no two parameters share a name.
pub open spec fn names_unique<C>(params: Seq<Param<C>>) -> bool {
    forall|i: int, j: int|
        0 <= i < j < params.len() ==> (#[trigger] params[i]).name@ != (#[trigger] params[j]).name@
}

/// A parameter named `name` with the given presence, coercion and nested
/// set, and no other checks.
pub open spec fn plain<C>(
    p: Param<C>,
    name: Seq<char>,
    required: bool,
    coercer: Option<Coercer>,
    nested: Option<Box<ParamSet<C>>>,
) -> bool {
    &&& p.name@ == name
    &&& p.required == required
    &&& p.coercer == coercer
    &&& p.nested == nested
    &&& p.default is None
    &&& !p.allow_null
    &&& p.validators@.len() == 0
    &&& p.allow_values is None
    &&& p.reject_values is None
    &&& p.regex is None
}

/// A parameter named `name` that asks nothing yet.
pub open spec fn is_blank<C>(p: Param<C>, name: Seq<char>) -> bool {
    &&& p.name@ == name
    &&& p.coercer is None
    &&& p.nested is None
    &&& !p.required
    &&& p.default is None
    &&& !p.allow_null
    &&& p.validators@.len() == 0
    &&& p.allow_values is None
    &&& p.reject_values is None
    &&& p.regex is None
}

impl<C> Param<C> {
    /// A parameter named `name`, optional, with no coercion and no checks.
    pub fn new(name: &str) -> (r: Param<C>)
        ensures
            is_blank(r, name@),
    {
        Param {
            name: name.to_string(),
            coercer: None,
            nested: None,
            required: false,
            default: None,
            allow_null: false,
            validators: Vec::new(),
            allow_values: None,
            reject_values: None,
            regex: None,
        }
    }

    /// Coerces the value with `c`.
    pub fn coerce(&mut self, c: Coercer)
        ensures
            *final(self) == (Param { coercer: Some(c), ..*old(self) }),
    {
        self.coercer = Some(c);
    }

    /// Applies `set` to the coerced value, or to its object elements.
    pub fn nest(&mut self, set: ParamSet<C>)
        ensures
            *final(self) == (Param { nested: Some(Box::new(set)), ..*old(self) }),
    {
        self.nested = Some(Box::new(set));
    }

    /// Inserts `v` when the key is absent.
    pub fn default(&mut self, v: Json)
        ensures
            *final(self) == (Param { default: Some(v), ..*old(self) }),
    {
        self.default = Some(v);
    }

    /// Accepts null as the value, with no further checks.
    pub fn allow_null(&mut self)
        ensures
            *final(self) == (Param { allow_null: true, ..*old(self) }),
    {
        self.allow_null = true;
    }

    /// The value must equal one of `vals`.
    pub fn allow_values(&mut self, vals: Vec<Json>)
        ensures
            *final(self) == (Param { allow_values: Some(vals), ..*old(self) }),
    {
        self.allow_values = Some(vals);
    }

    /// The value must equal none of `vals`.
    pub fn reject_values(&mut self, vals: Vec<Json>)
        ensures
            *final(self) == (Param { reject_values: Some(vals), ..*old(self) }),
    {
        self.reject_values = Some(vals);
    }

    /// The value must be a string that matches `pattern` as a whole. A
    /// pattern that does not compile, alone or anchored, is refused: the
    /// result is `false` and the parameter is left as it was.
    pub fn regex(&mut self, pattern: &str) -> (ok: bool)
        ensures
            ok == usable(pattern@),
            ok ==> (final(self).regex matches Some(pat) && pat@ == pattern@),
            ok ==> *final(self) == (Param { regex: final(self).regex, ..*old(self) }),
            !ok ==> *final(self) == *old(self),
    {
        if pattern_usable(pattern) {
            self.regex = Some(pattern.to_string());
            true
        } else {
            false
        }
    }

    /// Runs `c` on the value after the other checks.
    pub fn validate_with(&mut self, c: C)
        ensures
            final(self).validators@ == old(self).validators@.push(c),
            *final(self) == (Param { validators: final(self).validators, ..*old(self) }),
    {
        self.validators.push(c);
    }
}

/// Builds a parameter set one declaration at a time.
pub struct Builder<C> {
    pub set: ParamSet<C>,
}

impl<C: Check> Builder<C> {
    /// A builder with no parameters and no constraints.
    pub fn new() -> (r: Builder<C>)
        ensures
            r.set.params@.len() == 0,
            r.set.groups@.len() == 0,
    {
        Builder { set: ParamSet { params: Vec::new(), groups: Vec::new() } }
    }

    /// Declares `p`, in place of a parameter of the same name if there is one.
    pub fn param(&mut self, p: Param<C>)
        ensures
            final(self).set.params@ == declared(old(self).set.params@, p),
            final(self).set.groups@ == old(self).set.groups@,
    {
        let ghost ps = self.set.params@;
        proof {
            lemma_first_named(ps, p.name@);
        }
        let mut i: usize = 0;
        while i < self.set.params.len()
            invariant
                0 <= i <= self.set.params@.len(),
                self.set.params@ == ps,
                ps == old(self).set.params@,
                self.set.groups@ == old(self).set.groups@,
                forall|j: int| 0 <= j < i ==> (#[trigger] ps[j]).name@ != p.name@,
            decreases self.set.params@.len() - i,
        {
            if self.set.params[i].name == p.name {
                proof {
                    lemma_first_named(ps, p.name@);
                    assert(first_named(ps, p.name@) == Some(i as int));
                }
                self.set.params.set(i, p);
                return;
            }
            i = i + 1;
        }
        self.set.params.push(p);
    }

    /// Declares a parameter named `name` with the given presence, coercion
    /// and nested set, and nothing else.
    fn declare(&mut self, name: &str, required: bool, coercer: Option<Coercer>, nested: Option<Box<ParamSet<C>>>)
        ensures
            exists|p: Param<C>|
                plain(p, name@, required, coercer, nested) && final(self).set.params@ == declared(
                    old(self).set.params@,
                    p,
                ),
            final(self).set.groups@ == old(self).set.groups@,
    {
        let mut p = Param::new(name);
        p.required = required;
        p.coercer = coercer;
        p.nested = nested;
        let ghost gp = p;
        self.param(p);
        assert(plain(gp, name@, required, coercer, nested));
    }

    /// A required key, with no coercion.
    pub fn req_defined(&mut self, name: &str)
        ensures
            exists|p: Param<C>|
                plain(p, name@, true, None, None) && final(self).set.params@ == declared(
                    old(self).set.params@,
                    p,
                ),
            final(self).set.groups@ == old(self).set.groups@,
    {
        self.declare(name, true, None, None);
    }

    /// A required key, coerced by `c`.
    pub fn req_typed(&mut self, name: &str, c: Coercer)
        ensures
            exists|p: Param<C>|
                plain(p, name@, true, Some(c), None) && final(self).set.params@ == declared(
                    old(self).set.params@,
                    p,
                ),
            final(self).set.groups@ == old(self).set.groups@,
    {
        self.declare(name, true, Some(c), None);
    }

    /// A required key, coerced by `c` and then checked by `nested`.
    pub fn req_nested(&mut self, name: &str, c: Coercer, nested: ParamSet<C>)
        ensures
            exists|p: Param<C>|
                plain(p, name@, true, Some(c), Some(Box::new(nested))) && final(self).set.params@
                    == declared(old(self).set.params@, p),
            final(self).set.groups@ == old(self).set.groups@,
    {
        self.declare(name, true, Some(c), Some(Box::new(nested)));
    }

    /// An optional key, with no coercion.
    pub fn opt_defined(&mut self, name: &str)
        ensures
            exists|p: Param<C>|
                plain(p, name@, false, None, None) && final(self).set.params@ == declared(
                    old(self).set.params@,
                    p,
                ),
            final(self).set.groups@ == old(self).set.groups@,
    {
        self.declare(name, false, None, None);
    }

    /// An optional key, coerced by `c` when present.
    pub fn opt_typed(&mut self, name: &str, c: Coercer)
        ensures
            exists|p: Param<C>|
                plain(p, name@, false, Some(c), None) && final(self).set.params@ == declared(
                    old(self).set.params@,
                    p,
                ),
            final(self).set.groups@ == old(self).set.groups@,
    {
        self.declare(name, false, Some(c), None);
    }

    /// An optional key, coerced by `c` and then checked by `nested` when
    /// present.
    pub fn opt_nested(&mut self, name: &str, c: Coercer, nested: ParamSet<C>)
        ensures
            exists|p: Param<C>|
                plain(p, name@, false, Some(c), Some(Box::new(nested))) && final(self).set.params@
                    == declared(old(self).set.params@, p),
            final(self).set.groups@ == old(self).set.groups@,
    {
        self.declare(name, false, Some(c), Some(Box::new(nested)));
    }

    /// A required key configured as `p` is, under `p`'s name.
    pub fn req(&mut self, p: Param<C>)
        ensures
            final(self).set.params@ == declared(
                old(self).set.params@,
                Param { required: true, ..p },
            ),
            final(self).set.groups@ == old(self).set.groups@,
    {
        let mut p = p;
        p.required = true;
        self.param(p);
    }

    /// An optional key configured as `p` is, under `p`'s name.
    pub fn opt(&mut self, p: Param<C>)
        ensures
            final(self).set.params@ == declared(
                old(self).set.params@,
                Param { required: false, ..p },
            ),
            final(self).set.groups@ == old(self).set.groups@,
    {
        let mut p = p;
        p.required = false;
        self.param(p);
    }

    fn group(&mut self, g: Group<C>)
        ensures
            final(self).set.groups@ == old(self).set.groups@.push(g),
            final(self).set.params@ == old(self).set.params@,
    {
        self.set.groups.push(g);
    }

    /// At most one of `keys` may be present.
    pub fn mutually_exclusive(&mut self, keys: &Vec<String>)
        ensures
            final(self).set.params@ == old(self).set.params@,
            final(self).set.groups@.len() == old(self).set.groups@.len() + 1,
            final(self).set.groups@.drop_last() == old(self).set.groups@,
            final(self).set.groups@.last() matches Group::MutuallyExclusive(ks) && strs_view(ks@)
                == strs_view(keys@),
    {
        self.group(Group::MutuallyExclusive(clone_strings(keys)));
        assert(self.set.groups@.drop_last() =~= old(self).set.groups@);
    }

    /// Exactly one of `keys` must be present.
    pub fn exactly_one_of(&mut self, keys: &Vec<String>)
        ensures
            final(self).set.params@ == old(self).set.params@,
            final(self).set.groups@.len() == old(self).set.groups@.len() + 1,
            final(self).set.groups@.drop_last() == old(self).set.groups@,
            final(self).set.groups@.last() matches Group::ExactlyOneOf(ks) && strs_view(ks@)
                == strs_view(keys@),
    {
        self.group(Group::ExactlyOneOf(clone_strings(keys)));
        assert(self.set.groups@.drop_last() =~= old(self).set.groups@);
    }

    /// At least one of `keys` must be present.
    pub fn at_least_one_of(&mut self, keys: &Vec<String>)
        ensures
            final(self).set.params@ == old(self).set.params@,
            final(self).set.groups@.len() == old(self).set.groups@.len() + 1,
            final(self).set.groups@.drop_last() == old(self).set.groups@,
            final(self).set.groups@.last() matches Group::AtLeastOneOf(ks) && strs_view(ks@)
                == strs_view(keys@),
    {
        self.group(Group::AtLeastOneOf(clone_strings(keys)));
        assert(self.set.groups@.drop_last() =~= old(self).set.groups@);
    }

    /// Runs `c` on the whole object after the parameters.
    pub fn validate_with(&mut self, c: C)
        ensures
            final(self).set.params@ == old(self).set.params@,
            final(self).set.groups@ == old(self).set.groups@.push(Group::Custom(c)),
    {
        self.group(Group::Custom(c));
    }

    /// The parameter set declared so far.
    pub fn build(self) -> (r: ParamSet<C>)
        ensures
            r == self.set,
    {
        self.set
    }
}

} // verus!
