//! Error records: a kind, the JSON-pointer path of the offending node, a short
//! human-readable detail, and the keys a group constraint names.
use vstd::prelude::*;

verus! {

/// The kinds of validation failure.
#[derive(Clone, Copy, PartialEq, Eq, Structural, Debug)]
pub enum ErrorKind {
    Required,
    WrongType,
    WrongValue,
    MutuallyExclusive,
    ExactlyOne,
    AtLeastOne,
    /// A kind raised by a validator that the caller supplied.
    Custom,
}

/// One validation failure.
pub struct DslError {
    pub kind: ErrorKind,
    pub path: String,
    pub detail: String,
    pub params: Vec<String>,
}

/// What an error record means: its kind, its path and the keys it names. The
/// detail is prose for people and is left out.
pub struct ErrorView {
    pub kind: ErrorKind,
    pub path: Seq<char>,
    pub params: Seq<Seq<char>>,
}

impl DslError {
    pub open spec fn view(&self) -> ErrorView {
        ErrorView {
            kind: self.kind,
            path: self.path@,
            params: strs_view(self.params@),
        }
    }

    /// An error of the given kind, with a detail.
    pub fn new(kind: ErrorKind, path: &String, detail: &str) -> (r: DslError)
        ensures
            r.kind == kind,
            r.path@ == path@,
            r.params@.len() == 0,
            r@ == error_at(kind, path@),
    {
        let r = DslError {
            kind,
            path: path.clone(),
            detail: detail.to_string(),
            params: Vec::new(),
        };
        assert(r.view().params =~= Seq::<Seq<char>>::empty());
        r
    }

    pub fn kind(&self) -> (r: ErrorKind)
        ensures
            r == self.kind,
    {
        self.kind
    }

    pub fn path(&self) -> (r: &String)
        ensures
            r == &self.path,
    {
        &self.path
    }
}

/// The character sequences of a list of strings.
pub open spec fn strs_view(v: Seq<String>) -> Seq<Seq<char>> {
    Seq::new(v.len(), |i: int| v[i]@)
}

/// An error of `kind` at `path` that names no keys.
pub open spec fn error_at(kind: ErrorKind, path: Seq<char>) -> ErrorView {
    ErrorView { kind, path, params: Seq::empty() }
}

/// The meaning of a list of error records.
pub open spec fn errors_view(v: Seq<DslError>) -> Seq<ErrorView> {
    Seq::new(v.len(), |i: int| v[i]@)
}

/// Appends every record of `more` to `errs`.
pub fn append_errors(errs: &mut Vec<DslError>, more: Vec<DslError>)
    ensures
        errors_view(final(errs)@) == errors_view(old(errs)@) + errors_view(more@),
{
    let mut more = more;
    let ghost start = errs@;
    let ghost m = more@;
    errs.append(&mut more);
    assert(errs@ =~= start + m);
    assert(errors_view(errs@) =~= errors_view(start) + errors_view(m));
}

} // verus!
