//! Errors of a resolution, each with the position of the failing field in the
//! query text and its structural path from the request root.

use vstd::prelude::*;
use graphql_parser::Pos;

verus! {

/// One step of a structural path: a field's response key, or a position in a
/// list.
#[derive(Clone, Debug, PartialEq, Eq)]
pub enum PathSegment {
    Name(String),
    Index(usize),
}

/// The mathematical value of a path step.
pub enum PathSeg {
    Name(Seq<char>),
    Index(usize),
}

impl View for PathSegment {
    type V = PathSeg;

    open spec fn view(&self) -> PathSeg {
        match self {
            PathSegment::Name(s) => PathSeg::Name(s@),
            PathSegment::Index(i) => PathSeg::Index(*i),
        }
    }
}

/// The path that a list of steps stands for, root first.
pub open spec fn path_view(p: Seq<PathSegment>) -> Seq<PathSeg> {
    Seq::new(p.len(), |i: int| p[i]@)
}

/// A copy of a path.
pub fn clone_path(p: &Vec<PathSegment>) -> (r: Vec<PathSegment>)
    ensures
        path_view(r@) == path_view(p@),
{
    let mut r: Vec<PathSegment> = Vec::new();
    let mut i: usize = 0;
    while i < p.len()
        invariant
            i <= p.len(),
            r@.len() == i,
            forall|j: int| 0 <= j < i ==> r@[j]@ == p@[j]@,
        decreases p.len() - i,
    {
        let seg = match &p[i] {
            PathSegment::Name(s) => PathSegment::Name(s.clone()),
            PathSegment::Index(k) => PathSegment::Index(*k),
        };
        r.push(seg);
        i += 1;
    }
    assert(path_view(r@) =~= path_view(p@));
    r
}

/// A copy of a path with one more step at its end.
pub fn extend_path(p: &Vec<PathSegment>, seg: PathSegment) -> (r: Vec<PathSegment>)
    ensures
        path_view(r@) == path_view(p@).push(seg@),
{
    let mut r = clone_path(p);
    proof {
        assert(path_view(r@).len() == r@.len());
        assert(path_view(p@).len() == p@.len());
        assert forall|j: int| 0 <= j < p@.len() implies r@[j]@ == p@[j]@ by {
            assert(path_view(r@)[j] == path_view(p@)[j]);
        }
    }
    r.push(seg);
    assert(path_view(r@) =~= path_view(p@).push(seg@));
    r
}

/// What went wrong.
#[derive(Clone, Debug, PartialEq, Eq)]
pub enum QueryError {
    /// The field does not exist on the type `object`.
    FieldNotFound { field_name: String, object: String },
    /// The argument `name` is missing or is not of the type `expect`.
    ExpectedType { name: String, expect: String },
    /// A resolver failed; the message is its own.
    Resolver { message: String },
}

/// An error with the position and path of the field it belongs to.
#[derive(Debug, PartialEq, Eq)]
pub struct Error {
    pub pos: Pos,
    pub path: Vec<PathSegment>,
    pub err: QueryError,
}

impl Error {
    /// The error says that `field_name` is no field of `object`, at `pos` and
    /// `path`.
    pub open spec fn is_field_not_found(
        self,
        pos: Pos,
        path: Seq<PathSeg>,
        field_name: Seq<char>,
        object: Seq<char>,
    ) -> bool {
        &&& self.pos == pos
        &&& path_view(self.path@) == path
        &&& self.err matches QueryError::FieldNotFound { field_name: f, object: o }
        &&& f@ == field_name
        &&& o@ == object
    }

    /// The error says that the argument `name` is not of the type `expect`, at
    /// `pos` and `path`.
    pub open spec fn is_expected_type(
        self,
        pos: Pos,
        path: Seq<PathSeg>,
        name: Seq<char>,
        expect: Seq<char>,
    ) -> bool {
        &&& self.pos == pos
        &&& path_view(self.path@) == path
        &&& self.err matches QueryError::ExpectedType { name: n, expect: x }
        &&& n@ == name
        &&& x@ == expect
    }

    /// The error carries the message `message` of a resolver, at `pos` and
    /// `path`.
    pub open spec fn is_resolver_error(self, pos: Pos, path: Seq<PathSeg>, message: Seq<char>) -> bool {
        &&& self.pos == pos
        &&& path_view(self.path@) == path
        &&& self.err matches QueryError::Resolver { message: m }
        &&& m@ == message
    }

    /// The error of a resolver that failed with `message`, at `pos` and
    /// `path`.
    pub fn resolver(pos: Pos, path: &Vec<PathSegment>, message: String) -> (e: Error)
        ensures
            e.is_resolver_error(pos, path_view(path@), message@),
    {
        Error { pos, path: clone_path(path), err: QueryError::Resolver { message } }
    }

    /// A field-not-found error for the field `field_name` of the type `object`.
    pub fn field_not_found(pos: Pos, path: &Vec<PathSegment>, field_name: &String, object: String) -> (e: Error)
        ensures
            e.is_field_not_found(pos, path_view(path@), field_name@, object@),
    {
        Error {
            pos,
            path: clone_path(path),
            err: QueryError::FieldNotFound { field_name: field_name.clone(), object },
        }
    }
}

} // verus!
