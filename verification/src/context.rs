//! The request-scoped handle that resolution threads through the selection
//! tree: the registry, the request's variables, the structural path so far,
//! and either the argument bindings of the current field or the selection set
//! to resolve next. A
//! child context is a fresh value; its parent is never changed.

use vstd::prelude::*;
use crate::error::{extend_path, clone_path, path_view, Error, PathSeg, PathSegment, QueryError};
use crate::query::{text, ArgValue, FieldNode};
use graphql_parser::Pos;
use crate::registry::{is_first, Registry};

verus! {

/// The context of one field: the path ends with the field's own key.
pub struct Context<'a> {
    pub registry: &'a Registry,
    pub variables: &'a Vec<(String, ArgValue)>,
    pub path: Vec<PathSegment>,
    pub arguments: &'a Vec<(String, ArgValue)>,
}

/// The context of one selection set.
pub struct ContextSelectionSet<'a> {
    pub registry: &'a Registry,
    pub variables: &'a Vec<(String, ArgValue)>,
    pub path: Vec<PathSegment>,
    pub selection_set: &'a Vec<FieldNode>,
}

/// The mathematical value of a field's context.
pub struct FieldScope {
    pub registry: Registry,
    pub variables: Seq<(String, ArgValue)>,
    pub path: Seq<PathSeg>,
    pub arguments: Seq<(String, ArgValue)>,
}

/// The mathematical value of a selection set's context.
pub struct SelectionScope {
    pub registry: Registry,
    pub variables: Seq<(String, ArgValue)>,
    pub path: Seq<PathSeg>,
    pub selection: Seq<FieldNode>,
}

impl FieldScope {
    /// The scope of the selection set `selection` below this field.
    pub open spec fn with_selection_set(self, selection: Seq<FieldNode>) -> SelectionScope {
        SelectionScope { registry: self.registry, variables: self.variables, path: self.path, selection }
    }
}

impl SelectionScope {
    /// The scope of a request's top-level selection set.
    pub open spec fn root(
        registry: Registry,
        variables: Seq<(String, ArgValue)>,
        selection: Seq<FieldNode>,
    ) -> SelectionScope {
        SelectionScope { registry, variables, path: Seq::empty(), selection }
    }

    /// The scope of the field `f`: one step deeper, under the field's key.
    pub open spec fn with_field(self, f: FieldNode) -> FieldScope {
        FieldScope {
            registry: self.registry,
            variables: self.variables,
            path: self.path.push(PathSeg::Name(f.key())),
            arguments: f.arguments@,
        }
    }

    /// The scope of the item at `i` of a list: one step deeper, under `i`.
    pub open spec fn with_index(self, i: usize) -> SelectionScope {
        SelectionScope {
            registry: self.registry,
            variables: self.variables,
            path: self.path.push(PathSeg::Index(i)),
            selection: self.selection,
        }
    }
}

impl<'a> View for Context<'a> {
    type V = FieldScope;

    open spec fn view(&self) -> FieldScope {
        FieldScope {
            registry: *self.registry,
            variables: self.variables@,
            path: path_view(self.path@),
            arguments: self.arguments@,
        }
    }
}

impl<'a> View for ContextSelectionSet<'a> {
    type V = SelectionScope;

    open spec fn view(&self) -> SelectionScope {
        SelectionScope {
            registry: *self.registry,
            variables: self.variables@,
            path: path_view(self.path@),
            selection: self.selection_set@,
        }
    }
}

/// The names of a sequence of argument bindings, in its order.
pub open spec fn arg_names(args: Seq<(String, ArgValue)>) -> Seq<Seq<char>> {
    Seq::new(args.len(), |i: int| args[i].0@)
}

/// The value of the first binding of `name`; none where `name` is unbound.
pub open spec fn bound(args: Seq<(String, ArgValue)>, name: Seq<char>) -> Option<ArgValue> {
    if exists|i: int| is_first(arg_names(args), name, i) {
        Some(args[choose|i: int| is_first(arg_names(args), name, i)].1)
    } else {
        None
    }
}

/// The text of the argument `name`: that of the string bound to it, or of
/// the string bound to the variable that is bound to it; none where the
/// argument is unbound or stands for anything but a string.
pub open spec fn arg_text(
    args: Seq<(String, ArgValue)>,
    variables: Seq<(String, ArgValue)>,
    name: Seq<char>,
) -> Option<Seq<char>> {
    match bound(args, name) {
        Some(ArgValue::Str(s)) => Some(s@),
        Some(ArgValue::Variable(v)) => match bound(variables, v@) {
            Some(ArgValue::Str(s)) => Some(s@),
            _ => None,
        },
        _ => None,
    }
}

/// The value of the first binding of `name`.
pub fn lookup<'b>(args: &'b Vec<(String, ArgValue)>, name: &String) -> (r: Option<&'b ArgValue>)
    ensures
        match r {
            Some(v) => bound(args@, name@) == Some(*v),
            None => bound(args@, name@) is None,
        },
{
    let ghost names = arg_names(args@);
    let mut i: usize = 0;
    while i < args.len()
        invariant
            i <= args.len(),
            names == arg_names(args@),
            forall|j: int| 0 <= j < i ==> names[j] != name@,
        decreases args.len() - i,
    {
        if args[i].0 == *name {
            proof {
                assert(is_first(names, name@, i as int));
                let c = choose|k: int| is_first(names, name@, k);
                assert(c == i) by {
                    if c < i {
                        assert(names[c] != name@);
                    } else if i < c {
                        assert(names[i as int] != name@);
                    }
                }
            }
            return Some(&args[i].1);
        }
        i += 1;
    }
    proof {
        assert forall|k: int| !is_first(names, name@, k) by {
            if 0 <= k < names.len() {
                assert(names[k] != name@);
            }
        }
    }
    None
}

impl<'a> Context<'a> {
    /// The context of the selection set `selection_set` below this field. The
    /// path and the registry are those of the field.
    pub fn with_selection_set<'b>(&'b self, selection_set: &'b Vec<FieldNode>) -> (c: ContextSelectionSet<'b>)
        ensures
            c@ == self@.with_selection_set(selection_set@),
    {
        ContextSelectionSet {
            registry: self.registry,
            variables: self.variables,
            path: clone_path(&self.path),
            selection_set,
        }
    }

    /// The required string argument `name` of the current field, a variable
    /// replaced by what the request binds to it. Fails, at `pos` and the
    /// field's path, where the argument is missing or no string.
    pub fn param_value(&self, name: &str, pos: Pos) -> (r: Result<String, Error>)
        ensures
            match r {
                Ok(s) => arg_text(self@.arguments, self@.variables, name@) == Some(s@),
                Err(e) => arg_text(self@.arguments, self@.variables, name@) is None
                    && e.is_expected_type(pos, self@.path, name@, "String"@),
            },
    {
        let wanted = text(name);
        match lookup(self.arguments, &wanted) {
            Some(ArgValue::Str(s)) => Ok(s.clone()),
            Some(ArgValue::Variable(v)) => match lookup(self.variables, v) {
                Some(ArgValue::Str(s)) => Ok(s.clone()),
                _ => Err(self.expected_string(wanted, pos)),
            },
            _ => Err(self.expected_string(wanted, pos)),
        }
    }

    /// The error for an argument `name` that is no string.
    fn expected_string(&self, name: String, pos: Pos) -> (e: Error)
        ensures
            e.is_expected_type(pos, self@.path, name@, "String"@),
    {
        Error {
            pos,
            path: clone_path(&self.path),
            err: QueryError::ExpectedType { name, expect: text("String") },
        }
    }
}

impl<'a> ContextSelectionSet<'a> {
    /// The context of a request's top-level selection set: the path is empty.
    pub fn root(
        registry: &'a Registry,
        variables: &'a Vec<(String, ArgValue)>,
        selection_set: &'a Vec<FieldNode>,
    ) -> (c: ContextSelectionSet<'a>)
        ensures
            c@ == SelectionScope::root(*registry, variables@, selection_set@),
    {
        let c = ContextSelectionSet { registry, variables, path: Vec::new(), selection_set };
        assert(c@.path =~= Seq::empty());
        c
    }

    /// The context of the field `field` of this selection set: the path grows
    /// by the field's key, the arguments are the field's.
    pub fn with_field<'b>(&'b self, field: &'b FieldNode) -> (c: Context<'b>)
        ensures
            c@ == self@.with_field(*field),
    {
        let key = field.response_key().clone();
        Context {
            registry: self.registry,
            variables: self.variables,
            path: extend_path(&self.path, PathSegment::Name(key)),
            arguments: &field.arguments,
        }
    }

    /// The context of the item at `i` of a list under this selection set: the
    /// path grows by `i`.
    pub fn with_index<'b>(&'b self, i: usize) -> (c: ContextSelectionSet<'b>)
        ensures
            c@ == self@.with_index(i),
    {
        ContextSelectionSet {
            registry: self.registry,
            variables: self.variables,
            path: extend_path(&self.path, PathSegment::Index(i)),
            selection_set: self.selection_set,
        }
    }
}

/// The path of a field reached from `scope` through the chain of fields
/// `chain`, each the parent of the next.
pub open spec fn descend(scope: SelectionScope, chain: Seq<FieldNode>) -> Seq<PathSeg>
    decreases chain.len(),
{
    if chain.len() == 0 {
        scope.path
    } else {
        descend(
            scope.with_field(chain[0]).with_selection_set(chain[0].selection_set@),
            chain.drop_first(),
        )
    }
}

/// The path of a field has one step for each level of nesting: a field
/// reached from the request root through a chain of `n` fields has a path of
/// length `n`, the keys of the chain in their order.
pub proof fn lemma_path_follows_nesting(scope: SelectionScope, chain: Seq<FieldNode>)
    ensures
        descend(scope, chain).len() == scope.path.len() + chain.len(),
        forall|i: int| 0 <= i < scope.path.len() ==> descend(scope, chain)[i] == scope.path[i],
        forall|i: int| 0 <= i < chain.len() ==>
            descend(scope, chain)[scope.path.len() + i] == PathSeg::Name(chain[i].key()),
    decreases chain.len(),
{
    if chain.len() > 0 {
        let next = scope.with_field(chain[0]).with_selection_set(chain[0].selection_set@);
        lemma_path_follows_nesting(next, chain.drop_first());
        assert forall|i: int| 0 <= i < scope.path.len() implies descend(scope, chain)[i] == scope.path[i] by {
            assert(descend(next, chain.drop_first())[i] == next.path[i]);
        }
        assert forall|i: int| 0 <= i < chain.len() implies
            descend(scope, chain)[scope.path.len() + i] == PathSeg::Name(chain[i].key()) by {
            if i > 0 {
                assert(chain.drop_first()[i - 1] == chain[i]);
                assert(descend(next, chain.drop_first())[next.path.len() + (i - 1)]
                    == PathSeg::Name(chain.drop_first()[i - 1].key()));
            } else {
                assert(descend(next, chain.drop_first())[scope.path.len() as int] == next.path[scope.path.len() as int]);
            }
        }
    }
}

} // verus!
