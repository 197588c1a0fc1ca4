//! The resolution protocol and the output assembler. Every resolvable type
//! maps a requested field to a structured value or an error; the assembler
//! resolves the fields of a selection set in request order into one object.

use vstd::prelude::*;
use crate::context::{Context, ContextSelectionSet, FieldScope, SelectionScope};
use crate::error::Error;
use crate::query::FieldNode;
use crate::registry::{MetaType, Registry};
use crate::value::Value;

verus! {

/// A type of the schema: it knows its name and can register its descriptor.
pub trait Type {
    /// The type's name, the key under which the registry holds it. A type
    /// that does not say what its name is has a fixed name all the same.
    open spec fn spec_name() -> Seq<char> {
        arbitrary()
    }

    /// `after` is an outcome of registering this type in `before`. A type
    /// that does not say what it registers admits every outcome that the
    /// contract of `create_type_info` allows.
    open spec fn registers(before: Seq<MetaType>, after: Seq<MetaType>) -> bool {
        true
    }

    /// The type's name.
    fn name() -> (n: String)
        ensures
            n@ == Self::spec_name(),
    ;

    /// Registers the type's descriptor, and those of the types it refers to,
    /// and returns the type's key. Types that are registered stay registered,
    /// and no name comes to stand twice.
    fn create_type_info(registry: &mut Registry) -> (key: String)
        ensures
            key@ == Self::spec_name(),
            old(registry).wf() ==> final(registry).wf(),
            forall|n: Seq<char>| old(registry).contains(n) ==> final(registry).contains(n),
            final(registry).contains(key@),
            Self::registers(old(registry)@, final(registry)@),
    ;
}

/// A resolvable type: it maps a requested field to a value or an error.
pub trait ObjectType: Type {
    /// `r` is an outcome of resolving `field` on this value in the scope
    /// `scope`. A type that does not say what its resolvers give admits every
    /// outcome.
    open spec fn yields(&self, scope: FieldScope, field: FieldNode, r: Result<Value, Error>) -> bool {
        true
    }

    /// Resolves `field` on this value.
    fn resolve_field(&self, ctx: &Context, field: &FieldNode) -> (r: Result<Value, Error>)
        ensures
            self.yields(ctx@, *field, r),
    ;
}

/// `r` is an outcome of resolving the selection set of `scope` on `root`: an
/// object with one entry for each requested field, in request order, under
/// the field's alias or else its name; or the error of the first field that
/// failed.
pub open spec fn assembled<T: ObjectType>(root: &T, scope: SelectionScope, r: Result<Value, Error>) -> bool {
    match r {
        Ok(v) => {
            &&& v matches Value::Object(entries)
            &&& entries@.len() == scope.selection.len()
            &&& forall|i: int| 0 <= i < scope.selection.len() ==> {
                &&& (#[trigger] entries@[i]).0@ == scope.selection[i].key()
                &&& root.yields(scope.with_field(scope.selection[i]), scope.selection[i], Ok(entries@[i].1))
            }
        },
        Err(e) => exists|i: int| failed_at(root, scope, i, e),
    }
}

/// The field at `i` of the selection set failed with `e`, and each field
/// before it gave a value.
pub open spec fn failed_at<T: ObjectType>(root: &T, scope: SelectionScope, i: int, e: Error) -> bool {
    &&& 0 <= i < scope.selection.len()
    &&& root.yields(scope.with_field(scope.selection[i]), scope.selection[i], Err(e))
    &&& forall|j: int| 0 <= j < i ==> gave_value(root, scope, j)
}

/// The field at `j` of the selection set gave a value.
pub open spec fn gave_value<T: ObjectType>(root: &T, scope: SelectionScope, j: int) -> bool {
    exists|v: Value| root.yields(scope.with_field(scope.selection[j]), scope.selection[j], Ok(v))
}

/// Resolves the selection set of `ctx` on `root`, field by field in request
/// order, each field in a context of its own.
pub fn do_resolve<T: ObjectType>(ctx: &ContextSelectionSet, root: &T) -> (r: Result<Value, Error>)
    ensures
        assembled(root, ctx@, r),
{
    let mut entries: Vec<(String, Value)> = Vec::new();
    let mut i: usize = 0;
    while i < ctx.selection_set.len()
        invariant
            i <= ctx.selection_set.len(),
            entries@.len() == i,
            forall|j: int| 0 <= j < i ==> {
                &&& (#[trigger] entries@[j]).0@ == ctx@.selection[j].key()
                &&& root.yields(ctx@.with_field(ctx@.selection[j]), ctx@.selection[j], Ok(entries@[j].1))
            },
        decreases ctx.selection_set.len() - i,
    {
        let field = &ctx.selection_set[i];
        let child = ctx.with_field(field);
        match root.resolve_field(&child, field) {
            Ok(v) => {
                entries.push((field.response_key().clone(), v));
            },
            Err(e) => {
                proof {
                    assert forall|j: int| 0 <= j < i implies gave_value(root, ctx@, j) by {
                        assert(root.yields(ctx@.with_field(ctx@.selection[j]), ctx@.selection[j], Ok(entries@[j].1)));
                    }
                    assert(ctx@.selection[i as int] == *field);
                    assert(root.yields(ctx@.with_field(ctx@.selection[i as int]), ctx@.selection[i as int], Err(e)));
                    assert(failed_at(root, ctx@, i as int, e));
                }
                return Err(e);
            },
        }
        i += 1;
    }
    Ok(Value::Object(entries))
}

/// `r` is an outcome of resolving the selection set of `scope` on each of
/// `items`: a list with one object for each item, in their order, each
/// resolved one step deeper under its index; or the error of the first item
/// that failed.
pub open spec fn list_assembled<T: ObjectType>(items: Seq<T>, scope: SelectionScope, r: Result<Value, Error>) -> bool {
    match r {
        Ok(v) => {
            &&& v matches Value::List(vals)
            &&& vals@.len() == items.len()
            &&& forall|i: int| 0 <= i < items.len() ==>
                assembled(&items[i], scope.with_index(i as usize), Ok(#[trigger] vals@[i]))
        },
        Err(e) => exists|i: int| item_failed_at(items, scope, i, e),
    }
}

/// The item at `i` failed with `e`.
pub open spec fn item_failed_at<T: ObjectType>(items: Seq<T>, scope: SelectionScope, i: int, e: Error) -> bool {
    &&& 0 <= i < items.len()
    &&& assembled(&items[i], scope.with_index(i as usize), Err(e))
}

/// Resolves the selection set of `ctx` on each of `items`, in their order.
pub fn resolve_list<T: ObjectType>(ctx: &ContextSelectionSet, items: &Vec<T>) -> (r: Result<Value, Error>)
    ensures
        list_assembled(items@, ctx@, r),
{
    let mut vals: Vec<Value> = Vec::new();
    let mut i: usize = 0;
    while i < items.len()
        invariant
            i <= items.len(),
            vals@.len() == i,
            forall|j: int| 0 <= j < i ==>
                assembled(&items@[j], ctx@.with_index(j as usize), Ok(#[trigger] vals@[j])),
        decreases items.len() - i,
    {
        let child = ctx.with_index(i);
        match do_resolve(&child, &items[i]) {
            Ok(v) => {
                vals.push(v);
            },
            Err(e) => {
                assert(item_failed_at(items@, ctx@, i as int, e));
                return Err(e);
            },
        }
        i += 1;
    }
    Ok(Value::List(vals))
}

/// `r` is what the outcomes `results`, one for each field of `selection` and
/// in its order, assemble to: the first error among them, else an object
/// whose entries are the fields' keys and values in request order.
pub open spec fn assembly(selection: Seq<FieldNode>, results: Seq<Result<Value, Error>>, r: Result<Value, Error>) -> bool {
    match r {
        Ok(v) => {
            &&& v matches Value::Object(entries)
            &&& entries@.len() == selection.len()
            &&& forall|i: int| 0 <= i < selection.len() ==> {
                &&& (#[trigger] entries@[i]).0@ == selection[i].key()
                &&& results[i] == Ok::<Value, Error>(entries@[i].1)
            }
        },
        Err(e) => exists|i: int| first_error(results, i, e),
    }
}

/// The outcome at `i` is the error `e`, and each outcome before it is a value.
pub open spec fn first_error(results: Seq<Result<Value, Error>>, i: int, e: Error) -> bool {
    &&& 0 <= i < results.len()
    &&& results[i] == Err::<Value, Error>(e)
    &&& forall|j: int| 0 <= j < i ==> (#[trigger] results[j]) is Ok
}

/// Assembles the outcomes of the fields of a selection set, which may have
/// been computed in any order, into one result. The order of the output is
/// that of the request.
pub fn assemble(selection: &Vec<FieldNode>, results: Vec<Result<Value, Error>>) -> (r: Result<Value, Error>)
    requires
        results@.len() == selection@.len(),
    ensures
        assembly(selection@, results@, r),
{
    let mut rest = results;
    let mut entries: Vec<(String, Value)> = Vec::new();
    let mut i: usize = 0;
    while i < selection.len()
        invariant
            i <= selection.len(),
            results@.len() == selection@.len(),
            entries@.len() == i,
            rest@ == results@.subrange(i as int, results@.len() as int),
            forall|j: int| 0 <= j < i ==> (#[trigger] results@[j]) is Ok,
            forall|j: int| 0 <= j < i ==> {
                &&& (#[trigger] entries@[j]).0@ == selection@[j].key()
                &&& results@[j] == Ok::<Value, Error>(entries@[j].1)
            },
        decreases selection.len() - i,
    {
        let next = rest.remove(0);
        assert(next == results@[i as int]);
        assert(rest@ =~= results@.subrange(i + 1, results@.len() as int));
        match next {
            Ok(v) => {
                entries.push((selection[i].response_key().clone(), v));
            },
            Err(e) => {
                assert(first_error(results@, i as int, e));
                return Err(e);
            },
        }
        i += 1;
    }
    Ok(Value::Object(entries))
}

} // verus!
