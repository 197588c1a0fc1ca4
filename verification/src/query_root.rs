//! The root of a query: a wrapper around the schema's own root type that
//! serves the two reserved reflection fields and hands every other field on
//! unchanged.

use vstd::prelude::*;
use crate::context::{arg_text, Context, ContextSelectionSet, FieldScope, SelectionScope};
use crate::error::{Error, PathSeg};
use crate::introspection::{
    is_named, lemma_schema_lists_every_type_once, lists_names, no_such_field, reflects,
    schema_meta_fields, schema_meta_names, schema_of, unknown_field, SchemaMeta, TypeMeta,
};
use crate::query::{text, ArgValue, FieldNode};
use crate::registry::{
    distinct, field_names, has_name, is_first, lemma_merge_taken_name, lemma_merged_fields,
    merged_fields, type_names, unique_fields, CacheControl, MetaField, MetaInputValue, MetaType,
    Registry,
};
use crate::resolve::{assembled, do_resolve, ObjectType, Type};
use crate::value::Value;
use graphql_parser::Pos;

verus! {

/// The query root over the schema's root value `inner`. With
/// `disable_introspection` the reserved fields behave as if they did not
/// exist.
pub struct QueryRoot<T> {
    pub inner: T,
    pub disable_introspection: bool,
}

/// `a` is the descriptor of the argument `name: String!`.
pub open spec fn is_name_argument(a: MetaInputValue) -> bool {
    &&& a.name@ == "name"@
    &&& a.description is None
    &&& a.ty@ == "String!"@
    &&& a.default_value is None
}

/// `f` is the descriptor of the reserved field `__schema`, of the result
/// type `schema_type`.
pub open spec fn is_schema_field(f: MetaField, schema_type: Seq<char>) -> bool {
    &&& f.name@ == "__schema"@
    &&& f.description matches Some(d) && d@ == "Access the current type schema of this server."@
    &&& f.args@.len() == 0
    &&& f.ty@ == schema_type
    &&& f.deprecation is None
    &&& f.cache_control == (CacheControl { public: true, max_age: 0 })
}

/// `f` is the descriptor of the reserved field `__type(name: String!)`.
pub open spec fn is_type_field(f: MetaField) -> bool {
    &&& f.name@ == "__type"@
    &&& f.description matches Some(d) && d@ == "Request the type information of a single type."@
    &&& f.args@.len() == 1
    &&& is_name_argument(f.args@[0])
    &&& f.ty@ == "__Type"@
    &&& f.deprecation is None
    &&& f.cache_control == (CacheControl { public: true, max_age: 0 })
}

/// The descriptor of the reserved field `__schema`.
pub fn schema_field(schema_type: String) -> (f: MetaField)
    ensures
        is_schema_field(f, schema_type@),
{
    MetaField {
        name: text("__schema"),
        description: Some(text("Access the current type schema of this server.")),
        args: Vec::new(),
        ty: schema_type,
        deprecation: None,
        cache_control: CacheControl::default(),
    }
}

/// The descriptor of the reserved field `__type`.
pub fn type_field() -> (f: MetaField)
    ensures
        is_type_field(f),
{
    let mut args: Vec<MetaInputValue> = Vec::new();
    args.push(
        MetaInputValue {
            name: text("name"),
            description: None,
            ty: text("String!"),
            default_value: None,
        },
    );
    MetaField {
        name: text("__type"),
        description: Some(text("Request the type information of a single type.")),
        args,
        ty: text("__Type"),
        deprecation: None,
        cache_control: CacheControl::default(),
    }
}

/// `after` is `before` with the two reserved fields merged, `__schema` first,
/// into `before`.
pub open spec fn with_reserved_fields(after: Seq<MetaField>, before: Seq<MetaField>, schema_type: Seq<char>) -> bool {
    exists|s: MetaField, t: MetaField|
        is_schema_field(s, schema_type) && is_type_field(t)
            && after == #[trigger] merged_fields(merged_fields(before, s), t)
}

/// Both reserved fields stand among `fields`.
pub open spec fn has_reserved_fields(fields: Seq<MetaField>, schema_type: Seq<char>) -> bool {
    &&& exists|j: int| 0 <= j < fields.len() && is_schema_field(#[trigger] fields[j], schema_type)
    &&& exists|k: int| 0 <= k < fields.len() && is_type_field(#[trigger] fields[k])
}

/// After the two reserved fields were merged into a type's fields both stand
/// among them, and every field of another name is where and what it was.
pub proof fn lemma_reserved_fields_present(after: Seq<MetaField>, before: Seq<MetaField>, schema_type: Seq<char>)
    requires
        with_reserved_fields(after, before, schema_type),
    ensures
        has_reserved_fields(after, schema_type),
        forall|i: int|
            0 <= i < before.len() && before[i].name@ != "__schema"@ && before[i].name@ != "__type"@
                ==> #[trigger] after[i] == before[i],
{
    let (s, t) = choose|s: MetaField, t: MetaField|
        is_schema_field(s, schema_type) && is_type_field(t)
            && after == #[trigger] merged_fields(merged_fields(before, s), t);
    let mid = merged_fields(before, s);
    reveal_strlit("__schema");
    reveal_strlit("__type");
    assert(s.name@.len() != t.name@.len());
    lemma_merged_fields(before, s);
    lemma_merged_fields(mid, t);
    let j = choose|j: int| 0 <= j < mid.len() && #[trigger] mid[j] == s;
    assert(after[j] == s);
    let k = choose|k: int| 0 <= k < after.len() && #[trigger] after[k] == t;
    assert(is_type_field(after[k]));
    assert forall|i: int|
        0 <= i < before.len() && before[i].name@ != "__schema"@ && before[i].name@ != "__type"@
            implies #[trigger] after[i] == before[i] by {
        assert(mid[i] == before[i]);
    }
}

/// To merge the reserved fields a second time adds nothing: the fields keep
/// their names, their order and their number, and both reserved fields still
/// stand among them.
pub proof fn lemma_second_attachment_keeps_names(
    first: Seq<MetaField>,
    second: Seq<MetaField>,
    third: Seq<MetaField>,
    schema_type: Seq<char>,
)
    requires
        with_reserved_fields(second, first, schema_type),
        with_reserved_fields(third, second, schema_type),
    ensures
        field_names(third) == field_names(second),
        third.len() == second.len(),
        has_reserved_fields(third, schema_type),
{
    lemma_reserved_fields_present(second, first, schema_type);
    lemma_reserved_fields_present(third, second, schema_type);
    let (s, t) = choose|s: MetaField, t: MetaField|
        is_schema_field(s, schema_type) && is_type_field(t)
            && third == #[trigger] merged_fields(merged_fields(second, s), t);
    let j = choose|j: int| 0 <= j < second.len() && is_schema_field(#[trigger] second[j], schema_type);
    let k = choose|k: int| 0 <= k < second.len() && is_type_field(#[trigger] second[k]);
    assert(field_names(second)[j] == s.name@);
    lemma_merge_taken_name(second, s);
    let mid = merged_fields(second, s);
    assert(field_names(mid)[k] == t.name@);
    lemma_merge_taken_name(mid, t);
}

/// `after` is `before` with the two reserved fields merged into the object
/// type of the name `root`; every other type is as it was, and where `root`
/// names no object type nothing has changed.
pub open spec fn attached(
    after: Seq<MetaType>,
    before: Seq<MetaType>,
    root: Seq<char>,
    schema_type: Seq<char>,
) -> bool {
    &&& type_names(after) == type_names(before)
    &&& forall|i: int|
        0 <= i < before.len() && !(is_first(type_names(before), root, i) && before[i] is Object)
            ==> #[trigger] after[i] == before[i]
    &&& forall|i: int| is_first(type_names(before), root, i) && #[trigger] before[i] is Object ==> {
        &&& after[i] is Object
        &&& after[i].spec_description() == before[i].spec_description()
        &&& after[i].spec_interfaces() == before[i].spec_interfaces()
        &&& with_reserved_fields(after[i].spec_fields(), before[i].spec_fields(), schema_type)
    }
}

/// `after` is an outcome of registering the root over `T` in `before`: the
/// reflection types were registered, which gave `first`; then `T`'s own
/// registration gave `second`, in which every name of `first` and `T`'s name
/// stand; then the two reserved fields were merged into `T`'s type.
pub open spec fn root_registered<T: Type>(
    before: Seq<MetaType>,
    first: Seq<MetaType>,
    second: Seq<MetaType>,
    after: Seq<MetaType>,
) -> bool {
    &&& reflects(before, first, schema_meta_names(), "__Schema"@, schema_meta_fields())
    &&& T::registers(first, second)
    &&& forall|n: Seq<char>| has_name(type_names(first), n) ==> has_name(type_names(second), n)
    &&& has_name(type_names(second), T::spec_name())
    &&& attached(after, second, T::spec_name(), "__Schema"@)
}

/// Merges the two reserved fields into the object type of the name `root`. A
/// field that the type already has under a reserved name is overwritten.
pub fn attach_introspection(registry: &mut Registry, root: &String, schema_type: String)
    ensures
        attached(final(registry)@, old(registry)@, root@, schema_type@),
        unique_fields(old(registry)@) ==> unique_fields(final(registry)@),
{
    let s = schema_field(schema_type);
    let t = type_field();
    let ghost gs = s;
    let ghost gt = t;
    registry.merge_field(root, s);
    let ghost mid = *registry;
    registry.merge_field(root, t);
    proof {
        assert forall|i: int| is_first(old(registry).names(), root@, i) && #[trigger] old(registry)@[i] is Object implies {
            &&& registry@[i] is Object
            &&& registry@[i].spec_description() == old(registry)@[i].spec_description()
            &&& registry@[i].spec_interfaces() == old(registry)@[i].spec_interfaces()
            &&& with_reserved_fields(registry@[i].spec_fields(), old(registry)@[i].spec_fields(), schema_type@)
        } by {
            assert(mid@[i] is Object);
            assert(is_first(mid.names(), root@, i));
            assert(registry@[i].spec_fields() == merged_fields(
                merged_fields(old(registry)@[i].spec_fields(), gs),
                gt,
            ));
        }
        assert forall|i: int|
            0 <= i < old(registry)@.len() && !(is_first(old(registry).names(), root@, i) && old(
                registry,
            )@[i] is Object) implies #[trigger] registry@[i] == old(registry)@[i] by {
            assert(mid@[i] == old(registry)@[i]);
            assert(registry@[i] == mid@[i]);
        }
    }
}

impl<T: Type> Type for QueryRoot<T> {
    open spec fn spec_name() -> Seq<char> {
        T::spec_name()
    }

    open spec fn registers(before: Seq<MetaType>, after: Seq<MetaType>) -> bool {
        exists|first: Seq<MetaType>, second: Seq<MetaType>| #[trigger]
            root_registered::<T>(before, first, second, after)
    }

    fn name() -> (n: String) {
        T::name()
    }

    /// Registers the reflection types and the root type, then merges the two
    /// reserved fields into the root type. Afterwards every reflection type
    /// is registered, the result types of the two reserved fields among them,
    /// and a root that is an object type holds both reserved fields.
    fn create_type_info(registry: &mut Registry) -> (key: String)
        ensures
            forall|n: Seq<char>| schema_meta_names().contains(n) ==> final(registry).contains(n),
            final(registry).contains("__Schema"@),
            final(registry).contains("__Type"@),
            forall|i: int|
                is_first(final(registry).names(), T::spec_name(), i) && #[trigger] final(registry)@[i] is Object
                    ==> has_reserved_fields(final(registry)@[i].spec_fields(), "__Schema"@),
    {
        let ghost before = registry@;
        let schema_type = SchemaMeta::create_type_info(registry);
        let ghost first = registry@;
        let ghost r1 = *registry;
        let root = T::create_type_info(registry);
        let ghost second = registry@;
        let ghost r2 = *registry;
        attach_introspection(registry, &root, schema_type);
        proof {
            assert(SchemaMeta::registers(before, first));
            assert(reflects(before, first, schema_meta_names(), "__Schema"@, schema_meta_fields()));
            assert(T::registers(first, second));
            assert forall|n: Seq<char>| has_name(type_names(first), n) implies has_name(type_names(second), n) by {
                assert(r1.contains(n));
                assert(r2.contains(n));
            }
            assert(r2.contains(T::spec_name()));
            assert(attached(registry@, second, T::spec_name(), "__Schema"@));
            assert(root_registered::<T>(before, first, second, registry@));
            assert forall|n: Seq<char>| old(registry).contains(n) implies registry.contains(n) by {
                assert(r1.contains(n));
                assert(r2.contains(n));
            }
            assert forall|n: Seq<char>| schema_meta_names().contains(n) implies registry.contains(n) by {
                assert(has_name(type_names(first), n));
                assert(has_name(type_names(second), n));
            }
            assert(schema_meta_names().contains("__Schema"@));
            assert(schema_meta_names().contains("__Type"@));
            assert forall|i: int|
                is_first(registry.names(), T::spec_name(), i) && #[trigger] registry@[i] is Object implies has_reserved_fields(
                registry@[i].spec_fields(),
                "__Schema"@,
            ) by {
                assert(is_first(type_names(second), T::spec_name(), i));
                if !(second[i] is Object) {
                    assert(registry@[i] == second[i]);
                }
                lemma_reserved_fields_present(registry@[i].spec_fields(), second[i].spec_fields(), "__Schema"@);
            }
        }
        root
    }
}

/// `r` is an outcome of the reserved field `__type`: the error of an argument
/// `name` that is missing or no string; null where no type of that name is
/// registered; else an outcome of resolving the field's selection set on that
/// type.
pub open spec fn type_lookup(scope: FieldScope, field: FieldNode, r: Result<Value, Error>) -> bool {
    match arg_text(scope.arguments, scope.variables, "name"@) {
        None => r matches Err(e) && e.is_expected_type(field.position, scope.path, "name"@, "String"@),
        Some(n) => if scope.registry.contains(n) {
            exists|i: int| #[trigger]
                is_first(scope.registry.names(), n, i) && assembled(
                    &TypeMeta { registry: &scope.registry, ty: &scope.registry@[i] },
                    scope.with_selection_set(field.selection_set@),
                    r,
                )
        } else {
            r == Ok::<Value, Error>(Value::Null)
        },
    }
}

/// The field has one of the two reserved names.
pub open spec fn is_reserved(field: FieldNode) -> bool {
    field.name@ == "__schema"@ || field.name@ == "__type"@
}

/// `r` is an outcome of the reserved field `field` at a root of the name
/// `root`. With introspection disabled it is the error of a field that the
/// root does not have. Else `__schema` resolves the field's selection set on
/// the schema of the registry and the root, and `__type` on the type that its argument names.
pub open spec fn reserved_yields(
    disabled: bool,
    root: Seq<char>,
    scope: FieldScope,
    field: FieldNode,
    r: Result<Value, Error>,
) -> bool {
    if disabled {
        no_such_field(scope, field, root, r)
    } else if field.name@ == "__schema"@ {
        assembled(&schema_of(scope.registry, root), scope.with_selection_set(field.selection_set@), r)
    } else {
        type_lookup(scope, field, r)
    }
}

/// Resolves `field` where it has a reserved name, at a root of the name
/// `root`; gives nothing for any other field, which is the root type's own.
pub fn resolve_reserved(disabled: bool, root: String, ctx: &Context, field: &FieldNode) -> (o: Option<
    Result<Value, Error>,
>)
    ensures
        match o {
            Some(r) => is_reserved(*field) && reserved_yields(disabled, root@, ctx@, *field, r),
            None => !is_reserved(*field),
        },
{
    if is_named(field, "__schema") {
        if disabled {
            return Some(unknown_field(ctx, field, root));
        }
        let below = ctx.with_selection_set(&field.selection_set);
        Some(do_resolve(&below, &SchemaMeta::new(ctx.registry, &root)))
    } else if is_named(field, "__type") {
        if disabled {
            return Some(unknown_field(ctx, field, root));
        }
        let wanted = match ctx.param_value("name", field.position) {
            Ok(s) => s,
            Err(e) => {
                return Some(Err(e));
            },
        };
        let below = ctx.with_selection_set(&field.selection_set);
        match TypeMeta::new(ctx.registry, &wanted) {
            Some(meta) => Some(do_resolve(&below, &meta)),
            None => Some(Ok(Value::Null)),
        }
    } else {
        None
    }
}

impl<T: ObjectType> ObjectType for QueryRoot<T> {
    open spec fn yields(&self, scope: FieldScope, field: FieldNode, r: Result<Value, Error>) -> bool {
        if is_reserved(field) {
            reserved_yields(self.disable_introspection, T::spec_name(), scope, field, r)
        } else {
            self.inner.yields(scope, field, r)
        }
    }

    /// Serves the two reserved fields from the registry and hands every other
    /// field to the wrapped value.
    fn resolve_field(&self, ctx: &Context, field: &FieldNode) -> (r: Result<Value, Error>) {
        match resolve_reserved(self.disable_introspection, T::name(), ctx, field) {
            Some(r) => r,
            None => self.inner.resolve_field(ctx, field),
        }
    }
}

impl<T: ObjectType> QueryRoot<T> {
    /// Resolves the selection set of `ctx` on the root: the output assembler,
    /// unchanged.
    pub fn resolve(value: &QueryRoot<T>, ctx: &ContextSelectionSet, _pos: Pos) -> (r: Result<Value, Error>)
        ensures
            assembled(value, ctx@, r),
    {
        do_resolve(ctx, value)
    }
}

/// With introspection enabled, a root asked for the names of the schema's
/// types answers with every registered name exactly once, whatever the root
/// type is and however a type came to be registered.
pub proof fn lemma_root_lists_every_type_once<T: ObjectType>(
    root: QueryRoot<T>,
    scope: FieldScope,
    field: FieldNode,
    v: Value,
)
    requires
        !root.disable_introspection,
        scope.registry.wf(),
        field.name@ == "__schema"@,
        field.selection_set@.len() == 1,
        field.selection_set@[0].name@ == "types"@,
        field.selection_set@[0].selection_set@.len() == 1,
        field.selection_set@[0].selection_set@[0].name@ == "name"@,
        root.yields(scope, field, Ok(v)),
    ensures
        distinct(scope.registry.names()),
        v matches Value::Object(entries) && entries@.len() == 1 && entries@[0].0@
            == field.selection_set@[0].key() && lists_names(
            entries@[0].1,
            scope.registry.names(),
            field.selection_set@[0].selection_set@[0].key(),
        ),
{
    let schema = schema_of(scope.registry, T::spec_name());
    let below = scope.with_selection_set(field.selection_set@);
    assert(assembled(&schema, below, Ok(v)));
    let entries = v->Object_0;
    let types = field.selection_set@[0];
    assert(below.selection[0] == types);
    let e = entries@[0];
    assert(schema.yields(below.with_field(types), types, Ok(e.1)));
    lemma_schema_lists_every_type_once(schema, below.with_field(types), types, e.1);
}

/// With introspection disabled a reserved field at the top of a request is
/// a field that does not exist: its only outcome is a field-not-found error
/// that names the root type and whose path is the field's key alone.
pub proof fn lemma_disabled_introspection_is_field_not_found<T: ObjectType>(
    root: QueryRoot<T>,
    registry: Registry,
    variables: Seq<(String, ArgValue)>,
    selection: Seq<FieldNode>,
    i: int,
    r: Result<Value, Error>,
)
    requires
        root.disable_introspection,
        0 <= i < selection.len(),
        selection[i].name@ == "__schema"@ || selection[i].name@ == "__type"@,
        root.yields(SelectionScope::root(registry, variables, selection).with_field(selection[i]), selection[i], r),
    ensures
        r matches Err(e) && e.is_field_not_found(
            selection[i].position,
            seq![PathSeg::Name(selection[i].key())],
            selection[i].name@,
            T::spec_name(),
        ),
{
    let scope = SelectionScope::root(registry, variables, selection).with_field(selection[i]);
    assert(scope.path =~= seq![PathSeg::Name(selection[i].key())]);
}

} // verus!
