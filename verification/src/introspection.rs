//! Reflection over the registry: the schema, its types and their fields as
//! resolvable values. They follow the same protocol as the types of a schema,
//! so a query about the schema is assembled like any other.

use vstd::prelude::*;
use crate::context::{descend, lemma_path_follows_nesting, Context, FieldScope, SelectionScope};
use crate::error::{path_view, Error, PathSeg};
use crate::query::{text, FieldNode};
use crate::registry::{
    distinct, field_names, grows, has_name, is_first, lemma_grows_chain, lemma_grows_names,
    lemma_grows_nothing_new, type_names, unique_fields, CacheControl, MetaField, MetaInputValue, MetaType, Registry,
};
use crate::resolve::{resolve_list, list_assembled, ObjectType, Type};
use crate::value::{opt_text_value, Value};

verus! {

/// The field `field` has the name `s`.
pub fn is_named(field: &FieldNode, s: &str) -> (b: bool)
    ensures
        b == (field.name@ == s@),
{
    field.name == text(s)
}

/// `r` is the error of a field that the type `object` does not have.
pub open spec fn no_such_field(scope: FieldScope, field: FieldNode, object: Seq<char>, r: Result<Value, Error>) -> bool {
    r matches Err(e) && e.is_field_not_found(field.position, scope.path, field.name@, object)
}

/// The error of a field that the type `object` does not have: at the field's
/// position and path.
pub fn unknown_field(ctx: &Context, field: &FieldNode, object: String) -> (r: Result<Value, Error>)
    ensures
        no_such_field(ctx@, *field, object@, r),
{
    Err(Error::field_not_found(field.position, &ctx.path, &field.name, object))
}

/// `f` is the descriptor of a field of the name `name` and the result type
/// `ty`, without arguments, description or deprecation.
pub open spec fn is_plain_field(f: MetaField, name: Seq<char>, ty: Seq<char>) -> bool {
    &&& f.name@ == name
    &&& f.ty@ == ty
    &&& f.description is None
    &&& f.args@.len() == 0
    &&& f.deprecation is None
    &&& f.cache_control == (CacheControl { public: true, max_age: 0 })
}

/// `t` is the descriptor of an object type of the name `name`, without a
/// description or interfaces, whose fields are exactly `fields`, each a name and a result
/// type, in their order.
pub open spec fn is_plain_object(t: MetaType, name: Seq<char>, fields: Seq<(Seq<char>, Seq<char>)>) -> bool {
    &&& t is Object
    &&& t.spec_name()@ == name
    &&& t.spec_description() is None
    &&& t.spec_interfaces().len() == 0
    &&& t.spec_fields().len() == fields.len()
    &&& forall|k: int|
        0 <= k < fields.len() ==> is_plain_field(#[trigger] t.spec_fields()[k], fields[k].0, fields[k].1)
}

/// Where `name` was free in `before`, the type of that name in `after` is the
/// object type with the fields `fields`.
pub open spec fn defines(
    before: Seq<MetaType>,
    after: Seq<MetaType>,
    name: Seq<char>,
    fields: Seq<(Seq<char>, Seq<char>)>,
) -> bool {
    !has_name(type_names(before), name) ==> forall|i: int| #[trigger]
        is_first(type_names(after), name, i) ==> is_plain_object(after[i], name, fields)
}

/// Where every name of `names` was registered in `before`, nothing has
/// changed.
pub open spec fn settled(before: Seq<MetaType>, after: Seq<MetaType>, names: Set<Seq<char>>) -> bool {
    (forall|n: Seq<char>| names.contains(n) ==> has_name(type_names(before), n)) ==> after == before
}

/// `after` is `before` after a reflection type was registered: the registry
/// has grown by the free names among `names`, all of which are registered
/// now; the type `name` is the object type with the fields `fields` where its
/// name was free; and nothing has changed where no name was free.
pub open spec fn reflects(
    before: Seq<MetaType>,
    after: Seq<MetaType>,
    names: Set<Seq<char>>,
    name: Seq<char>,
    fields: Seq<(Seq<char>, Seq<char>)>,
) -> bool {
    &&& grows(before, after, names)
    &&& defines(before, after, name, fields)
    &&& settled(before, after, names)
}

/// The names that the registration of an input value's reflection type
/// leaves registered.
pub open spec fn input_value_names() -> Set<Seq<char>> {
    set!["String"@, "__InputValue"@]
}

/// The fields of an input value's reflection type.
pub open spec fn input_value_fields() -> Seq<(Seq<char>, Seq<char>)> {
    seq![
        ("name"@, "String!"@),
        ("description"@, "String"@),
        ("type"@, "String!"@),
        ("defaultValue"@, "String"@),
    ]
}

/// The names that the registration of an enum value's reflection type leaves
/// registered.
pub open spec fn enum_value_names() -> Set<Seq<char>> {
    set!["String"@, "__EnumValue"@]
}

/// The fields of an enum value's reflection type.
pub open spec fn enum_value_fields() -> Seq<(Seq<char>, Seq<char>)> {
    seq![("name"@, "String!"@)]
}

/// The names that the registration of a field's reflection type leaves
/// registered.
pub open spec fn field_meta_names() -> Set<Seq<char>> {
    set!["String"@, "Boolean"@, "__InputValue"@, "__Field"@]
}

/// The fields of a field's reflection type.
pub open spec fn field_meta_fields() -> Seq<(Seq<char>, Seq<char>)> {
    seq![
        ("name"@, "String!"@),
        ("description"@, "String"@),
        ("args"@, "[__InputValue!]!"@),
        ("type"@, "String!"@),
        ("isDeprecated"@, "Boolean!"@),
        ("deprecationReason"@, "String"@),
    ]
}

/// The names that the registration of a type's reflection type leaves
/// registered.
pub open spec fn type_meta_names() -> Set<Seq<char>> {
    set!["String"@, "Boolean"@, "__InputValue"@, "__Field"@, "__EnumValue"@, "__Type"@]
}

/// The fields of a type's reflection type.
pub open spec fn type_meta_fields() -> Seq<(Seq<char>, Seq<char>)> {
    seq![
        ("name"@, "String"@),
        ("kind"@, "String!"@),
        ("description"@, "String"@),
        ("fields"@, "[__Field!]"@),
        ("inputFields"@, "[__InputValue!]"@),
        ("enumValues"@, "[__EnumValue!]"@),
        ("interfaces"@, "[__Type!]"@),
        ("possibleTypes"@, "[__Type!]"@),
    ]
}

/// The names that the registration of the schema's reflection type leaves
/// registered.
pub open spec fn schema_meta_names() -> Set<Seq<char>> {
    set!["String"@, "Boolean"@, "__InputValue"@, "__Field"@, "__EnumValue"@, "__Type"@, "__Schema"@]
}

/// The fields of the schema's reflection type.
pub open spec fn schema_meta_fields() -> Seq<(Seq<char>, Seq<char>)> {
    seq![("types"@, "[__Type!]!"@), ("queryType"@, "__Type"@)]
}

/// No two of `fields` share a name.
pub open spec fn keys_distinct(fields: Seq<(Seq<char>, Seq<char>)>) -> bool {
    forall|i: int, j: int| 0 <= i < j < fields.len() ==> fields[i].0 != fields[j].0
}

/// No reflection type has two fields of one name.
pub proof fn lemma_reflection_fields_distinct()
    ensures
        keys_distinct(input_value_fields()),
        keys_distinct(enum_value_fields()),
        keys_distinct(field_meta_fields()),
        keys_distinct(type_meta_fields()),
        keys_distinct(schema_meta_fields()),
{
    reveal_strlit("name");
    reveal_strlit("description");
    reveal_strlit("type");
    reveal_strlit("defaultValue");
    reveal_strlit("args");
    reveal_strlit("isDeprecated");
    reveal_strlit("deprecationReason");
    reveal_strlit("kind");
    reveal_strlit("fields");
    reveal_strlit("inputFields");
    reveal_strlit("enumValues");
    reveal_strlit("interfaces");
    reveal_strlit("possibleTypes");
    reveal_strlit("types");
    reveal_strlit("queryType");
    assert("name"@.len() == 4 && "name"@[0] == 'n');
    assert("type"@.len() == 4 && "type"@[0] == 't');
    assert("args"@.len() == 4 && "args"@[0] == 'a');
    assert("kind"@.len() == 4 && "kind"@[0] == 'k');
    assert("description"@.len() == 11 && "description"@[0] == 'd');
    assert("inputFields"@.len() == 11 && "inputFields"@[0] == 'i');
    assert("enumValues"@.len() == 10 && "enumValues"@[0] == 'e');
    assert("interfaces"@.len() == 10 && "interfaces"@[0] == 'i');
    assert("defaultValue"@.len() == 12 && "defaultValue"@[0] == 'd');
    assert("isDeprecated"@.len() == 12 && "isDeprecated"@[0] == 'i');
    assert("deprecationReason"@.len() == 17);
    assert("fields"@.len() == 6);
    assert("possibleTypes"@.len() == 13);
    assert("types"@.len() == 5);
    assert("queryType"@.len() == 9);
}

/// No reflection type has the name of a type that is registered before it.
pub proof fn lemma_reflection_names_differ()
    ensures
        !set!["String"@].contains("__InputValue"@),
        !set!["String"@].contains("__EnumValue"@),
        !set!["String"@, "Boolean"@].union(input_value_names()).contains("__Field"@),
        !field_meta_names().union(enum_value_names()).contains("__Type"@),
        !type_meta_names().contains("__Schema"@),
{
    reveal_strlit("String");
    reveal_strlit("Boolean");
    reveal_strlit("__InputValue");
    reveal_strlit("__EnumValue");
    reveal_strlit("__Field");
    reveal_strlit("__Type");
    reveal_strlit("__Schema");
    assert("String"@.len() == 6 && "Boolean"@.len() == 7 && "__InputValue"@.len() == 12);
    assert("__EnumValue"@.len() == 11 && "__Field"@.len() == 7 && "__Type"@.len() == 6);
    assert("__Schema"@.len() == 8);
    assert("String"@[0] == 'S' && "__Type"@[0] == '_');
    assert("Boolean"@[0] == 'B' && "__Field"@[0] == '_');
}

/// An object type registered after other types, under a name that is none of
/// theirs, makes the whole a registration of a reflection type.
pub proof fn lemma_added_last(
    before: Seq<MetaType>,
    mid: Seq<MetaType>,
    after: Seq<MetaType>,
    s: Set<Seq<char>>,
    name: Seq<char>,
    fields: Seq<(Seq<char>, Seq<char>)>,
)
    requires
        grows(before, mid, s),
        !s.contains(name),
        grows(mid, after, set![name]),
        !has_name(type_names(mid), name) ==> after.len() == mid.len() + 1 && is_plain_object(
            after.last(),
            name,
            fields,
        ),
    ensures
        reflects(before, after, s.insert(name), name, fields),
{
    lemma_grows_chain(before, mid, after, s, set![name]);
    assert(s.union(set![name]) =~= s.insert(name));
    if !has_name(type_names(before), name) {
        if has_name(type_names(mid), name) {
            lemma_grows_names(before, mid, s, name);
        }
        assert forall|i: int| #[trigger] is_first(type_names(after), name, i) implies is_plain_object(
            after[i],
            name,
            fields,
        ) by {
            if i < mid.len() {
                assert(after[i] == mid[i]);
                assert(type_names(mid)[i] == name);
            }
        }
    }
    if forall|n: Seq<char>| s.insert(name).contains(n) ==> has_name(type_names(before), n) {
        lemma_grows_nothing_new(before, after, s.insert(name));
    }
}

/// A field that its type does not have fails with a path as long as the
/// field lies deep: for a field reached from the request root through a
/// chain of fields, each the parent of the next, the error's path is the
/// keys of the chain in their order, its position is the field's, and it
/// names the type that was asked, at every depth.
pub proof fn lemma_missing_field_path(
    top: SelectionScope,
    chain: Seq<FieldNode>,
    scope: FieldScope,
    object: Seq<char>,
    r: Result<Value, Error>,
)
    requires
        top.path.len() == 0,
        chain.len() >= 1,
        scope.path == descend(top, chain),
        no_such_field(scope, chain.last(), object, r),
    ensures
        r matches Err(e) && path_view(e.path@).len() == chain.len() && e.pos == chain.last().position
            && e.is_field_not_found(chain.last().position, scope.path, chain.last().name@, object)
            && forall|i: int|
            0 <= i < chain.len() ==> path_view(e.path@)[i] == PathSeg::Name(#[trigger] chain[i].key()),
{
    lemma_path_follows_nesting(top, chain);
}

/// The descriptor of a field without arguments, of the result type `ty`.
pub fn plain_field(name: &str, ty: &str) -> (f: MetaField)
    ensures
        is_plain_field(f, name@, ty@),
{
    MetaField {
        name: text(name),
        description: None,
        args: Vec::new(),
        ty: text(ty),
        deprecation: None,
        cache_control: CacheControl::default(),
    }
}

/// Registers the scalar type of the name `name`, without a description:
/// nothing changes where the name is taken, else the scalar is the last type
/// of the registry.
pub fn register_scalar(registry: &mut Registry, name: &str)
    ensures
        grows(old(registry)@, final(registry)@, set![name@]),
        old(registry).wf() ==> final(registry).wf(),
        unique_fields(old(registry)@) ==> unique_fields(final(registry)@),
        forall|n: Seq<char>| old(registry).contains(n) ==> final(registry).contains(n),
        final(registry).contains(name@),
        old(registry).contains(name@) ==> final(registry)@ == old(registry)@,
        !old(registry).contains(name@) ==> {
            &&& final(registry)@.len() == old(registry)@.len() + 1
            &&& final(registry)@.drop_last() == old(registry)@
            &&& final(registry)@.last() is Scalar
            &&& final(registry)@.last().spec_name()@ == name@
            &&& final(registry)@.last().spec_description() is None
        },
{
    registry.register(MetaType::Scalar { name: text(name), description: None });
}

/// Registers the object type of the name `name` with the fields `fields`,
/// without a description: nothing changes where the name is taken, else the
/// object type is the last type of the registry.
pub fn register_object(registry: &mut Registry, name: &str, fields: Vec<MetaField>) -> (key: String)
    ensures
        key@ == name@,
        grows(old(registry)@, final(registry)@, set![name@]),
        old(registry).wf() ==> final(registry).wf(),
        unique_fields(old(registry)@) && distinct(field_names(fields@)) ==> unique_fields(final(registry)@),
        forall|n: Seq<char>| old(registry).contains(n) ==> final(registry).contains(n),
        final(registry).contains(name@),
        old(registry).contains(name@) ==> final(registry)@ == old(registry)@,
        !old(registry).contains(name@) ==> {
            &&& final(registry)@.len() == old(registry)@.len() + 1
            &&& final(registry)@.last() is Object
            &&& final(registry)@.last().spec_name()@ == name@
            &&& final(registry)@.last().spec_description() is None
            &&& final(registry)@.last().spec_interfaces().len() == 0
            &&& final(registry)@.last().spec_fields() == fields@
        },
{
    registry.register(MetaType::Object { name: text(name), description: None, fields, interfaces: Vec::new() })
}

/// An argument or an input field, as a resolvable value.
pub struct InputValueMeta<'a> {
    pub value: &'a MetaInputValue,
}

/// A value of an enum type, as a resolvable value.
pub struct EnumValueMeta<'a> {
    pub name: &'a String,
}

/// A type that another type's descriptor names, as a resolvable value: it
/// answers for its name and, from the registry, for its kind.
pub struct TypeRefMeta<'a> {
    pub registry: &'a Registry,
    pub name: &'a String,
}

/// A field of a type, as a resolvable value.
pub struct FieldMeta<'a> {
    pub field: &'a MetaField,
}

/// A type of the registry, as a resolvable value.
pub struct TypeMeta<'a> {
    pub registry: &'a Registry,
    pub ty: &'a MetaType,
}

/// The registry, as a resolvable value, with the descriptor of the type
/// that queries start from, where that type is registered.
pub struct SchemaMeta<'a> {
    pub registry: &'a Registry,
    pub query_type: Option<&'a MetaType>,
}

/// The schema of `registry` whose queries start from the type of the name
/// `root`.
pub open spec fn schema_of<'a>(registry: Registry, root: Seq<char>) -> SchemaMeta<'a> {
    SchemaMeta {
        registry: &registry,
        query_type: match registry.spec_get(root) {
            Some(t) => Some(&t),
            None => None,
        },
    }
}

impl<'a> SchemaMeta<'a> {
    /// The schema of `registry` whose queries start from the type of the
    /// name `root`.
    pub fn new(registry: &'a Registry, root: &String) -> (s: SchemaMeta<'a>)
        ensures
            s == schema_of::<'a>(*registry, root@),
    {
        SchemaMeta { registry, query_type: registry.get(root) }
    }
}

/// The fields `fields` as resolvable values, in their order.
pub open spec fn field_metas<'a>(fields: Seq<MetaField>) -> Seq<FieldMeta<'a>> {
    Seq::new(fields.len(), |i: int| FieldMeta { field: &fields[i] })
}

/// The input values `values` as resolvable values, in their order.
pub open spec fn input_metas<'a>(values: Seq<MetaInputValue>) -> Seq<InputValueMeta<'a>> {
    Seq::new(values.len(), |i: int| InputValueMeta { value: &values[i] })
}

/// The enum values `names` as resolvable values, in their order.
pub open spec fn enum_metas<'a>(names: Seq<String>) -> Seq<EnumValueMeta<'a>> {
    Seq::new(names.len(), |i: int| EnumValueMeta { name: &names[i] })
}

/// The types that `names` name as resolvable values, in their order.
pub open spec fn type_refs<'a>(registry: Registry, names: Seq<String>) -> Seq<TypeRefMeta<'a>> {
    Seq::new(names.len(), |i: int| TypeRefMeta { registry: &registry, name: &names[i] })
}

/// The types that `names` name as resolvable values.
pub fn type_refs_of<'a>(registry: &'a Registry, names: &'a Vec<String>) -> (metas: Vec<TypeRefMeta<'a>>)
    ensures
        metas@ == type_refs(*registry, names@),
{
    let mut metas: Vec<TypeRefMeta<'a>> = Vec::new();
    let mut i: usize = 0;
    while i < names.len()
        invariant
            i <= names.len(),
            metas@.len() == i,
            forall|j: int| 0 <= j < i ==> metas@[j] == (TypeRefMeta { registry, name: &names@[j] }),
        decreases names.len() - i,
    {
        metas.push(TypeRefMeta { registry, name: &names[i] });
        i += 1;
    }
    assert(metas@ =~= type_refs(*registry, names@));
    metas
}

/// The input values `values` as resolvable values.
pub fn input_metas_of<'a>(values: &'a Vec<MetaInputValue>) -> (metas: Vec<InputValueMeta<'a>>)
    ensures
        metas@ == input_metas(values@),
{
    let mut metas: Vec<InputValueMeta<'a>> = Vec::new();
    let mut i: usize = 0;
    while i < values.len()
        invariant
            i <= values.len(),
            metas@.len() == i,
            forall|j: int| 0 <= j < i ==> metas@[j] == (InputValueMeta { value: &values@[j] }),
        decreases values.len() - i,
    {
        metas.push(InputValueMeta { value: &values[i] });
        i += 1;
    }
    assert(metas@ =~= input_metas(values@));
    metas
}

/// The types of `registry` as resolvable values, in the order of
/// registration.
pub open spec fn type_metas<'a>(registry: Registry) -> Seq<TypeMeta<'a>> {
    Seq::new(registry@.len(), |i: int| TypeMeta { registry: &registry, ty: &registry@[i] })
}

impl<'a> TypeMeta<'a> {
    /// The type of the name `name` as a resolvable value; none where no such
    /// type is registered.
    pub fn new(registry: &'a Registry, name: &String) -> (t: Option<TypeMeta<'a>>)
        ensures
            match t {
                Some(m) => exists|i: int| #[trigger]
                    is_first(registry.names(), name@, i) && m == (TypeMeta { registry, ty: &registry@[i] }),
                None => !registry.contains(name@),
            },
    {
        match registry.find(name) {
            Some(i) => {
                assert(is_first(registry.names(), name@, i as int));
                Some(TypeMeta { registry, ty: &registry.types[i] })
            },
            None => None,
        }
    }

    /// The type `ty` of `registry` as a resolvable value.
    pub fn new_simple(registry: &'a Registry, ty: &'a MetaType) -> (t: TypeMeta<'a>)
        ensures
            t == (TypeMeta { registry, ty }),
    {
        TypeMeta { registry, ty }
    }
}

impl<'a> Type for InputValueMeta<'a> {
    open spec fn spec_name() -> Seq<char> {
        "__InputValue"@
    }

    open spec fn registers(before: Seq<MetaType>, after: Seq<MetaType>) -> bool {
        reflects(before, after, input_value_names(), "__InputValue"@, input_value_fields())
    }

    fn name() -> (n: String) {
        text("__InputValue")
    }

    fn create_type_info(registry: &mut Registry) -> (key: String)
        ensures
            unique_fields(old(registry)@) ==> unique_fields(final(registry)@),
    {
        let ghost before = registry@;
        register_scalar(registry, "String");
        let ghost mid = registry@;
        let mut fields: Vec<MetaField> = Vec::new();
        fields.push(plain_field("name", "String!"));
        fields.push(plain_field("description", "String"));
        fields.push(plain_field("type", "String!"));
        fields.push(plain_field("defaultValue", "String"));
        proof {
            lemma_reflection_fields_distinct();
            assert forall|i: int, j: int| 0 <= i < j < fields@.len() implies field_names(fields@)[i]
                != field_names(fields@)[j] by {
                assert(is_plain_field(fields@[i], input_value_fields()[i].0, input_value_fields()[i].1));
                assert(is_plain_field(fields@[j], input_value_fields()[j].0, input_value_fields()[j].1));
            }
        }
        let key = register_object(registry, "__InputValue", fields);
        proof {
            lemma_reflection_names_differ();
            lemma_added_last(before, mid, registry@, set!["String"@], "__InputValue"@, input_value_fields());
            assert(set!["String"@].insert("__InputValue"@) =~= input_value_names());
        }
        key
    }
}

impl<'a> ObjectType for InputValueMeta<'a> {
    open spec fn yields(&self, scope: FieldScope, field: FieldNode, r: Result<Value, Error>) -> bool {
        if field.name@ == "name"@ {
            r matches Ok(v) && v.is_text(self.value.name@)
        } else if field.name@ == "description"@ {
            r matches Ok(v) && v.is_opt_text(self.value.description)
        } else if field.name@ == "type"@ {
            r matches Ok(v) && v.is_text(self.value.ty@)
        } else if field.name@ == "defaultValue"@ {
            r matches Ok(v) && v.is_opt_text(self.value.default_value)
        } else {
            no_such_field(scope, field, "__InputValue"@, r)
        }
    }

    fn resolve_field(&self, ctx: &Context, field: &FieldNode) -> (r: Result<Value, Error>) {
        if is_named(field, "name") {
            Ok(Value::Str(self.value.name.clone()))
        } else if is_named(field, "description") {
            Ok(opt_text_value(&self.value.description))
        } else if is_named(field, "type") {
            Ok(Value::Str(self.value.ty.clone()))
        } else if is_named(field, "defaultValue") {
            Ok(opt_text_value(&self.value.default_value))
        } else {
            unknown_field(ctx, field, text("__InputValue"))
        }
    }
}

impl<'a> Type for EnumValueMeta<'a> {
    open spec fn spec_name() -> Seq<char> {
        "__EnumValue"@
    }

    open spec fn registers(before: Seq<MetaType>, after: Seq<MetaType>) -> bool {
        reflects(before, after, enum_value_names(), "__EnumValue"@, enum_value_fields())
    }

    fn name() -> (n: String) {
        text("__EnumValue")
    }

    fn create_type_info(registry: &mut Registry) -> (key: String)
        ensures
            unique_fields(old(registry)@) ==> unique_fields(final(registry)@),
    {
        let ghost before = registry@;
        register_scalar(registry, "String");
        let ghost mid = registry@;
        let mut fields: Vec<MetaField> = Vec::new();
        fields.push(plain_field("name", "String!"));
        proof {
            lemma_reflection_fields_distinct();
            assert forall|i: int, j: int| 0 <= i < j < fields@.len() implies field_names(fields@)[i]
                != field_names(fields@)[j] by {
                assert(is_plain_field(fields@[i], enum_value_fields()[i].0, enum_value_fields()[i].1));
                assert(is_plain_field(fields@[j], enum_value_fields()[j].0, enum_value_fields()[j].1));
            }
        }
        let key = register_object(registry, "__EnumValue", fields);
        proof {
            lemma_reflection_names_differ();
            lemma_added_last(before, mid, registry@, set!["String"@], "__EnumValue"@, enum_value_fields());
            assert(set!["String"@].insert("__EnumValue"@) =~= enum_value_names());
        }
        key
    }
}

impl<'a> ObjectType for EnumValueMeta<'a> {
    open spec fn yields(&self, scope: FieldScope, field: FieldNode, r: Result<Value, Error>) -> bool {
        if field.name@ == "name"@ {
            r matches Ok(v) && v.is_text(self.name@)
        } else {
            no_such_field(scope, field, "__EnumValue"@, r)
        }
    }

    fn resolve_field(&self, ctx: &Context, field: &FieldNode) -> (r: Result<Value, Error>) {
        if is_named(field, "name") {
            Ok(Value::Str(self.name.clone()))
        } else {
            unknown_field(ctx, field, text("__EnumValue"))
        }
    }
}

impl<'a> Type for TypeRefMeta<'a> {
    open spec fn spec_name() -> Seq<char> {
        "__Type"@
    }

    open spec fn registers(before: Seq<MetaType>, after: Seq<MetaType>) -> bool {
        reflects(before, after, type_meta_names(), "__Type"@, type_meta_fields())
    }

    fn name() -> (n: String) {
        text("__Type")
    }

    fn create_type_info(registry: &mut Registry) -> (key: String)
        ensures
            unique_fields(old(registry)@) ==> unique_fields(final(registry)@),
    {
        TypeMeta::create_type_info(registry)
    }
}

impl<'a> ObjectType for TypeRefMeta<'a> {
    open spec fn yields(&self, scope: FieldScope, field: FieldNode, r: Result<Value, Error>) -> bool {
        if field.name@ == "name"@ {
            r matches Ok(v) && v.is_text(self.name@)
        } else if field.name@ == "kind"@ {
            if self.registry.contains(self.name@) {
                exists|i: int| #[trigger]
                    is_first(self.registry.names(), self.name@, i) && (r matches Ok(v) && v.is_text(
                        self.registry@[i].spec_kind(),
                    ))
            } else {
                r == Ok::<Value, Error>(Value::Null)
            }
        } else {
            no_such_field(scope, field, "__Type"@, r)
        }
    }

    fn resolve_field(&self, ctx: &Context, field: &FieldNode) -> (r: Result<Value, Error>) {
        if is_named(field, "name") {
            Ok(Value::Str(self.name.clone()))
        } else if is_named(field, "kind") {
            match self.registry.find(self.name) {
                Some(i) => {
                    assert(is_first(self.registry.names(), self.name@, i as int));
                    Ok(Value::Str(text(self.registry.types[i].kind())))
                },
                None => Ok(Value::Null),
            }
        } else {
            unknown_field(ctx, field, text("__Type"))
        }
    }
}

impl<'a> Type for FieldMeta<'a> {
    open spec fn spec_name() -> Seq<char> {
        "__Field"@
    }

    open spec fn registers(before: Seq<MetaType>, after: Seq<MetaType>) -> bool {
        reflects(before, after, field_meta_names(), "__Field"@, field_meta_fields())
    }

    fn name() -> (n: String) {
        text("__Field")
    }

    fn create_type_info(registry: &mut Registry) -> (key: String)
        ensures
            unique_fields(old(registry)@) ==> unique_fields(final(registry)@),
    {
        let ghost before = registry@;
        register_scalar(registry, "String");
        let ghost r1 = registry@;
        register_scalar(registry, "Boolean");
        let ghost r2 = registry@;
        InputValueMeta::create_type_info(registry);
        let ghost mid = registry@;
        let mut fields: Vec<MetaField> = Vec::new();
        fields.push(plain_field("name", "String!"));
        fields.push(plain_field("description", "String"));
        fields.push(plain_field("args", "[__InputValue!]!"));
        fields.push(plain_field("type", "String!"));
        fields.push(plain_field("isDeprecated", "Boolean!"));
        fields.push(plain_field("deprecationReason", "String"));
        proof {
            lemma_reflection_fields_distinct();
            assert forall|i: int, j: int| 0 <= i < j < fields@.len() implies field_names(fields@)[i]
                != field_names(fields@)[j] by {
                assert(is_plain_field(fields@[i], field_meta_fields()[i].0, field_meta_fields()[i].1));
                assert(is_plain_field(fields@[j], field_meta_fields()[j].0, field_meta_fields()[j].1));
            }
        }
        let key = register_object(registry, "__Field", fields);
        proof {
            let s = set!["String"@, "Boolean"@].union(input_value_names());
            lemma_reflection_names_differ();
            lemma_grows_chain(before, r1, r2, set!["String"@], set!["Boolean"@]);
            assert(set!["String"@].union(set!["Boolean"@]) =~= set!["String"@, "Boolean"@]);
            lemma_grows_chain(before, r2, mid, set!["String"@, "Boolean"@], input_value_names());
            lemma_added_last(before, mid, registry@, s, "__Field"@, field_meta_fields());
            assert(s.insert("__Field"@) =~= field_meta_names());
        }
        key
    }
}

impl<'a> ObjectType for FieldMeta<'a> {
    open spec fn yields(&self, scope: FieldScope, field: FieldNode, r: Result<Value, Error>) -> bool {
        if field.name@ == "name"@ {
            r matches Ok(v) && v.is_text(self.field.name@)
        } else if field.name@ == "description"@ {
            r matches Ok(v) && v.is_opt_text(self.field.description)
        } else if field.name@ == "args"@ {
            list_assembled(input_metas(self.field.args@), scope.with_selection_set(field.selection_set@), r)
        } else if field.name@ == "type"@ {
            r matches Ok(v) && v.is_text(self.field.ty@)
        } else if field.name@ == "isDeprecated"@ {
            r matches Ok(v) && v == Value::Bool(self.field.deprecation is Some)
        } else if field.name@ == "deprecationReason"@ {
            r matches Ok(v) && v.is_opt_text(self.field.deprecation)
        } else {
            no_such_field(scope, field, "__Field"@, r)
        }
    }

    fn resolve_field(&self, ctx: &Context, field: &FieldNode) -> (r: Result<Value, Error>) {
        if is_named(field, "name") {
            Ok(Value::Str(self.field.name.clone()))
        } else if is_named(field, "description") {
            Ok(opt_text_value(&self.field.description))
        } else if is_named(field, "args") {
            let metas = input_metas_of(&self.field.args);
            let below = ctx.with_selection_set(&field.selection_set);
            resolve_list(&below, &metas)
        } else if is_named(field, "type") {
            Ok(Value::Str(self.field.ty.clone()))
        } else if is_named(field, "isDeprecated") {
            Ok(Value::Bool(self.field.deprecation.is_some()))
        } else if is_named(field, "deprecationReason") {
            Ok(opt_text_value(&self.field.deprecation))
        } else {
            unknown_field(ctx, field, text("__Field"))
        }
    }
}

impl<'a> Type for TypeMeta<'a> {
    open spec fn spec_name() -> Seq<char> {
        "__Type"@
    }

    open spec fn registers(before: Seq<MetaType>, after: Seq<MetaType>) -> bool {
        reflects(before, after, type_meta_names(), "__Type"@, type_meta_fields())
    }

    fn name() -> (n: String) {
        text("__Type")
    }

    fn create_type_info(registry: &mut Registry) -> (key: String)
        ensures
            unique_fields(old(registry)@) ==> unique_fields(final(registry)@),
    {
        let ghost before = registry@;
        FieldMeta::create_type_info(registry);
        let ghost r1 = registry@;
        EnumValueMeta::create_type_info(registry);
        let ghost mid = registry@;
        let mut fields: Vec<MetaField> = Vec::new();
        fields.push(plain_field("name", "String"));
        fields.push(plain_field("kind", "String!"));
        fields.push(plain_field("description", "String"));
        fields.push(plain_field("fields", "[__Field!]"));
        fields.push(plain_field("inputFields", "[__InputValue!]"));
        fields.push(plain_field("enumValues", "[__EnumValue!]"));
        fields.push(plain_field("interfaces", "[__Type!]"));
        fields.push(plain_field("possibleTypes", "[__Type!]"));
        proof {
            lemma_reflection_fields_distinct();
            assert forall|i: int, j: int| 0 <= i < j < fields@.len() implies field_names(fields@)[i]
                != field_names(fields@)[j] by {
                assert(is_plain_field(fields@[i], type_meta_fields()[i].0, type_meta_fields()[i].1));
                assert(is_plain_field(fields@[j], type_meta_fields()[j].0, type_meta_fields()[j].1));
            }
        }
        let key = register_object(registry, "__Type", fields);
        proof {
            let s = field_meta_names().union(enum_value_names());
            lemma_reflection_names_differ();
            lemma_grows_chain(before, r1, mid, field_meta_names(), enum_value_names());
            lemma_added_last(before, mid, registry@, s, "__Type"@, type_meta_fields());
            assert(s.insert("__Type"@) =~= type_meta_names());
        }
        key
    }
}

impl<'a> ObjectType for TypeMeta<'a> {
    open spec fn yields(&self, scope: FieldScope, field: FieldNode, r: Result<Value, Error>) -> bool {
        if field.name@ == "name"@ {
            r matches Ok(v) && v.is_text(self.ty.spec_name()@)
        } else if field.name@ == "kind"@ {
            r matches Ok(v) && v.is_text(self.ty.spec_kind())
        } else if field.name@ == "description"@ {
            r matches Ok(v) && v.is_opt_text(self.ty.spec_description())
        } else if field.name@ == "fields"@ {
            if *self.ty is Object || *self.ty is Interface {
                list_assembled(
                    field_metas(self.ty.spec_fields()),
                    scope.with_selection_set(field.selection_set@),
                    r,
                )
            } else {
                r == Ok::<Value, Error>(Value::Null)
            }
        } else if field.name@ == "inputFields"@ {
            match *self.ty {
                MetaType::InputObject { input_fields, .. } => list_assembled(
                    input_metas(input_fields@),
                    scope.with_selection_set(field.selection_set@),
                    r,
                ),
                _ => r == Ok::<Value, Error>(Value::Null),
            }
        } else if field.name@ == "enumValues"@ {
            match *self.ty {
                MetaType::Enum { enum_values, .. } => list_assembled(
                    enum_metas(enum_values@),
                    scope.with_selection_set(field.selection_set@),
                    r,
                ),
                _ => r == Ok::<Value, Error>(Value::Null),
            }
        } else if field.name@ == "interfaces"@ {
            match *self.ty {
                MetaType::Object { interfaces, .. } => list_assembled(
                    type_refs(*self.registry, interfaces@),
                    scope.with_selection_set(field.selection_set@),
                    r,
                ),
                _ => r == Ok::<Value, Error>(Value::Null),
            }
        } else if field.name@ == "possibleTypes"@ {
            match *self.ty {
                MetaType::Interface { possible_types, .. } => list_assembled(
                    type_refs(*self.registry, possible_types@),
                    scope.with_selection_set(field.selection_set@),
                    r,
                ),
                MetaType::Union { possible_types, .. } => list_assembled(
                    type_refs(*self.registry, possible_types@),
                    scope.with_selection_set(field.selection_set@),
                    r,
                ),
                _ => r == Ok::<Value, Error>(Value::Null),
            }
        } else {
            no_such_field(scope, field, "__Type"@, r)
        }
    }

    fn resolve_field(&self, ctx: &Context, field: &FieldNode) -> (r: Result<Value, Error>) {
        if is_named(field, "name") {
            Ok(Value::Str(self.ty.name().clone()))
        } else if is_named(field, "kind") {
            Ok(Value::Str(text(self.ty.kind())))
        } else if is_named(field, "description") {
            Ok(opt_text_value(self.ty.description()))
        } else if is_named(field, "fields") {
            match self.ty.fields() {
                Some(fields) => {
                    let mut metas: Vec<FieldMeta> = Vec::new();
                    let mut i: usize = 0;
                    while i < fields.len()
                        invariant
                            i <= fields.len(),
                            metas@.len() == i,
                            forall|j: int| 0 <= j < i ==> metas@[j] == (FieldMeta { field: &fields@[j] }),
                        decreases fields.len() - i,
                    {
                        metas.push(FieldMeta { field: &fields[i] });
                        i += 1;
                    }
                    assert(metas@ =~= field_metas(fields@));
                    let below = ctx.with_selection_set(&field.selection_set);
                    resolve_list(&below, &metas)
                },
                None => Ok(Value::Null),
            }
        } else if is_named(field, "inputFields") {
            match self.ty {
                MetaType::InputObject { input_fields, .. } => {
                    let metas = input_metas_of(input_fields);
                    let below = ctx.with_selection_set(&field.selection_set);
                    resolve_list(&below, &metas)
                },
                _ => Ok(Value::Null),
            }
        } else if is_named(field, "enumValues") {
            match self.ty {
                MetaType::Enum { enum_values, .. } => {
                    let mut metas: Vec<EnumValueMeta> = Vec::new();
                    let mut i: usize = 0;
                    while i < enum_values.len()
                        invariant
                            i <= enum_values.len(),
                            metas@.len() == i,
                            forall|j: int| 0 <= j < i ==> metas@[j] == (EnumValueMeta { name: &enum_values@[j] }),
                        decreases enum_values.len() - i,
                    {
                        metas.push(EnumValueMeta { name: &enum_values[i] });
                        i += 1;
                    }
                    assert(metas@ =~= enum_metas(enum_values@));
                    let below = ctx.with_selection_set(&field.selection_set);
                    resolve_list(&below, &metas)
                },
                _ => Ok(Value::Null),
            }
        } else if is_named(field, "interfaces") {
            match self.ty {
                MetaType::Object { interfaces, .. } => {
                    let metas = type_refs_of(self.registry, interfaces);
                    let below = ctx.with_selection_set(&field.selection_set);
                    resolve_list(&below, &metas)
                },
                _ => Ok(Value::Null),
            }
        } else if is_named(field, "possibleTypes") {
            match self.ty {
                MetaType::Interface { possible_types, .. } => {
                    let metas = type_refs_of(self.registry, possible_types);
                    let below = ctx.with_selection_set(&field.selection_set);
                    resolve_list(&below, &metas)
                },
                MetaType::Union { possible_types, .. } => {
                    let metas = type_refs_of(self.registry, possible_types);
                    let below = ctx.with_selection_set(&field.selection_set);
                    resolve_list(&below, &metas)
                },
                _ => Ok(Value::Null),
            }
        } else {
            unknown_field(ctx, field, text("__Type"))
        }
    }
}

impl<'a> Type for SchemaMeta<'a> {
    open spec fn spec_name() -> Seq<char> {
        "__Schema"@
    }

    open spec fn registers(before: Seq<MetaType>, after: Seq<MetaType>) -> bool {
        reflects(before, after, schema_meta_names(), "__Schema"@, schema_meta_fields())
    }

    fn name() -> (n: String) {
        text("__Schema")
    }

    fn create_type_info(registry: &mut Registry) -> (key: String)
        ensures
            unique_fields(old(registry)@) ==> unique_fields(final(registry)@),
    {
        let ghost before = registry@;
        TypeMeta::create_type_info(registry);
        let ghost mid = registry@;
        let mut fields: Vec<MetaField> = Vec::new();
        fields.push(plain_field("types", "[__Type!]!"));
        fields.push(plain_field("queryType", "__Type"));
        proof {
            lemma_reflection_fields_distinct();
            assert forall|i: int, j: int| 0 <= i < j < fields@.len() implies field_names(fields@)[i]
                != field_names(fields@)[j] by {
                assert(is_plain_field(fields@[i], schema_meta_fields()[i].0, schema_meta_fields()[i].1));
                assert(is_plain_field(fields@[j], schema_meta_fields()[j].0, schema_meta_fields()[j].1));
            }
        }
        let key = register_object(registry, "__Schema", fields);
        proof {
            lemma_reflection_names_differ();
            lemma_added_last(before, mid, registry@, type_meta_names(), "__Schema"@, schema_meta_fields());
            assert(type_meta_names().insert("__Schema"@) =~= schema_meta_names());
        }
        key
    }
}

impl<'a> ObjectType for SchemaMeta<'a> {
    open spec fn yields(&self, scope: FieldScope, field: FieldNode, r: Result<Value, Error>) -> bool {
        if field.name@ == "types"@ {
            list_assembled(
                type_metas(*self.registry),
                scope.with_selection_set(field.selection_set@),
                r,
            )
        } else if field.name@ == "queryType"@ {
            match self.query_type {
                Some(t) => crate::resolve::assembled(
                    &TypeMeta { registry: self.registry, ty: t },
                    scope.with_selection_set(field.selection_set@),
                    r,
                ),
                None => r == Ok::<Value, Error>(Value::Null),
            }
        } else {
            no_such_field(scope, field, "__Schema"@, r)
        }
    }

    fn resolve_field(&self, ctx: &Context, field: &FieldNode) -> (r: Result<Value, Error>) {
        if is_named(field, "types") {
            let mut metas: Vec<TypeMeta> = Vec::new();
            let mut i: usize = 0;
            while i < self.registry.types.len()
                invariant
                    i <= self.registry.types.len(),
                    metas@.len() == i,
                    forall|j: int| 0 <= j < i ==> metas@[j] == (TypeMeta {
                        registry: self.registry,
                        ty: &self.registry@[j],
                    }),
                decreases self.registry.types.len() - i,
            {
                metas.push(TypeMeta { registry: self.registry, ty: &self.registry.types[i] });
                i += 1;
            }
            assert(metas@ =~= type_metas(*self.registry));
            let below = ctx.with_selection_set(&field.selection_set);
            resolve_list(&below, &metas)
        } else if is_named(field, "queryType") {
            match self.query_type {
                Some(t) => {
                    let below = ctx.with_selection_set(&field.selection_set);
                    crate::resolve::do_resolve(&below, &TypeMeta::new_simple(self.registry, t))
                },
                None => Ok(Value::Null),
            }
        } else {
            unknown_field(ctx, field, text("__Schema"))
        }
    }
}

/// `v` is a list with one object for each of `names`, in their order, whose
/// one entry holds that name under the key `key`.
pub open spec fn lists_names(v: Value, names: Seq<Seq<char>>, key: Seq<char>) -> bool {
    &&& v matches Value::List(items)
    &&& items@.len() == names.len()
    &&& forall|i: int| 0 <= i < items@.len() ==> {
        &&& #[trigger] items@[i] matches Value::Object(entries)
        &&& entries@.len() == 1
        &&& entries@[0].0@ == key
        &&& entries@[0].1.is_text(names[i])
    }
}

/// A query for the names of the schema's types is answered with every
/// registered name exactly once: one object for each registered type, in the
/// order of registration, whose one entry holds that type's name; and no two
/// registered types share a name.
pub proof fn lemma_schema_lists_every_type_once(
    schema: SchemaMeta,
    scope: FieldScope,
    field: FieldNode,
    v: Value,
)
    requires
        schema.registry.wf(),
        field.name@ == "types"@,
        field.selection_set@.len() == 1,
        field.selection_set@[0].name@ == "name"@,
        schema.yields(scope, field, Ok(v)),
    ensures
        distinct(schema.registry.names()),
        lists_names(v, schema.registry.names(), field.selection_set@[0].key()),
{
    let below = scope.with_selection_set(field.selection_set@);
    let metas = type_metas(*schema.registry);
    assert(list_assembled(metas, below, Ok(v)));
    let items = v->List_0;
    assert forall|i: int| 0 <= i < items@.len() implies (#[trigger] items@[i] matches Value::Object(entries)
        && entries@.len() == 1 && entries@[0].0@ == field.selection_set@[0].key()
        && entries@[0].1.is_text(schema.registry.names()[i])) by {
        let s = below.with_index(i as usize);
        assert(crate::resolve::assembled(&metas[i], s, Ok(items@[i])));
        let entries = items@[i]->Object_0;
        assert(s.selection[0] == field.selection_set@[0]);
        let e = entries@[0];
        assert(metas[i].yields(s.with_field(s.selection[0]), s.selection[0], Ok(e.1)));
        assert(metas[i].ty.spec_name()@ == schema.registry.names()[i]);
    }
}

} // verus!
