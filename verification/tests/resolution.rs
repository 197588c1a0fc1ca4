use gql_core::context::{Context, ContextSelectionSet};
use gql_core::error::{Error, PathSegment, QueryError};
use gql_core::introspection::unknown_field;
use gql_core::query::{ArgValue, FieldNode};
use gql_core::query_root::QueryRoot;
use gql_core::registry::{MetaField, MetaType, Registry};
use gql_core::resolve::{assemble, do_resolve, ObjectType, Type};
use gql_core::value::Value;
use graphql_parser::Pos;

fn field(name: &str, line: usize, selection_set: Vec<FieldNode>) -> FieldNode {
    FieldNode {
        position: Pos { line, column: 1 },
        alias: None,
        name: name.to_string(),
        arguments: vec![],
        selection_set,
    }
}

fn aliased(alias: &str, name: &str) -> FieldNode {
    FieldNode {
        position: Pos { line: 1, column: 1 },
        alias: Some(alias.to_string()),
        name: name.to_string(),
        arguments: vec![],
        selection_set: vec![],
    }
}

fn with_arg(name: &str, arg: &str, value: ArgValue, selection_set: Vec<FieldNode>) -> FieldNode {
    FieldNode {
        position: Pos { line: 1, column: 3 },
        alias: None,
        name: name.to_string(),
        arguments: vec![(arg.to_string(), value)],
        selection_set,
    }
}

fn plain(name: &str, ty: &str) -> MetaField {
    gql_core::introspection::plain_field(name, ty)
}

fn text(s: &str) -> Value {
    Value::Str(s.to_string())
}

fn object(entries: Vec<(&str, Value)>) -> Value {
    Value::Object(entries.into_iter().map(|(k, v)| (k.to_string(), v)).collect())
}

fn names(path: &[&str]) -> Vec<PathSegment> {
    path.iter().map(|s| PathSegment::Name(s.to_string())).collect()
}

/// A leaf type with two fields, and a field named like a reserved one.
struct Widget;

impl Type for Widget {
    fn name() -> String {
        "Widget".to_string()
    }

    fn create_type_info(registry: &mut Registry) -> String {
        registry.register(MetaType::Object {
            name: "Widget".to_string(),
            description: Some("A thing.".to_string()),
            fields: vec![plain("id", "Int!"), plain("label", "String")],
            interfaces: vec![],
        })
    }
}

impl ObjectType for Widget {
    fn resolve_field(&self, ctx: &Context, field: &FieldNode) -> Result<Value, Error> {
        match field.name.as_str() {
            "id" => Ok(Value::Int(7)),
            "label" => Ok(text("seven")),
            "__schema" => Ok(text("my own")),
            "broken" => Err(Error::resolver(field.position, &ctx.path, "no luck".to_string())),
            _ => unknown_field(ctx, field, Widget::name()),
        }
    }
}

/// A root type whose field `widget` leads to `Widget`.
struct Shop;

impl Type for Shop {
    fn name() -> String {
        "Shop".to_string()
    }

    fn create_type_info(registry: &mut Registry) -> String {
        let key = registry.register(MetaType::Object {
            name: "Shop".to_string(),
            description: None,
            fields: vec![plain("widget", "Widget"), plain("fieldA", "String"), plain("fieldB", "String")],
            interfaces: vec![],
        });
        Widget::create_type_info(registry);
        key
    }
}

impl ObjectType for Shop {
    fn resolve_field(&self, ctx: &Context, field: &FieldNode) -> Result<Value, Error> {
        match field.name.as_str() {
            "fieldA" => Ok(text("A")),
            "fieldB" => Ok(text("B")),
            "widget" | "parent" | "child" => {
                if field.name == "widget" {
                    do_resolve(&ctx.with_selection_set(&field.selection_set), &Widget)
                } else {
                    do_resolve(&ctx.with_selection_set(&field.selection_set), &Shop)
                }
            }
            _ => unknown_field(ctx, field, Shop::name()),
        }
    }
}

fn shop_registry() -> Registry {
    let mut registry = Registry::new();
    QueryRoot::<Shop>::create_type_info(&mut registry);
    registry
}

fn run_with(
    root: &QueryRoot<Shop>,
    registry: &Registry,
    variables: &Vec<(String, ArgValue)>,
    selection: &Vec<FieldNode>,
) -> Result<Value, Error> {
    let ctx = ContextSelectionSet::root(registry, variables, selection);
    QueryRoot::resolve(root, &ctx, Pos { line: 1, column: 1 })
}

fn run(root: &QueryRoot<Shop>, registry: &Registry, selection: &Vec<FieldNode>) -> Result<Value, Error> {
    run_with(root, registry, &vec![], selection)
}

fn open_root() -> QueryRoot<Shop> {
    QueryRoot { inner: Shop, disable_introspection: false }
}

fn closed_root() -> QueryRoot<Shop> {
    QueryRoot { inner: Shop, disable_introspection: true }
}

#[test]
fn registering_twice_gives_one_entry_and_one_key() {
    let mut registry = Registry::new();
    let first = Widget::create_type_info(&mut registry);
    let len = registry.types.len();
    let second = Widget::create_type_info(&mut registry);
    assert_eq!(first, "Widget");
    assert_eq!(first, second);
    assert_eq!(registry.types.len(), len);
    assert_eq!(len, 1);
}

#[test]
fn registering_a_taken_name_keeps_the_first_descriptor() {
    let mut registry = Registry::new();
    Widget::create_type_info(&mut registry);
    let key = registry.register(MetaType::Scalar { name: "Widget".to_string(), description: None });
    assert_eq!(key, "Widget");
    assert_eq!(registry.types.len(), 1);
    assert!(matches!(registry.types[0], MetaType::Object { .. }));
}

#[test]
fn root_registration_is_idempotent() {
    let mut registry = shop_registry();
    let before = registry.types.clone();
    let key = QueryRoot::<Shop>::create_type_info(&mut registry);
    assert_eq!(key, "Shop");
    assert_eq!(registry.types, before);
}

#[test]
fn root_registration_reaches_types_behind_fields() {
    let registry = shop_registry();
    let names: Vec<&str> = registry.types.iter().map(|t| t.name().as_str()).collect();
    assert_eq!(names, vec![
            "String",
            "Boolean",
            "__InputValue",
            "__Field",
            "__EnumValue",
            "__Type",
            "__Schema",
            "Shop",
            "Widget"
        ]);
}

#[test]
fn root_type_gets_the_reserved_fields_last() {
    let registry = shop_registry();
    let shop = registry.get(&"Shop".to_string()).unwrap();
    let fields = shop.fields().unwrap();
    let names: Vec<&str> = fields.iter().map(|f| f.name.as_str()).collect();
    assert_eq!(names, vec!["widget", "fieldA", "fieldB", "__schema", "__type"]);
    assert_eq!(fields[3].ty, "__Schema");
    assert_eq!(
        fields[3].description,
        Some("Access the current type schema of this server.".to_string())
    );
    assert_eq!(fields[4].ty, "__Type");
    assert_eq!(
        fields[4].description,
        Some("Request the type information of a single type.".to_string())
    );
    assert_eq!(fields[4].args.len(), 1);
    assert_eq!(fields[4].args[0].name, "name");
    assert_eq!(fields[4].args[0].ty, "String!");
    let widget = registry.get(&"Widget".to_string()).unwrap();
    assert_eq!(widget.fields().unwrap().len(), 2);
}

#[test]
fn merging_a_field_of_a_taken_name_overwrites_it_in_place() {
    let mut registry = Registry::new();
    Widget::create_type_info(&mut registry);
    registry.merge_field(&"Widget".to_string(), plain("id", "ID!"));
    registry.merge_field(&"Widget".to_string(), plain("size", "Int"));
    let fields = registry.types[0].fields().unwrap();
    let seen: Vec<(&str, &str)> = fields.iter().map(|f| (f.name.as_str(), f.ty.as_str())).collect();
    assert_eq!(seen, vec![("id", "ID!"), ("label", "String"), ("size", "Int")]);
}

#[test]
fn merging_into_a_missing_or_non_object_type_changes_nothing() {
    let mut registry = Registry::new();
    registry.register(MetaType::Scalar { name: "Int".to_string(), description: None });
    let before = registry.types.clone();
    registry.merge_field(&"Int".to_string(), plain("id", "ID!"));
    registry.merge_field(&"Nowhere".to_string(), plain("id", "ID!"));
    assert_eq!(registry.types, before);
}

#[test]
fn schema_query_lists_every_type_name_once() {
    let registry = shop_registry();
    let selection = vec![field("__schema", 1, vec![field("types", 1, vec![field("name", 1, vec![])])])];
    let out = run(&open_root(), &registry, &selection).unwrap();
    let expected = object(vec![(
        "__schema",
        object(vec![(
            "types",
            Value::List(
                ["String", "Boolean", "__InputValue", "__Field", "__EnumValue", "__Type", "__Schema", "Shop", "Widget"]
                    .iter()
                    .map(|n| object(vec![("name", text(n))]))
                    .collect(),
            ),
        )]),
    )]);
    assert_eq!(out, expected);
}

#[test]
fn disabled_introspection_hides_schema() {
    let registry = shop_registry();
    let selection = vec![field("__schema", 4, vec![field("types", 5, vec![])])];
    let err = run(&closed_root(), &registry, &selection).unwrap_err();
    assert_eq!(
        err,
        Error {
            pos: Pos { line: 4, column: 1 },
            path: names(&["__schema"]),
            err: QueryError::FieldNotFound { field_name: "__schema".to_string(), object: "Shop".to_string() },
        }
    );
}

#[test]
fn disabled_introspection_hides_type() {
    let registry = shop_registry();
    let selection = vec![with_arg("__type", "name", ArgValue::Str("Widget".to_string()), vec![])];
    let err = run(&closed_root(), &registry, &selection).unwrap_err();
    assert_eq!(err.path, names(&["__type"]));
    assert_eq!(
        err.err,
        QueryError::FieldNotFound { field_name: "__type".to_string(), object: "Shop".to_string() }
    );
}

#[test]
fn reserved_names_are_served_at_the_root_only() {
    let registry = shop_registry();
    let selection = vec![field("widget", 1, vec![field("__schema", 2, vec![])])];
    let expected = object(vec![("widget", object(vec![("__schema", text("my own"))]))]);
    assert_eq!(run(&closed_root(), &registry, &selection).unwrap(), expected);
    assert_eq!(run(&open_root(), &registry, &selection).unwrap(), expected);
}

#[test]
fn unknown_type_is_null() {
    let registry = shop_registry();
    let selection =
        vec![with_arg("__type", "name", ArgValue::Str("NoSuchType".to_string()), vec![field("name", 1, vec![])])];
    let out = run(&open_root(), &registry, &selection).unwrap();
    assert_eq!(out, object(vec![("__type", Value::Null)]));
}

#[test]
fn type_query_gives_fields_in_declared_order() {
    let registry = shop_registry();
    let selection = vec![with_arg(
        "__type",
        "name",
        ArgValue::Str("Widget".to_string()),
        vec![field("name", 1, vec![]), field("fields", 1, vec![field("name", 1, vec![])])],
    )];
    let out = run(&open_root(), &registry, &selection).unwrap();
    let expected = object(vec![(
        "__type",
        object(vec![
            ("name", text("Widget")),
            ("fields", Value::List(vec![object(vec![("name", text("id"))]), object(vec![("name", text("label"))])])),
        ]),
    )]);
    assert_eq!(out, expected);
}

#[test]
fn type_query_reports_kind_and_description() {
    let registry = shop_registry();
    let selection = vec![with_arg(
        "__type",
        "name",
        ArgValue::Str("Widget".to_string()),
        vec![field("kind", 1, vec![]), field("description", 1, vec![])],
    )];
    let out = run(&open_root(), &registry, &selection).unwrap();
    assert_eq!(
        out,
        object(vec![("__type", object(vec![("kind", text("OBJECT")), ("description", text("A thing."))]))])
    );
    let selection = vec![with_arg(
        "__type",
        "name",
        ArgValue::Str("String".to_string()),
        vec![field("kind", 1, vec![]), field("description", 1, vec![]), field("fields", 1, vec![])],
    )];
    let out = run(&open_root(), &registry, &selection).unwrap();
    assert_eq!(
        out,
        object(vec![(
            "__type",
            object(vec![("kind", text("SCALAR")), ("description", Value::Null), ("fields", Value::Null)])
        )])
    );
}

#[test]
fn field_reflection_reports_deprecation() {
    let mut registry = Registry::new();
    let mut old_field = plain("legacy", "Int");
    old_field.deprecation = Some("use id".to_string());
    registry.register(MetaType::Object {
        name: "Shop".to_string(),
        description: None,
        fields: vec![old_field, plain("id", "Int")],
        interfaces: vec![],
    });
    let selection = vec![with_arg(
        "__type",
        "name",
        ArgValue::Str("Shop".to_string()),
        vec![field(
            "fields",
            1,
            vec![field("name", 1, vec![]), field("isDeprecated", 1, vec![]), field("deprecationReason", 1, vec![])],
        )],
    )];
    let out = run(&open_root(), &registry, &selection).unwrap();
    let expected = object(vec![(
        "__type",
        object(vec![(
            "fields",
            Value::List(vec![
                object(vec![
                    ("name", text("legacy")),
                    ("isDeprecated", Value::Bool(true)),
                    ("deprecationReason", text("use id")),
                ]),
                object(vec![
                    ("name", text("id")),
                    ("isDeprecated", Value::Bool(false)),
                    ("deprecationReason", Value::Null),
                ]),
            ]),
        )]),
    )]);
    assert_eq!(out, expected);
}

#[test]
fn type_argument_must_be_a_string() {
    let registry = shop_registry();
    let expected = Error {
        pos: Pos { line: 1, column: 3 },
        path: names(&["__type"]),
        err: QueryError::ExpectedType { name: "name".to_string(), expect: "String".to_string() },
    };
    let selection = vec![with_arg("__type", "name", ArgValue::Int(3), vec![])];
    assert_eq!(run(&open_root(), &registry, &selection).unwrap_err(), expected);
    let selection = vec![with_arg("__type", "other", ArgValue::Str("Widget".to_string()), vec![])];
    assert_eq!(run(&open_root(), &registry, &selection).unwrap_err(), expected);
    let selection = vec![with_arg("__type", "name", ArgValue::Null, vec![])];
    assert_eq!(run(&open_root(), &registry, &selection).unwrap_err(), expected);
}

#[test]
fn output_keys_follow_request_order() {
    let registry = shop_registry();
    let selection = vec![aliased("b", "fieldB"), aliased("a", "fieldA")];
    let out = run(&open_root(), &registry, &selection).unwrap();
    assert_eq!(out, object(vec![("b", text("B")), ("a", text("A"))]));
}

#[test]
fn assembly_keeps_request_order_whatever_finished_first() {
    let selection = vec![aliased("b", "fieldB"), aliased("a", "fieldA"), field("fieldA", 1, vec![])];
    let mut finished: Vec<(usize, Value)> = vec![(2, text("A2")), (1, text("A")), (0, text("B"))];
    finished.sort_by_key(|(i, _)| *i);
    let results: Vec<Result<Value, Error>> = finished.into_iter().map(|(_, v)| Ok(v)).collect();
    let out = assemble(&selection, results).unwrap();
    assert_eq!(out, object(vec![("b", text("B")), ("a", text("A")), ("fieldA", text("A2"))]));
}

#[test]
fn assembly_reports_the_first_error_in_request_order() {
    let selection = vec![field("x", 1, vec![]), field("y", 2, vec![]), field("z", 3, vec![])];
    let e = |n: &str| Error {
        pos: Pos { line: 1, column: 1 },
        path: names(&[n]),
        err: QueryError::Resolver { message: n.to_string() },
    };
    let out = assemble(&selection, vec![Ok(Value::Int(1)), Err(e("y")), Err(e("z"))]);
    assert_eq!(out, Err(e("y")));
    let none: Vec<FieldNode> = vec![];
    assert_eq!(assemble(&none, vec![]), Ok(Value::Object(vec![])));
}

#[test]
fn nested_missing_field_carries_its_full_path() {
    let registry = shop_registry();
    let selection =
        vec![field("parent", 1, vec![field("child", 2, vec![field("missingField", 3, vec![])])])];
    let err = run(&open_root(), &registry, &selection).unwrap_err();
    assert_eq!(
        err,
        Error {
            pos: Pos { line: 3, column: 1 },
            path: names(&["parent", "child", "missingField"]),
            err: QueryError::FieldNotFound { field_name: "missingField".to_string(), object: "Shop".to_string() },
        }
    );
}

#[test]
fn path_uses_the_alias_and_list_indices() {
    let registry = shop_registry();
    let selection = vec![FieldNode {
        position: Pos { line: 1, column: 1 },
        alias: Some("s".to_string()),
        name: "__schema".to_string(),
        arguments: vec![],
        selection_set: vec![field("types", 2, vec![field("name", 3, vec![]), field("bogus", 4, vec![])])],
    }];
    let err = run(&open_root(), &registry, &selection).unwrap_err();
    assert_eq!(
        err.path,
        vec![
            PathSegment::Name("s".to_string()),
            PathSegment::Name("types".to_string()),
            PathSegment::Index(0),
            PathSegment::Name("bogus".to_string()),
        ]
    );
    assert_eq!(
        err.err,
        QueryError::FieldNotFound { field_name: "bogus".to_string(), object: "__Type".to_string() }
    );
    assert_eq!(err.pos, Pos { line: 4, column: 1 });
}

#[test]
fn resolver_error_stops_at_the_first_failing_field() {
    let registry = shop_registry();
    let selection = vec![field(
        "widget",
        1,
        vec![field("id", 2, vec![]), field("broken", 3, vec![]), field("nothing", 4, vec![])],
    )];
    let err = run(&open_root(), &registry, &selection).unwrap_err();
    assert_eq!(
        err,
        Error {
            pos: Pos { line: 3, column: 1 },
            path: names(&["widget", "broken"]),
            err: QueryError::Resolver { message: "no luck".to_string() },
        }
    );
}

#[test]
fn other_fields_go_to_the_wrapped_root() {
    let registry = shop_registry();
    let selection = vec![
        field("fieldA", 1, vec![]),
        field("widget", 2, vec![field("label", 3, vec![]), field("id", 3, vec![])]),
    ];
    let out = run(&open_root(), &registry, &selection).unwrap();
    assert_eq!(
        out,
        object(vec![("fieldA", text("A")), ("widget", object(vec![("label", text("seven")), ("id", Value::Int(7))]))])
    );
    let err = run(&open_root(), &registry, &vec![field("nope", 9, vec![])]).unwrap_err();
    assert_eq!(
        err,
        Error {
            pos: Pos { line: 9, column: 1 },
            path: names(&["nope"]),
            err: QueryError::FieldNotFound { field_name: "nope".to_string(), object: "Shop".to_string() },
        }
    );
}

#[test]
fn child_contexts_leave_the_parent_as_it_was() {
    let registry = Registry::new();
    let variables = vec![];
    let selection = vec![aliased("w", "widget")];
    let top = ContextSelectionSet::root(&registry, &variables, &selection);
    let child = top.with_field(&selection[0]);
    let item = top.with_index(2);
    assert!(top.path.is_empty());
    assert_eq!(child.path, names(&["w"]));
    assert_eq!(item.path, vec![PathSegment::Index(2)]);
    let below = child.with_selection_set(&selection[0].selection_set);
    assert_eq!(below.path, names(&["w"]));
    assert_eq!(child.path, names(&["w"]));
}

#[test]
fn empty_selection_gives_an_empty_object() {
    let registry = shop_registry();
    assert_eq!(run(&open_root(), &registry, &vec![]).unwrap(), Value::Object(vec![]));
}

#[test]
fn type_argument_may_come_from_a_variable() {
    let registry = shop_registry();
    let selection =
        vec![with_arg("__type", "name", ArgValue::Variable("t".to_string()), vec![field("name", 1, vec![])])];
    let variables = vec![
        ("u".to_string(), ArgValue::Str("Shop".to_string())),
        ("t".to_string(), ArgValue::Str("Widget".to_string())),
    ];
    let out = run_with(&open_root(), &registry, &variables, &selection).unwrap();
    assert_eq!(out, object(vec![("__type", object(vec![("name", text("Widget"))]))]));
    let unbound = run_with(&open_root(), &registry, &vec![], &selection).unwrap_err();
    assert_eq!(
        unbound.err,
        QueryError::ExpectedType { name: "name".to_string(), expect: "String".to_string() }
    );
    let not_text = vec![("t".to_string(), ArgValue::Boolean(true))];
    assert!(run_with(&open_root(), &registry, &not_text, &selection).is_err());
}

#[test]
fn first_binding_of_an_argument_counts() {
    let registry = shop_registry();
    let selection = vec![FieldNode {
        position: Pos { line: 1, column: 1 },
        alias: None,
        name: "__type".to_string(),
        arguments: vec![
            ("name".to_string(), ArgValue::Str("Shop".to_string())),
            ("name".to_string(), ArgValue::Str("Widget".to_string())),
        ],
        selection_set: vec![field("name", 1, vec![])],
    }];
    let out = run(&open_root(), &registry, &selection).unwrap();
    assert_eq!(out, object(vec![("__type", object(vec![("name", text("Shop"))]))]));
}

#[test]
fn reflection_reports_arguments_of_the_reserved_field() {
    let registry = shop_registry();
    let selection = vec![with_arg(
        "__type",
        "name",
        ArgValue::Str("Shop".to_string()),
        vec![field(
            "fields",
            1,
            vec![
                field("name", 1, vec![]),
                field("type", 1, vec![]),
                field(
                    "args",
                    1,
                    vec![
                        field("name", 1, vec![]),
                        field("type", 1, vec![]),
                        field("description", 1, vec![]),
                        field("defaultValue", 1, vec![]),
                    ],
                ),
            ],
        )],
    )];
    let out = run(&open_root(), &registry, &selection).unwrap();
    let f = |name: &str, ty: &str, args: Vec<Value>| {
        object(vec![("name", text(name)), ("type", text(ty)), ("args", Value::List(args))])
    };
    let expected = object(vec![(
        "__type",
        object(vec![(
            "fields",
            Value::List(vec![
                f("widget", "Widget", vec![]),
                f("fieldA", "String", vec![]),
                f("fieldB", "String", vec![]),
                f("__schema", "__Schema", vec![]),
                f(
                    "__type",
                    "__Type",
                    vec![object(vec![
                        ("name", text("name")),
                        ("type", text("String!")),
                        ("description", Value::Null),
                        ("defaultValue", Value::Null),
                    ])],
                ),
            ]),
        )]),
    )]);
    assert_eq!(out, expected);
}

#[test]
fn reflection_reports_enum_values_and_input_fields() {
    let mut registry = Registry::new();
    registry.register(MetaType::Enum {
        name: "Color".to_string(),
        description: None,
        enum_values: vec!["RED".to_string(), "GREEN".to_string()],
    });
    registry.register(MetaType::InputObject {
        name: "Filter".to_string(),
        description: None,
        input_fields: vec![gql_core::registry::MetaInputValue {
            name: "limit".to_string(),
            description: Some("How many.".to_string()),
            ty: "Int".to_string(),
            default_value: Some("10".to_string()),
        }],
    });
    let ask = |name: &str| {
        vec![with_arg(
            "__type",
            "name",
            ArgValue::Str(name.to_string()),
            vec![
                field("kind", 1, vec![]),
                field("enumValues", 1, vec![field("name", 1, vec![])]),
                field("inputFields", 1, vec![field("name", 1, vec![]), field("defaultValue", 1, vec![])]),
            ],
        )]
    };
    let out = run(&open_root(), &registry, &ask("Color")).unwrap();
    assert_eq!(
        out,
        object(vec![(
            "__type",
            object(vec![
                ("kind", text("ENUM")),
                ("enumValues", Value::List(vec![object(vec![("name", text("RED"))]), object(vec![("name", text("GREEN"))])])),
                ("inputFields", Value::Null),
            ])
        )])
    );
    let out = run(&open_root(), &registry, &ask("Filter")).unwrap();
    assert_eq!(
        out,
        object(vec![(
            "__type",
            object(vec![
                ("kind", text("INPUT_OBJECT")),
                ("enumValues", Value::Null),
                ("inputFields", Value::List(vec![object(vec![("name", text("limit")), ("defaultValue", text("10"))])])),
            ])
        )])
    );
}

#[test]
fn a_root_field_under_a_reserved_name_is_overwritten() {
    let mut registry = Registry::new();
    registry.register(MetaType::Object {
        name: "Shop".to_string(),
        description: None,
        fields: vec![plain("__type", "Int"), plain("widget", "Widget")],
        interfaces: vec![],
    });
    gql_core::query_root::attach_introspection(&mut registry, &"Shop".to_string(), "__Schema".to_string());
    let fields = registry.types[0].fields().unwrap();
    let seen: Vec<(&str, &str)> = fields.iter().map(|f| (f.name.as_str(), f.ty.as_str())).collect();
    assert_eq!(seen, vec![("__type", "__Type"), ("widget", "Widget"), ("__schema", "__Schema")]);
}

#[test]
fn cache_control_defaults_to_public_without_age() {
    let c = gql_core::registry::CacheControl::default();
    assert_eq!(c, gql_core::registry::CacheControl { public: true, max_age: 0 });
    assert_eq!(plain("id", "Int").cache_control, c);
}

/// Two types that refer to each other, and one that refers to itself.
struct Author;
struct Book;
struct Node;

impl Type for Author {
    fn name() -> String {
        "Author".to_string()
    }

    fn create_type_info(registry: &mut Registry) -> String {
        if registry.reserve("Author") {
            let books = Book::create_type_info(registry);
            registry.define(MetaType::Object {
                name: "Author".to_string(),
                description: None,
                fields: vec![plain("books", &books)],
                interfaces: vec![],
            });
        }
        "Author".to_string()
    }
}

impl Type for Book {
    fn name() -> String {
        "Book".to_string()
    }

    fn create_type_info(registry: &mut Registry) -> String {
        if registry.reserve("Book") {
            let author = Author::create_type_info(registry);
            registry.define(MetaType::Object {
                name: "Book".to_string(),
                description: None,
                fields: vec![plain("author", &author)],
                interfaces: vec![],
            });
        }
        "Book".to_string()
    }
}

impl Type for Node {
    fn name() -> String {
        "Node".to_string()
    }

    fn create_type_info(registry: &mut Registry) -> String {
        if registry.reserve("Node") {
            let next = Node::create_type_info(registry);
            registry.define(MetaType::Object {
                name: "Node".to_string(),
                description: None,
                fields: vec![plain("next", &next)],
                interfaces: vec![],
            });
        }
        "Node".to_string()
    }
}

#[test]
fn cyclic_types_are_registered_once_each() {
    let mut registry = Registry::new();
    let first = Author::create_type_info(&mut registry);
    let names: Vec<&str> = registry.types.iter().map(|t| t.name().as_str()).collect();
    assert_eq!(names, vec!["Author", "Book"]);
    let before = registry.types.clone();
    let second = Author::create_type_info(&mut registry);
    assert_eq!(first, second);
    assert_eq!(Book::create_type_info(&mut registry), "Book");
    assert_eq!(registry.types, before);
    assert_eq!(registry.types[0].fields().unwrap()[0].ty, "Book");
    assert_eq!(registry.types[1].fields().unwrap()[0].ty, "Author");
}

#[test]
fn a_type_that_refers_to_itself_is_registered_once() {
    let mut registry = Registry::new();
    assert_eq!(Node::create_type_info(&mut registry), "Node");
    assert_eq!(Node::create_type_info(&mut registry), "Node");
    assert_eq!(registry.types.len(), 1);
    assert_eq!(registry.types[0].fields().unwrap()[0].ty, "Node");
}

#[test]
fn reserve_and_define_keep_the_place_of_a_name() {
    let mut registry = Registry::new();
    assert!(registry.reserve("A"));
    assert!(registry.reserve("B"));
    assert!(!registry.reserve("A"));
    assert_eq!(
        registry.types[0],
        MetaType::Object { name: "A".to_string(), description: None, fields: vec![], interfaces: vec![] }
    );
    registry.define(MetaType::Scalar { name: "A".to_string(), description: None });
    registry.define(MetaType::Scalar { name: "C".to_string(), description: None });
    let seen: Vec<(&str, &str)> = registry.types.iter().map(|t| (t.name().as_str(), t.kind())).collect();
    assert_eq!(seen, vec![("A", "SCALAR"), ("B", "OBJECT"), ("C", "SCALAR")]);
    assert_eq!(registry.find(&"B".to_string()), Some(1));
    assert_eq!(registry.find(&"D".to_string()), None);
    assert!(registry.get(&"D".to_string()).is_none());
}

#[test]
fn type_reflection_by_name_finds_registered_types_only() {
    let registry = shop_registry();
    let widget = gql_core::introspection::TypeMeta::new(&registry, &"Widget".to_string()).unwrap();
    assert_eq!(widget.ty.name(), "Widget");
    assert!(gql_core::introspection::TypeMeta::new(&registry, &"Gadget".to_string()).is_none());
    let first = gql_core::introspection::TypeMeta::new_simple(&registry, &registry.types[0]);
    assert_eq!(first.ty.name(), "String");
}

#[test]
fn reflection_reports_possible_types() {
    let mut registry = Registry::new();
    Widget::create_type_info(&mut registry);
    registry.register(MetaType::Union {
        name: "Thing".to_string(),
        description: None,
        possible_types: vec!["Widget".to_string(), "Gadget".to_string()],
    });
    let selection = vec![with_arg(
        "__type",
        "name",
        ArgValue::Str("Thing".to_string()),
        vec![field("possibleTypes", 1, vec![field("name", 1, vec![]), field("kind", 1, vec![])])],
    )];
    let out = run(&open_root(), &registry, &selection).unwrap();
    assert_eq!(
        out,
        object(vec![(
            "__type",
            object(vec![(
                "possibleTypes",
                Value::List(vec![
                    object(vec![("name", text("Widget")), ("kind", text("OBJECT"))]),
                    object(vec![("name", text("Gadget")), ("kind", Value::Null)]),
                ])
            )])
        )])
    );
    let selection = vec![with_arg(
        "__type",
        "name",
        ArgValue::Str("Widget".to_string()),
        vec![field("possibleTypes", 1, vec![field("name", 1, vec![])])],
    )];
    let out = run(&open_root(), &registry, &selection).unwrap();
    assert_eq!(out, object(vec![("__type", object(vec![("possibleTypes", Value::Null)]))]));
}

#[test]
fn reflection_types_register_their_descriptors() {
    let mut registry = Registry::new();
    assert_eq!(gql_core::introspection::SchemaMeta::create_type_info(&mut registry), "__Schema");
    let seen: Vec<(&str, &str)> = registry.types.iter().map(|t| (t.name().as_str(), t.kind())).collect();
    assert_eq!(
        seen,
        vec![
            ("String", "SCALAR"),
            ("Boolean", "SCALAR"),
            ("__InputValue", "OBJECT"),
            ("__Field", "OBJECT"),
            ("__EnumValue", "OBJECT"),
            ("__Type", "OBJECT"),
            ("__Schema", "OBJECT"),
        ]
    );
    let fields_of = |i: usize| -> Vec<(String, String)> {
        registry.types[i].fields().unwrap().iter().map(|f| (f.name.clone(), f.ty.clone())).collect()
    };
    let pairs = |v: Vec<(&str, &str)>| -> Vec<(String, String)> {
        v.into_iter().map(|(a, b)| (a.to_string(), b.to_string())).collect()
    };
    assert_eq!(fields_of(6), pairs(vec![("types", "[__Type!]!"), ("queryType", "__Type")]));
    assert_eq!(
        fields_of(5),
        pairs(vec![
            ("name", "String"),
            ("kind", "String!"),
            ("description", "String"),
            ("fields", "[__Field!]"),
            ("inputFields", "[__InputValue!]"),
            ("enumValues", "[__EnumValue!]"),
            ("interfaces", "[__Type!]"),
            ("possibleTypes", "[__Type!]"),
        ])
    );
    assert_eq!(fields_of(4), pairs(vec![("name", "String!")]));
    assert_eq!(
        fields_of(3),
        pairs(vec![
            ("name", "String!"),
            ("description", "String"),
            ("args", "[__InputValue!]!"),
            ("type", "String!"),
            ("isDeprecated", "Boolean!"),
            ("deprecationReason", "String"),
        ])
    );
    assert_eq!(
        fields_of(2),
        pairs(vec![
            ("name", "String!"),
            ("description", "String"),
            ("type", "String!"),
            ("defaultValue", "String"),
        ])
    );
    let before = registry.types.clone();
    gql_core::introspection::SchemaMeta::create_type_info(&mut registry);
    assert_eq!(registry.types, before);
}

#[test]
fn a_taken_reflection_name_is_left_as_it_is() {
    let mut registry = Registry::new();
    registry.register(MetaType::Scalar { name: "__Type".to_string(), description: None });
    gql_core::introspection::SchemaMeta::create_type_info(&mut registry);
    assert_eq!(registry.types[0].kind(), "SCALAR");
    assert_eq!(registry.types.len(), 7);
    assert_eq!(registry.find(&"__Type".to_string()), Some(0));
}

#[test]
fn reflection_reports_the_interfaces_of_an_object_type() {
    let mut registry = Registry::new();
    registry.register(MetaType::Interface {
        name: "Priced".to_string(),
        description: None,
        fields: vec![plain("price", "Int")],
        possible_types: vec!["Shop".to_string()],
    });
    registry.register(MetaType::Object {
        name: "Shop".to_string(),
        description: None,
        fields: vec![plain("price", "Int")],
        interfaces: vec!["Priced".to_string()],
    });
    let ask = |name: &str| {
        vec![with_arg(
            "__type",
            "name",
            ArgValue::Str(name.to_string()),
            vec![
                field("interfaces", 1, vec![field("name", 1, vec![]), field("kind", 1, vec![])]),
                field("possibleTypes", 1, vec![field("name", 1, vec![])]),
            ],
        )]
    };
    assert_eq!(
        run(&open_root(), &registry, &ask("Shop")).unwrap(),
        object(vec![(
            "__type",
            object(vec![
                ("interfaces", Value::List(vec![object(vec![("name", text("Priced")), ("kind", text("INTERFACE"))])])),
                ("possibleTypes", Value::Null),
            ])
        )])
    );
    assert_eq!(
        run(&open_root(), &registry, &ask("Priced")).unwrap(),
        object(vec![(
            "__type",
            object(vec![
                ("interfaces", Value::Null),
                ("possibleTypes", Value::List(vec![object(vec![("name", text("Shop"))])])),
            ])
        )])
    );
    gql_core::query_root::attach_introspection(&mut registry, &"Shop".to_string(), "__Schema".to_string());
    assert_eq!(
        run(&open_root(), &registry, &ask("Shop")).unwrap(),
        object(vec![(
            "__type",
            object(vec![
                ("interfaces", Value::List(vec![object(vec![("name", text("Priced")), ("kind", text("INTERFACE"))])])),
                ("possibleTypes", Value::Null),
            ])
        )])
    );
}

#[test]
fn schema_reports_the_query_type() {
    let registry = shop_registry();
    let selection = vec![field(
        "__schema",
        1,
        vec![field("queryType", 1, vec![field("name", 1, vec![]), field("kind", 1, vec![])])],
    )];
    let out = run(&open_root(), &registry, &selection).unwrap();
    assert_eq!(
        out,
        object(vec![(
            "__schema",
            object(vec![("queryType", object(vec![("name", text("Shop")), ("kind", text("OBJECT"))]))])
        )])
    );
    let empty = Registry::new();
    let out = run(&open_root(), &empty, &selection).unwrap();
    assert_eq!(out, object(vec![("__schema", object(vec![("queryType", Value::Null)]))]));
    let schema = gql_core::introspection::SchemaMeta::new(&registry, &"Widget".to_string());
    assert_eq!(schema.query_type.unwrap().name(), "Widget");
}
