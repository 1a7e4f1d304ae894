use apollo_federation::CompositionError;
use apollo_federation::FieldDef;
use apollo_federation::FieldSet;
use apollo_federation::FieldType;
use apollo_federation::SchemaDoc;
use apollo_federation::TypeDef;
use apollo_federation::composition::CompositionOptions;
use apollo_federation::composition::compose;
use apollo_federation::composition::compose_with_options;
use apollo_federation::composition::expand_subgraphs;
use apollo_federation::composition::post_merge_validations;
use apollo_federation::composition::upgrade_subgraphs_if_necessary;
use apollo_federation::composition::validate_subgraphs;
use apollo_federation::model::EnumDef;
use apollo_federation::model::ObjectDef;
use apollo_federation::model::UnionDef;
use apollo_federation::render_sdl;
use apollo_federation::subgraph::Initial;
use apollo_federation::subgraph::Subgraph;
use apollo_federation::supergraph::Merged;
use apollo_federation::supergraph::Supergraph;

fn plain_field(name: &str, base: &str) -> FieldDef {
    FieldDef {
        name: name.to_string(),
        ty: FieldType { base: base.to_string(), non_null: false, list: false },
        external: false,
        shareable: false,
        requires: None,
        provides: None,
    }
}

fn object(name: &str, fields: Vec<FieldDef>) -> TypeDef {
    TypeDef::Object(ObjectDef {
        name: name.to_string(),
        description: None,
        is_interface: false,
        fields,
        keys: vec![],
    })
}

fn subgraph(name: &str, url: &str, doc: SchemaDoc) -> Subgraph<Initial> {
    Subgraph::new(name.to_string(), url.to_string(), doc, vec![])
}

fn query_doc(extra: Vec<TypeDef>) -> SchemaDoc {
    let mut types = vec![object("Query", vec![plain_field("hello", "String")])];
    types.extend(extra);
    SchemaDoc::new(Some("Query".to_string()), types)
}

fn type_named<'a>(doc: &'a SchemaDoc, name: &str) -> Option<&'a TypeDef> {
    doc.types.iter().find(|t| match t {
        TypeDef::Object(o) => o.name == name,
        TypeDef::Enum(e) => e.name == name,
        TypeDef::Union(u) => u.name == name,
    })
}

fn sorted(mut v: Vec<String>) -> Vec<String> {
    v.sort();
    v
}

#[test]
fn union_members_are_exactly_the_declared_ones() {
    let u = TypeDef::Union(UnionDef {
        name: "U".to_string(),
        description: None,
        members: vec!["S".to_string(), "T".to_string()],
    });
    let s = object("S", vec![plain_field("x", "Int")]);
    let t = object("T", vec![plain_field("y", "Int")]);
    let s1 = subgraph("one", "http://one", query_doc(vec![u, s, t]));
    let s2 = subgraph("two", "http://two", SchemaDoc::new(None, vec![object(
        "W",
        vec![plain_field("z", "Int")],
    )]));
    let supergraph = compose(vec![s1, s2]).unwrap();
    match type_named(supergraph.schema(), "U").expect("U should survive the merge") {
        TypeDef::Union(merged) => {
            assert_eq!(sorted(merged.members.clone()), vec!["S".to_string(), "T".to_string()]);
        }
        _ => panic!("U should stay a union"),
    }
}

#[test]
fn enum_values_are_the_union_of_declarations() {
    let s1 = subgraph("one", "http://one", query_doc(vec![]));
    let e = TypeDef::Enum(EnumDef {
        name: "E".to_string(),
        description: None,
        values: vec!["V1".to_string(), "V2".to_string()],
    });
    let s2 = subgraph("two", "http://two", SchemaDoc::new(None, vec![e]));
    let supergraph = compose(vec![s1, s2]).unwrap();
    match type_named(supergraph.schema(), "E").expect("E should survive the merge") {
        TypeDef::Enum(merged) => {
            assert_eq!(merged.values, vec!["V1".to_string(), "V2".to_string()]);
        }
        _ => panic!("E should stay an enum"),
    }
}

#[test]
fn composing_twice_renders_byte_identical_text() {
    let build = || {
        vec![
            subgraph("one", "http://one", query_doc(vec![object(
                "Product",
                vec![plain_field("sku", "String"), plain_field("name", "String")],
            )])),
            subgraph("two", "http://two", SchemaDoc::new(None, vec![TypeDef::Enum(EnumDef {
                name: "E".to_string(),
                description: Some("An enum".to_string()),
                values: vec!["V1".to_string()],
            })])),
        ]
    };
    let first = compose(build()).unwrap();
    let second = compose(build()).unwrap();
    let sdl1 = render_sdl(first.schema());
    let sdl2 = render_sdl(second.schema());
    assert_eq!(sdl1, sdl2, "equal inputs must render byte-identically");
}

#[test]
fn composing_in_either_order_yields_the_same_sets() {
    let a = || {
        subgraph("a", "http://a", query_doc(vec![
            object("Product", vec![plain_field("sku", "String")]),
            TypeDef::Enum(EnumDef {
                name: "E".to_string(),
                description: None,
                values: vec!["V1".to_string()],
            }),
        ]))
    };
    let b = || {
        subgraph("b", "http://b", SchemaDoc::new(None, vec![
            object("Product", vec![plain_field("name", "String")]),
            TypeDef::Enum(EnumDef {
                name: "E".to_string(),
                description: None,
                values: vec!["V2".to_string()],
            }),
            TypeDef::Union(UnionDef {
                name: "U".to_string(),
                description: None,
                members: vec!["Product".to_string()],
            }),
        ]))
    };
    let options = CompositionOptions { run_satisfiability: false };
    let ab = compose_with_options(vec![a(), b()], options).unwrap();
    let ba = compose_with_options(vec![b(), a()], options).unwrap();
    let names = |sg: &Supergraph<apollo_federation::supergraph::Satisfiable>| {
        sorted(
            sg.schema()
                .types
                .iter()
                .map(|t| match t {
                    TypeDef::Object(o) => o.name.clone(),
                    TypeDef::Enum(e) => e.name.clone(),
                    TypeDef::Union(u) => u.name.clone(),
                })
                .collect(),
        )
    };
    assert_eq!(names(&ab), names(&ba));
    let product_fields = |sg: &Supergraph<apollo_federation::supergraph::Satisfiable>| match type_named(
        sg.schema(),
        "Product",
    )
    .unwrap()
    {
        TypeDef::Object(o) => sorted(o.fields.iter().map(|f| f.name.clone()).collect()),
        _ => panic!("Product should be an object"),
    };
    assert_eq!(product_fields(&ab), product_fields(&ba));
    let enum_values = |sg: &Supergraph<apollo_federation::supergraph::Satisfiable>| match type_named(
        sg.schema(),
        "E",
    )
    .unwrap()
    {
        TypeDef::Enum(e) => sorted(e.values.clone()),
        _ => panic!("E should be an enum"),
    };
    assert_eq!(enum_values(&ab), enum_values(&ba));
}

#[test]
fn unknown_link_import_is_rejected() {
    let s = Subgraph::new(
        "one".to_string(),
        "http://one".to_string(),
        query_doc(vec![]),
        vec!["@bogus".to_string()],
    );
    match expand_subgraphs(vec![s]) {
        Ok(_) => panic!("an unknown @link import must fail expansion"),
        Err(errors) => {
            assert_eq!(errors.len(), 1);
            assert_eq!(errors[0].to_display_string(), "Invalid @link import: @bogus");
        }
    }
}

fn validate_one(doc: SchemaDoc) -> Result<(), String> {
    let s = subgraph("one", "http://one", doc);
    let expanded = expand_subgraphs(vec![s]).expect("expansion should succeed");
    let upgraded = upgrade_subgraphs_if_necessary(expanded).expect("upgrade should succeed");
    match validate_subgraphs(upgraded) {
        Ok(_) => Ok(()),
        Err(errors) => Err(errors[0].to_display_string()),
    }
}

#[test]
fn key_with_invalid_field_name_is_rejected() {
    let mut product = ObjectDef {
        name: "Product".to_string(),
        description: None,
        is_interface: false,
        fields: vec![plain_field("sku", "String")],
        keys: vec![FieldSet::new(vec!["9bad".to_string()])],
    };
    let err = validate_one(query_doc(vec![TypeDef::Object(product)]))
        .expect_err("an invalid name in a @key must fail validation");
    assert_eq!(err, "Invalid @key on type Product: invalid field name 9bad");
    product = ObjectDef {
        name: "Product".to_string(),
        description: None,
        is_interface: false,
        fields: vec![plain_field("sku", "String")],
        keys: vec![FieldSet::new(vec!["sku".to_string()])],
    };
    validate_one(query_doc(vec![TypeDef::Object(product)]))
        .expect("a valid @key must pass validation");
}

#[test]
fn key_selecting_unknown_field_is_rejected() {
    let product = ObjectDef {
        name: "Product".to_string(),
        description: None,
        is_interface: false,
        fields: vec![plain_field("name", "String")],
        keys: vec![FieldSet::new(vec!["sku".to_string()])],
    };
    let err = validate_one(query_doc(vec![TypeDef::Object(product)]))
        .expect_err("a @key selecting a missing field must fail validation");
    assert_eq!(err, "Invalid @key on type Product: unknown field sku");
}

#[test]
fn empty_key_selection_is_rejected() {
    let product = ObjectDef {
        name: "Product".to_string(),
        description: None,
        is_interface: false,
        fields: vec![plain_field("sku", "String")],
        keys: vec![FieldSet::new(vec![])],
    };
    let err = validate_one(query_doc(vec![TypeDef::Object(product)]))
        .expect_err("an empty @key must fail validation");
    assert_eq!(err, "Invalid @key on type Product: empty field set");
}

#[test]
fn requires_selecting_unknown_field_is_rejected() {
    let mut field = plain_field("price", "Int");
    field.requires = Some(FieldSet::new(vec!["weight".to_string()]));
    let product = ObjectDef {
        name: "Product".to_string(),
        description: None,
        is_interface: false,
        fields: vec![field],
        keys: vec![],
    };
    let err = validate_one(query_doc(vec![TypeDef::Object(product)]))
        .expect_err("a @requires selecting a missing field must fail validation");
    assert_eq!(
        err,
        "Invalid @requires on field Product.price: unknown field weight"
    );
}

#[test]
fn conflicting_field_types_fail_the_merge() {
    let s1 = subgraph("one", "http://one", query_doc(vec![object(
        "T",
        vec![plain_field("x", "Int")],
    )]));
    let s2 = subgraph("two", "http://two", SchemaDoc::new(None, vec![object(
        "T",
        vec![plain_field("x", "String")],
    )]));
    match compose(vec![s1, s2]) {
        Ok(_) => panic!("conflicting base types must fail composition"),
        Err(errors) => {
            assert_eq!(errors.len(), 1);
            assert_eq!(
                errors[0].to_display_string(),
                "Field T.x has incompatible types across subgraphs"
            );
        }
    }
}

#[test]
fn conflicting_kinds_fail_the_merge() {
    let s1 = subgraph("one", "http://one", query_doc(vec![object(
        "X",
        vec![plain_field("a", "Int")],
    )]));
    let s2 = subgraph("two", "http://two", SchemaDoc::new(None, vec![TypeDef::Enum(EnumDef {
        name: "X".to_string(),
        description: None,
        values: vec!["V".to_string()],
    })]));
    match compose(vec![s1, s2]) {
        Ok(_) => panic!("conflicting kinds must fail composition"),
        Err(errors) => {
            assert_eq!(
                errors[0].to_display_string(),
                "Type X has conflicting kinds across subgraphs"
            );
        }
    }
}

#[test]
fn nullability_is_reconciled_to_the_most_permissive() {
    let strict = FieldDef {
        name: "x".to_string(),
        ty: FieldType { base: "Int".to_string(), non_null: true, list: false },
        external: false,
        shareable: false,
        requires: None,
        provides: None,
    };
    let s1 = subgraph("one", "http://one", query_doc(vec![object("T", vec![strict])]));
    let s2 = subgraph("two", "http://two", SchemaDoc::new(None, vec![object(
        "T",
        vec![plain_field("x", "Int")],
    )]));
    let supergraph = compose(vec![s1, s2]).unwrap();
    match type_named(supergraph.schema(), "T").unwrap() {
        TypeDef::Object(o) => {
            assert!(!o.fields[0].ty.non_null, "nullable declaration must win");
        }
        _ => panic!("T should be an object"),
    }
}

#[test]
fn missing_query_type_fails_post_merge() {
    let s1 = subgraph("one", "http://one", SchemaDoc::new(None, vec![object(
        "T",
        vec![plain_field("x", "Int")],
    )]));
    match compose(vec![s1]) {
        Ok(_) => panic!("a supergraph without a query type must fail"),
        Err(errors) => {
            assert_eq!(
                errors[0].to_display_string(),
                "Supergraph must have a query type"
            );
        }
    }
}

#[test]
fn empty_entity_union_fails_post_merge() {
    let doc = SchemaDoc::new(
        Some("Query".to_string()),
        vec![
            object("Query", vec![plain_field("hello", "String")]),
            TypeDef::Union(UnionDef {
                name: "_Entity".to_string(),
                description: None,
                members: vec![],
            }),
        ],
    );
    let supergraph = Supergraph::<Merged>::new(doc);
    match post_merge_validations(&supergraph) {
        Ok(_) => panic!("an empty _Entity union must fail post-merge validation"),
        Err(errors) => {
            assert_eq!(
                errors[0].to_display_string(),
                "_Entity union exists but has no members"
            );
        }
    }
}

fn unsatisfiable_pair() -> Vec<Subgraph<Initial>> {
    let t_a = TypeDef::Object(ObjectDef {
        name: "T".to_string(),
        description: None,
        is_interface: false,
        fields: vec![plain_field("k", "ID")],
        keys: vec![FieldSet::new(vec!["k".to_string()])],
    });
    let mut query = query_doc(vec![t_a]);
    match &mut query.types[0] {
        TypeDef::Object(q) => q.fields.push(plain_field("t", "T")),
        _ => unreachable!(),
    }
    let a = subgraph("SubgraphA", "http://a", query);
    // SubgraphB declares T with an extra field but no @key, so an executor
    // standing on T in SubgraphA has no way to reach `a`.
    let t_b = TypeDef::Object(ObjectDef {
        name: "T".to_string(),
        description: None,
        is_interface: false,
        fields: vec![plain_field("k", "ID"), plain_field("a", "Int")],
        keys: vec![],
    });
    let b = subgraph("SubgraphB", "http://b", SchemaDoc::new(None, vec![t_b]));
    vec![a, b]
}

#[test]
fn unreachable_field_fails_satisfiability() {
    match compose(unsatisfiable_pair()) {
        Ok(_) => panic!("a field with no resolution path must fail satisfiability"),
        Err(errors) => {
            assert!(!errors.is_empty());
            assert_eq!(
                errors[0].to_display_string(),
                "Field T.a is not resolvable from subgraph SubgraphA"
            );
        }
    }
}

#[test]
fn disabling_satisfiability_skips_the_check() {
    let options = CompositionOptions { run_satisfiability: false };
    let result = compose_with_options(unsatisfiable_pair(), options);
    assert!(
        result.is_ok(),
        "with satisfiability disabled the merged result is assumed satisfiable"
    );
}

#[test]
fn key_jump_makes_remote_fields_resolvable() {
    let t_a = TypeDef::Object(ObjectDef {
        name: "T".to_string(),
        description: None,
        is_interface: false,
        fields: vec![plain_field("k", "ID")],
        keys: vec![FieldSet::new(vec!["k".to_string()])],
    });
    let mut query = query_doc(vec![t_a]);
    match &mut query.types[0] {
        TypeDef::Object(q) => q.fields.push(plain_field("t", "T")),
        _ => unreachable!(),
    }
    let a = subgraph("SubgraphA", "http://a", query);
    let t_b = TypeDef::Object(ObjectDef {
        name: "T".to_string(),
        description: None,
        is_interface: false,
        fields: vec![plain_field("k", "ID"), plain_field("a", "Int")],
        keys: vec![FieldSet::new(vec!["k".to_string()])],
    });
    let b = subgraph("SubgraphB", "http://b", SchemaDoc::new(None, vec![t_b]));
    assert!(
        compose(vec![a, b]).is_ok(),
        "a @key shared by both subgraphs lets the executor jump"
    );
}

fn requiring_field(name: &str, base: &str, required: &str) -> FieldDef {
    let mut f = plain_field(name, base);
    f.requires = Some(FieldSet::new(vec![required.to_string()]));
    f
}

#[test]
fn cyclic_requires_fails_satisfiability() {
    let t = TypeDef::Object(ObjectDef {
        name: "T".to_string(),
        description: None,
        is_interface: false,
        fields: vec![
            requiring_field("a", "Int", "b"),
            requiring_field("b", "Int", "a"),
        ],
        keys: vec![],
    });
    let mut query = query_doc(vec![t]);
    match &mut query.types[0] {
        TypeDef::Object(q) => q.fields.push(plain_field("t", "T")),
        _ => unreachable!(),
    }
    let s = subgraph("one", "http://one", query);
    match compose(vec![s]) {
        Ok(_) => panic!("a cyclic @requires dependency must fail satisfiability"),
        Err(errors) => {
            let messages: Vec<String> =
                errors.iter().map(CompositionError::to_display_string).collect();
            assert_eq!(
                messages,
                vec![
                    "Cyclic @requires dependency on type T involving field a".to_string(),
                    "Cyclic @requires dependency on type T involving field b".to_string(),
                ]
            );
        }
    }
}

#[test]
fn acyclic_requires_passes_satisfiability() {
    let t = TypeDef::Object(ObjectDef {
        name: "T".to_string(),
        description: None,
        is_interface: false,
        fields: vec![requiring_field("a", "Int", "b"), plain_field("b", "Int")],
        keys: vec![],
    });
    let mut query = query_doc(vec![t]);
    match &mut query.types[0] {
        TypeDef::Object(q) => q.fields.push(plain_field("t", "T")),
        _ => unreachable!(),
    }
    let s = subgraph("one", "http://one", query);
    assert!(compose(vec![s]).is_ok(), "a one-way @requires chain is fine");
}

#[test]
fn conflicting_descriptions_yield_one_description_and_a_hint() {
    let mut d1 = query_doc(vec![]);
    match &mut d1.types[0] {
        TypeDef::Object(q) => q.description = Some("First description".to_string()),
        _ => unreachable!(),
    }
    let mut d2 = query_doc(vec![]);
    match &mut d2.types[0] {
        TypeDef::Object(q) => q.description = Some("Second description".to_string()),
        _ => unreachable!(),
    }
    let s1 = subgraph("one", "http://one", d1);
    let s2 = subgraph("two", "http://two", d2);
    let supergraph = compose(vec![s1, s2]).unwrap();
    match type_named(supergraph.schema(), "Query").unwrap() {
        TypeDef::Object(o) => {
            assert_eq!(
                o.description.as_deref(),
                Some("First description"),
                "the first non-empty description is chosen, never a concatenation"
            );
        }
        _ => panic!("Query should be an object"),
    }
    let hints: Vec<String> = supergraph
        .hints()
        .iter()
        .map(|h| h.message().clone())
        .collect();
    assert_eq!(
        hints,
        vec!["Inconsistent descriptions for type Query; using the first".to_string()]
    );
}

#[test]
fn duplicate_name_message_is_exact() {
    let s1 = subgraph("duplicate", "http://one", query_doc(vec![]));
    let s2 = subgraph("duplicate", "http://two", query_doc(vec![]));
    match compose(vec![s1, s2]) {
        Ok(_) => panic!("duplicate names must fail composition"),
        Err(errors) => {
            assert_eq!(errors.len(), 1);
            assert_eq!(
                errors[0].to_display_string(),
                "Duplicate subgraph name: duplicate"
            );
        }
    }
}

#[test]
fn empty_subgraph_list_fails_composition() {
    let empty: Vec<Subgraph<Initial>> = vec![];
    match compose(empty) {
        Ok(_) => panic!("an empty subgraph list must fail composition"),
        Err(errors) => {
            assert_eq!(errors.len(), 1);
            assert_eq!(
                errors[0].to_display_string(),
                "Cannot compose with empty subgraphs list"
            );
        }
    }
}

#[test]
fn rendered_text_is_exact() {
    let doc = query_doc(vec![TypeDef::Union(UnionDef {
        name: "U".to_string(),
        description: None,
        members: vec!["S".to_string(), "T".to_string()],
    })]);
    let sdl = render_sdl(&doc);
    assert_eq!(
        sdl,
        "type Query {\n  hello: String\n}\n\nunion U = S | T\n\n"
    );
}

#[test]
fn error_messages_are_reported_for_every_failed_subgraph() {
    // The error collector gathers the failures of all subgraphs, not
    // only the first one.
    let s1 = Subgraph::new(
        "one".to_string(),
        "http://one".to_string(),
        query_doc(vec![]),
        vec!["@nope".to_string()],
    );
    let s2 = Subgraph::new(
        "two".to_string(),
        "http://two".to_string(),
        query_doc(vec![]),
        vec!["@key".to_string(), "@wrong".to_string()],
    );
    match expand_subgraphs(vec![s1, s2]) {
        Ok(_) => panic!("both subgraphs must fail expansion"),
        Err(errors) => {
            let messages: Vec<String> = errors.iter().map(CompositionError::to_display_string).collect();
            assert_eq!(
                messages,
                vec![
                    "Invalid @link import: @nope".to_string(),
                    "Invalid @link import: @wrong".to_string(),
                ]
            );
        }
    }
}

#[test]
fn field_set_parse_splits_on_whitespace_and_commas() {
    let fs = FieldSet::parse("sku name").expect("two plain names must parse");
    assert_eq!(fs.fields, vec!["sku".to_string(), "name".to_string()]);
    let fs = FieldSet::parse(" a,\tb ").expect("commas and whitespace separate names");
    assert_eq!(fs.fields, vec!["a".to_string(), "b".to_string()]);
    let fs = FieldSet::parse("").expect("an empty selection parses to no names");
    assert!(fs.fields.is_empty());
}

#[test]
fn field_set_parse_rejects_an_invalid_name() {
    match FieldSet::parse("sku 9bad") {
        Ok(_) => panic!("a selection with an invalid name must not parse"),
        Err(e) => {
            assert_eq!(
                e.to_display_string(),
                "Invalid field name in selection: 9bad"
            );
        }
    }
}
