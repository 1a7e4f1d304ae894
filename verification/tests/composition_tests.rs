use apollo_compiler::Schema;
use apollo_compiler::ast;
use apollo_compiler::schema::ExtendedType;
use apollo_federation::FieldDef;
use apollo_federation::FieldSet;
use apollo_federation::FieldType;
use apollo_federation::SchemaDoc;
use apollo_federation::TypeDef;
use apollo_federation::composition::CompositionOptions;
use apollo_federation::composition::compose;
use apollo_federation::composition::compose_with_options;
use apollo_federation::composition::post_merge_validations;
use apollo_federation::composition::pre_merge_validations;
use apollo_federation::composition::upgrade_subgraphs_if_necessary;
use apollo_federation::model::EnumDef;
use apollo_federation::model::ObjectDef;
use apollo_federation::model::UnionDef;
use apollo_federation::render_sdl;
use apollo_federation::subgraph::Initial;
use apollo_federation::subgraph::Subgraph;
use apollo_federation::subgraph::Validated;
use apollo_federation::supergraph::Merged;
use apollo_federation::supergraph::Supergraph;

fn convert_field_type(t: &ast::Type) -> FieldType {
    match t {
        ast::Type::Named(n) => FieldType { base: n.as_str().to_string(), non_null: false, list: false },
        ast::Type::NonNullNamed(n) => {
            FieldType { base: n.as_str().to_string(), non_null: true, list: false }
        }
        ast::Type::List(inner) => {
            let base = convert_field_type(inner).base;
            FieldType { base, non_null: false, list: true }
        }
        ast::Type::NonNullList(inner) => {
            let base = convert_field_type(inner).base;
            FieldType { base, non_null: true, list: true }
        }
    }
}

fn field_set_from_text(text: &str) -> FieldSet {
    match FieldSet::parse(text) {
        Ok(fs) => fs,
        // An invalid name is kept raw so the subgraph validator reports it.
        Err(_) => FieldSet::new(text.split_whitespace().map(|s| s.to_string()).collect()),
    }
}

fn convert_fields(
    fields: &apollo_compiler::collections::IndexMap<
        apollo_compiler::Name,
        apollo_compiler::schema::Component<ast::FieldDefinition>,
    >,
) -> Vec<FieldDef> {
    let mut out = Vec::new();
    for (name, field) in fields.iter() {
        let requires = field
            .directives
            .iter()
            .find(|d| d.name.as_str() == "requires")
            .and_then(|d| d.specified_argument_by_name("fields"))
            .and_then(|v| v.as_str())
            .map(field_set_from_text);
        let provides = field
            .directives
            .iter()
            .find(|d| d.name.as_str() == "provides")
            .and_then(|d| d.specified_argument_by_name("fields"))
            .and_then(|v| v.as_str())
            .map(field_set_from_text);
        out.push(FieldDef {
            name: name.as_str().to_string(),
            ty: convert_field_type(&field.ty),
            external: field.directives.iter().any(|d| d.name.as_str() == "external"),
            shareable: field.directives.iter().any(|d| d.name.as_str() == "shareable"),
            requires,
            provides,
        });
    }
    out
}

fn convert_keys(directives: &apollo_compiler::schema::DirectiveList) -> Vec<FieldSet> {
    directives
        .0
        .iter()
        .filter(|d| d.name.as_str() == "key")
        .filter_map(|d| d.specified_argument_by_name("fields"))
        .filter_map(|v| v.as_str())
        .map(field_set_from_text)
        .collect()
}

fn convert_description(d: &Option<apollo_compiler::Node<str>>) -> Option<String> {
    d.as_ref().map(|t| t.to_string())
}

/// Parses GraphQL SDL into the library's schema document, plus the
/// directive names imported through `@link`.
fn extract_link_imports(sdl: &str) -> Vec<String> {
    let doc = match ast::Document::parse(sdl, "schema.graphql") {
        Ok(d) => d,
        Err(e) => e.partial,
    };
    let mut imports: Vec<String> = Vec::new();
    for def in &doc.definitions {
        let directives = match def {
            ast::Definition::SchemaDefinition(s) => &s.directives,
            ast::Definition::SchemaExtension(e) => &e.directives,
            _ => continue,
        };
        for d in directives.iter() {
            if d.name.as_str() == "link" {
                if let Some(value) = d.specified_argument_by_name("import") {
                    if let Some(items) = value.as_list() {
                        for item in items {
                            if let Some(s) = item.as_str() {
                                imports.push(s.to_string());
                            }
                        }
                    }
                }
            }
        }
    }
    imports
}

fn parse_schema_doc(sdl: &str) -> (SchemaDoc, Vec<String>) {
    // A lone `extend schema @link(...)` is normal in a subgraph document,
    // so a partial build is accepted as the federation toolchain does.
    let schema = match Schema::parse(sdl, "schema.graphql") {
        Ok(s) => s,
        Err(e) => e.partial,
    };
    let mut types: Vec<TypeDef> = Vec::new();
    for (name, ty) in schema.types.iter() {
        if ty.is_built_in() {
            continue;
        }
        match ty {
            ExtendedType::Object(o) => types.push(TypeDef::Object(ObjectDef {
                name: name.as_str().to_string(),
                description: convert_description(&o.description),
                is_interface: false,
                fields: convert_fields(&o.fields),
                keys: convert_keys(&o.directives),
            })),
            ExtendedType::Interface(i) => types.push(TypeDef::Object(ObjectDef {
                name: name.as_str().to_string(),
                description: convert_description(&i.description),
                is_interface: true,
                fields: convert_fields(&i.fields),
                keys: convert_keys(&i.directives),
            })),
            ExtendedType::Union(u) => types.push(TypeDef::Union(UnionDef {
                name: name.as_str().to_string(),
                description: convert_description(&u.description),
                members: u.members.iter().map(|m| m.name.as_str().to_string()).collect(),
            })),
            ExtendedType::Enum(e) => types.push(TypeDef::Enum(EnumDef {
                name: name.as_str().to_string(),
                description: convert_description(&e.description),
                values: e.values.keys().map(|v| v.as_str().to_string()).collect(),
            })),
            _ => {}
        }
    }
    let query_root = schema
        .schema_definition
        .query
        .as_ref()
        .map(|c| c.name.as_str().to_string());
    let imports = extract_link_imports(sdl);
    (SchemaDoc::new(query_root, types), imports)
}

fn parse_subgraph(name: &str, url: &str, sdl: &str) -> Subgraph<Initial> {
    let (doc, imports) = parse_schema_doc(sdl);
    Subgraph::new(name.to_string(), url.to_string(), doc, imports)
}

fn type_named<'a>(doc: &'a SchemaDoc, name: &str) -> Option<&'a TypeDef> {
    doc.types.iter().find(|t| match t {
        TypeDef::Object(o) => o.name == name,
        TypeDef::Enum(e) => e.name == name,
        TypeDef::Union(u) => u.name == name,
    })
}

#[test]
fn can_compose_supergraph() {
    let s1 = parse_subgraph(
        "Subgraph1",
        "https://subgraph1",
        r#"
        type Query {
            t: T
        }

        type T @key(fields: "k") {
            k: ID
        }

        type S {
            x: Int
        }

        union U = S | T
        "#,
    );
    let s2 = parse_subgraph(
        "Subgraph2",
        "https://subgraph2",
        r#"
        type T @key(fields: "k") {
            k: ID
            a: Int
            b: String
        }

        enum E {
            V1
            V2
        }
        "#,
    );
    let supergraph = compose(vec![s1, s2]).unwrap();
    let schema = supergraph.schema();
    let t = type_named(schema, "T").expect("merged schema should keep T");
    match t {
        TypeDef::Object(o) => {
            let names: Vec<&str> = o.fields.iter().map(|f| f.name.as_str()).collect();
            assert!(names.contains(&"k") && names.contains(&"a") && names.contains(&"b"));
        }
        _ => panic!("T should merge as an object type"),
    }
    match type_named(schema, "U").expect("merged schema should keep U") {
        TypeDef::Union(u) => {
            assert_eq!(u.members, vec!["S".to_string(), "T".to_string()]);
        }
        _ => panic!("U should merge as a union type"),
    }
}

#[test]
fn can_compose_with_descriptions() {
    let s1 = parse_subgraph(
        "Subgraph1",
        "https://subgraph1",
        r#"
        "The foo directive description"
        directive @foo(url: String) on FIELD

        "A cool schema"
        schema {
            query: Query
        }

        """
        Available queries
        Not much yet
        """
        type Query {
            "Returns tea"
            t("An argument that is very important" x: String!): String
        }
        "#,
    );
    let s2 = parse_subgraph(
        "Subgraph2",
        "https://subgraph2",
        r#"
        "The foo directive description"
        directive @foo(url: String) on FIELD

        "An enum"
        enum E {
            "The A value"
            A
            "The B value"
            B
        }
        "#,
    );
    let supergraph = compose(vec![s1, s2]).unwrap();
    let schema = supergraph.schema();
    match type_named(schema, "Query").expect("Query type should be kept") {
        TypeDef::Object(o) => {
            let d = o.description.as_ref().expect("description should be kept");
            assert!(d.contains("Available queries"));
        }
        _ => panic!("Query should be an object type"),
    }
    match type_named(schema, "E").expect("E should be kept") {
        TypeDef::Enum(e) => {
            assert_eq!(e.description.as_deref(), Some("An enum"));
            assert_eq!(e.values, vec!["A".to_string(), "B".to_string()]);
        }
        _ => panic!("E should be an enum type"),
    }
}

#[test]
fn can_compose_types_from_different_subgraphs() {
    let s1 = parse_subgraph(
        "SubgraphA",
        "https://subgraphA",
        r#"
        type Query {
            products: [Product!]
        }

        type Product {
            sku: String!
            name: String!
        }
        "#,
    );
    let s2 = parse_subgraph(
        "SubgraphB",
        "https://subgraphB",
        r#"
        type User {
            name: String
            email: String!
        }
        "#,
    );
    let supergraph = compose(vec![s1, s2]).unwrap();
    let schema = supergraph.schema();
    assert!(type_named(schema, "Product").is_some());
    assert!(type_named(schema, "User").is_some());
    assert!(type_named(schema, "Query").is_some());
}

#[test]
fn compose_removes_federation_directives() {
    let s1 = parse_subgraph(
        "SubgraphA",
        "https://subgraphA",
        r#"
        extend schema @link(url: "https://specs.apollo.dev/federation/v2.5", import: [ "@key", "@provides", "@external" ])

        type Query {
            products: [Product!] @provides(fields: "name")
        }

        type Product @key(fields: "sku") {
            sku: String!
            name: String! @external
        }
        "#,
    );
    let s2 = parse_subgraph(
        "SubgraphB",
        "https://subgraphB",
        r#"
        extend schema @link(url: "https://specs.apollo.dev/federation/v2.5", import: [ "@key", "@shareable" ])

        type Product @key(fields: "sku") {
            sku: String!
            name: String! @shareable
        }
        "#,
    );
    let supergraph = compose(vec![s1, s2]).unwrap();
    let schema = supergraph.schema();
    let product_count = schema
        .types
        .iter()
        .filter(|t| match t {
            TypeDef::Object(o) => o.name == "Product",
            _ => false,
        })
        .count();
    assert_eq!(product_count, 1, "exactly one merged Product type");
    match type_named(schema, "Product").unwrap() {
        TypeDef::Object(o) => {
            let names: Vec<&str> = o.fields.iter().map(|f| f.name.as_str()).collect();
            assert!(names.contains(&"sku") && names.contains(&"name"));
            assert!(o.keys.is_empty(), "merged Product must not carry @key");
            assert!(o.fields.iter().all(|f| !f.external && !f.shareable));
        }
        _ => panic!("Product should be an object type"),
    }
    let sdl = render_sdl(schema);
    assert!(!sdl.contains("@key"));
    assert!(!sdl.contains("@external"));
    assert!(!sdl.contains("@shareable"));
    assert!(!sdl.contains("@provides"));
}

#[test]
fn test_pre_merge_validations_empty_subgraphs() {
    let empty_subgraphs: Vec<Subgraph<Validated>> = vec![];
    let result = pre_merge_validations(&empty_subgraphs);

    match result {
        Ok(_) => panic!("Should fail with empty subgraphs"),
        Err(errors) => {
            assert!(!errors.is_empty(), "Should have at least one error");
            let error_messages: Vec<String> =
                errors.iter().map(|e| e.to_display_string()).collect();
            assert!(
                error_messages.iter().any(|msg| msg.contains("empty subgraphs")),
                "Should contain error about empty subgraphs, got: {:?}",
                error_messages
            );
        }
    }
}

#[test]
fn test_pre_merge_validations_success() {
    let schema_str = r#"
            type Query {
                hello: String
            }
        "#;

    let subgraph = parse_subgraph("test", "http://localhost:4000", schema_str)
        .expand_links()
        .expect("Failed to expand links");

    let upgraded_subgraphs =
        upgrade_subgraphs_if_necessary(vec![subgraph]).expect("Failed to upgrade subgraph");

    let validated_subgraph = upgraded_subgraphs
        .into_iter()
        .next()
        .expect("Should have one subgraph")
        .validate()
        .expect("Failed to validate subgraph");

    let subgraphs = vec![validated_subgraph];
    let result = pre_merge_validations(&subgraphs);

    assert!(
        result.is_ok(),
        "pre_merge_validations should succeed with valid subgraphs"
    );
}

#[test]
fn test_post_merge_validations_success() {
    let schema_str = r#"
            type Query {
                hello: String
            }
        "#;

    let (doc, _imports) = parse_schema_doc(schema_str);
    let supergraph = Supergraph::<Merged>::new(doc);

    let result = post_merge_validations(&supergraph);
    assert!(
        result.is_ok(),
        "post_merge_validations should succeed with valid supergraph"
    );
}

#[test]
fn test_post_merge_validations_comprehensive() {
    let schema_str = r#"
            type Query {
                user(id: ID!): User
                users: [User!]!
            }

            type Mutation {
                createUser(input: UserInput!): User
            }

            type User {
                id: ID!
                name: String!
                email: String
            }

            input UserInput {
                name: String!
                email: String
            }
        "#;

    let (doc, _imports) = parse_schema_doc(schema_str);
    let supergraph = Supergraph::<Merged>::new(doc);

    let result = post_merge_validations(&supergraph);
    assert!(
        result.is_ok(),
        "post_merge_validations should succeed with comprehensive valid supergraph"
    );
}

#[test]
fn test_composition_options() {
    let default_options = CompositionOptions::default();
    assert!(
        default_options.run_satisfiability,
        "Default should enable satisfiability"
    );

    let custom_options = CompositionOptions {
        run_satisfiability: false,
    };
    assert!(
        !custom_options.run_satisfiability,
        "Custom options should work"
    );
}

#[test]
fn test_pre_merge_validations_duplicate_names() {
    let schema_str = r#"
            type Query {
                hello: String
            }
        "#;

    let subgraph1 = parse_subgraph("duplicate", "http://localhost:4000", schema_str)
        .expand_links()
        .expect("Failed to expand links");

    let subgraph2 = parse_subgraph("duplicate", "http://localhost:4001", schema_str)
        .expand_links()
        .expect("Failed to expand links");

    let upgraded_subgraphs = upgrade_subgraphs_if_necessary(vec![subgraph1, subgraph2])
        .expect("Failed to upgrade subgraphs");

    let validated_subgraphs: Vec<Subgraph<Validated>> = upgraded_subgraphs
        .into_iter()
        .map(|s| s.validate().expect("Failed to validate subgraph"))
        .collect();

    let result = pre_merge_validations(&validated_subgraphs);

    match result {
        Ok(_) => panic!("Should fail with duplicate subgraph names"),
        Err(errors) => {
            assert!(!errors.is_empty(), "Should have at least one error");
            let error_messages: Vec<String> =
                errors.iter().map(|e| e.to_display_string()).collect();
            assert!(
                error_messages
                    .iter()
                    .any(|msg| msg.contains("Duplicate subgraph name")),
                "Should contain error about duplicate subgraph names, got: {:?}",
                error_messages
            );
        }
    }
}
