use json_schema_catalog::check::check_embedded_id;
use json_schema_catalog::{
    catalog_from_groups, index_catalogs, group_from_meta, group_from_schema, group_key, join_path, rewrite_refs,
    Catalog, CatalogError, CatalogGroup, CheckOptions, EmbeddedId, GroupError, Index, Json,
    RewriteError, Schema, SchemaError, SchemaFile, SynthesisError,
};
use json_schema_catalog::json::SchemaMeta;

fn schema(id: &str, location: &str) -> Schema {
    Schema { id: id.to_string(), location: location.to_string() }
}

fn group(name: &str, base_location: &str, schemas: Vec<Schema>) -> CatalogGroup {
    CatalogGroup { name: name.to_string(), base_location: base_location.to_string(), schemas }
}

fn catalog(name: &str, groups: Vec<CatalogGroup>) -> Catalog {
    Catalog { name: name.to_string(), groups }
}

fn example_catalog() -> Catalog {
    catalog(
        "Example",
        vec![group(
            "Catalog schemas",
            "../vendor",
            vec![schema(
                "https://schema.example.com/schema/schema_catalog_schema.json",
                "schema_catalog_schema.json",
            )],
        )],
    )
}

fn same_group(a: &CatalogGroup, b: &CatalogGroup) -> bool {
    a.name == b.name && a.base_location == b.base_location && a.schemas == b.schemas
}

fn same_catalog(a: &Catalog, b: &Catalog) -> bool {
    a.name == b.name
        && a.groups.len() == b.groups.len()
        && a.groups.iter().zip(b.groups.iter()).all(|(x, y)| same_group(x, y))
}

fn text_file(s: &str) -> SchemaFile {
    SchemaFile::Text(s.to_string())
}

#[test]
fn test_lookup() {
    let mut index = Index::new();
    example_catalog().index("test", &mut index);
    assert_eq!(
        index.get_path("https://schema.example.com/schema/schema_catalog_schema.json"),
        Some("test/../vendor/schema_catalog_schema.json".to_string())
    );
}

#[test]
fn lookup_of_unknown_id_is_none() {
    let mut index = Index::new();
    example_catalog().index("test", &mut index);
    assert_eq!(index.get_path("https://schema.example.com/schema/other.json"), None);
    assert_eq!(Index::new().get_path(""), None);
}

#[test]
fn grouping() {
    let doc = |id: &str, title: &str| -> serde_json::Value {
        serde_json::from_str(&format!(
            "{{\"$schema\": \"http://json-schema.org/draft-07/schema#\", \"$id\": \"{}\", \"title\": \"{}\"}}",
            id, title
        ))
        .unwrap()
    };
    let a = group_from_schema("test/example.json", &doc("https://schema.example.com/schema/A.json", "Catalog"));
    let b = group_from_schema("test/example.json", &doc("https://schema.example.com/schema/B.json", "Catalog"));
    let c_a = group_from_schema("test/c/a.json", &doc("https://schema.example.com/schema/C/A.json", "Catalog C"));
    let c_b = group_from_schema("test/cb.json", &doc("https://schema.example.com/schema/C/B.json", "Catalog Cee"));
    let d = group_from_schema("test/dee/example.json", &doc("https://schema.example.com/schema/D.json", "Catalog"));
    let groups = vec![
        a.ok().unwrap(),
        b.ok().unwrap(),
        c_a.ok().unwrap(),
        c_b.ok().unwrap(),
        d.ok().unwrap(),
    ];
    let merged = catalog_from_groups("foo".to_string(), groups);
    let expected = catalog(
        "foo",
        vec![
            group(
                "Catalog",
                "test",
                vec![
                    schema("https://schema.example.com/schema/A.json", "example.json"),
                    schema("https://schema.example.com/schema/B.json", "example.json"),
                ],
            ),
            group("Catalog Cee", "test", vec![schema("https://schema.example.com/schema/C/B.json", "cb.json")]),
            group("Catalog C", "test/c", vec![schema("https://schema.example.com/schema/C/A.json", "a.json")]),
            group("Catalog", "test/dee", vec![schema("https://schema.example.com/schema/D.json", "example.json")]),
        ],
    );
    assert!(same_catalog(&merged, &expected));
}

#[test]
fn index_composes_three_segments() {
    let c = catalog(
        "c",
        vec![
            group("g", "schemas", vec![schema("a", "a.json"), schema("b", "sub/b.json")]),
            group("h", "/abs/dir", vec![schema("c", "c.json")]),
            group("k", "trail/", vec![schema("d", "d.json")]),
        ],
    );
    let mut index = Index::new();
    c.index("base", &mut index);
    assert_eq!(index.get_path("a"), Some("base/schemas/a.json".to_string()));
    assert_eq!(index.get_path("b"), Some("base/schemas/sub/b.json".to_string()));
    assert_eq!(index.get_path("c"), Some("/abs/dir/c.json".to_string()));
    assert_eq!(index.get_path("d"), Some("base/trail/d.json".to_string()));
}

#[test]
fn later_catalog_overwrites_earlier() {
    let a = catalog("A", vec![group("g", "va", vec![schema("X", "x-a.json"), schema("Y", "y.json")])]);
    let b = catalog("B", vec![group("g", "vb", vec![schema("X", "x-b.json")])]);
    let mut index = Index::new();
    a.index("da", &mut index);
    b.index("db", &mut index);
    assert_eq!(index.get_path("X"), Some("db/vb/x-b.json".to_string()));
    assert_eq!(index.get_path("Y"), Some("da/va/y.json".to_string()));
}

#[test]
fn join_path_cases() {
    assert_eq!(join_path("test", "../vendor"), "test/../vendor");
    assert_eq!(join_path("test/", "a.json"), "test/a.json");
    assert_eq!(join_path("", "a.json"), "a.json");
    assert_eq!(join_path("test", "/abs.json"), "/abs.json");
    assert_eq!(join_path("test", ""), "test/");
}

#[test]
fn group_key_is_base_location_then_name() {
    let g = group("name", "dir", vec![]);
    assert_eq!(group_key(&g), ("dir".to_string(), "name".to_string()));
}

#[test]
fn merge_is_invariant_under_permutation() {
    let g1 = || group("G", "d", vec![schema("b", "b.json"), schema("a", "a.json")]);
    let g2 = || group("G", "d", vec![schema("c", "c.json")]);
    let g3 = || group("F", "d", vec![schema("z", "z.json")]);
    let g4 = || group("A", "e", vec![schema("y", "y.json")]);
    let one = catalog_from_groups("n".to_string(), vec![g1(), g2(), g3(), g4()]);
    let two = catalog_from_groups("n".to_string(), vec![g4(), g2(), g3(), g1()]);
    let three = catalog_from_groups("n".to_string(), vec![g3(), g1(), g4(), g2()]);
    assert!(same_catalog(&one, &two));
    assert!(same_catalog(&one, &three));
    assert_eq!(one.groups.len(), 3);
    assert_eq!(one.groups[0].name, "F");
    assert_eq!(one.groups[1].name, "G");
    assert_eq!(one.groups[2].name, "A");
}

#[test]
fn merge_joins_groups_with_equal_key() {
    let a = group("G", "d", vec![schema("m", "m.json"), schema("k", "k.json")]);
    let b = group("G", "d", vec![schema("l", "l.json"), schema("a", "a.json")]);
    let c = catalog_from_groups("n".to_string(), vec![a, b]);
    assert_eq!(c.name, "n");
    assert_eq!(c.groups.len(), 1);
    assert_eq!(
        c.groups[0].schemas,
        vec![schema("a", "a.json"), schema("k", "k.json"), schema("l", "l.json"), schema("m", "m.json")]
    );
}

#[test]
fn merge_orders_equal_ids_by_location() {
    let a = || group("G", "d", vec![schema("x", "second.json")]);
    let b = || group("G", "d", vec![schema("x", "first.json")]);
    let one = catalog_from_groups("n".to_string(), vec![a(), b()]);
    let two = catalog_from_groups("n".to_string(), vec![b(), a()]);
    assert_eq!(one.groups[0].schemas, vec![schema("x", "first.json"), schema("x", "second.json")]);
    assert!(same_catalog(&one, &two));
}

#[test]
fn merge_of_nothing_is_empty() {
    let c = catalog_from_groups("empty".to_string(), vec![]);
    assert_eq!(c.name, "empty");
    assert!(c.groups.is_empty());
}

#[test]
fn check_rejects_empty_group_name() {
    let c = catalog("c", vec![group("", "vendor", vec![schema("a", "a.json")])]);
    let files = vec![vec![text_file("{}")]];
    let r = c.check(&CheckOptions::new(), "test/example.json", &files);
    match r {
        Err(CatalogError::InCatalog { catalog, file, cause: GroupError::NameEmpty }) => {
            assert_eq!(catalog, "c");
            assert_eq!(file, "test/example.json");
        }
        _ => panic!("expected an empty group name"),
    }
}

#[test]
fn check_rejects_empty_base_location() {
    let g = group("g", "", vec![]);
    assert!(matches!(g.check(&CheckOptions::new(), "test", &vec![]), Err(GroupError::BaseLocationEmpty)));
}

#[test]
fn check_names_missing_file() {
    let c = catalog("c", vec![group("g", "vendor", vec![schema("a", "missing.json")])]);
    let files = vec![vec![SchemaFile::Inaccessible("No such file or directory".to_string())]];
    let r = c.check(&CheckOptions::new(), "test/example.json", &files);
    match r {
        Err(CatalogError::InCatalog {
            cause: GroupError::InGroup { group, cause: SchemaError::Inaccessible { path, reason } },
            ..
        }) => {
            assert_eq!(group, "g");
            assert_eq!(path, "test/vendor/missing.json");
            assert_eq!(reason, "No such file or directory");
        }
        _ => panic!("expected a missing file"),
    }
}

#[test]
fn check_schema_errors() {
    let opts = CheckOptions::new();
    let ok = text_file("{\"id\": \"a\"}");
    assert!(matches!(schema("", "a.json").check(&opts, "d", &ok), Err(SchemaError::IdEmpty)));
    assert!(matches!(schema("a", "").check(&opts, "d", &ok), Err(SchemaError::LocationEmpty)));
    assert!(matches!(
        schema("a", "a.json").check(&opts, "d", &SchemaFile::Unreadable("bad".to_string())),
        Err(SchemaError::Unreadable { .. })
    ));
    match schema("a", "a.json").check(&opts, "d", &text_file("{not json")) {
        Err(SchemaError::NotJson { path, .. }) => assert_eq!(path, "d/a.json"),
        _ => panic!("expected a parse failure"),
    }
    assert!(schema("a", "a.json").check(&opts, "d", &ok).is_ok());
    assert!(schema("a", "a.json").check(&opts, "d", &text_file("{\"title\": \"t\"}")).is_ok());
    match schema("a", "a.json").check(&opts, "d", &text_file("{\"id\": \"b\"}")) {
        Err(SchemaError::IdMismatch { recorded, found, path }) => {
            assert_eq!(recorded, "a");
            assert_eq!(found, "b");
            assert_eq!(path, "d/a.json");
        }
        _ => panic!("expected an id mismatch"),
    }
    let lax = CheckOptions { require_matching_id: false };
    assert!(schema("a", "a.json").check(&lax, "d", &text_file("{\"id\": \"b\"}")).is_ok());
}

#[test]
fn check_passes_good_catalog() {
    let c = catalog("c", vec![group("g", "vendor", vec![schema("a", "a.json"), schema("b", "b.json")])]);
    let files = vec![vec![text_file("{\"id\": \"a\"}"), text_file("{}")]];
    assert!(c.check(&CheckOptions::default(), "test/example.json", &files).is_ok());
}

#[test]
fn check_without_parent_directory_fails() {
    let c = catalog("c", vec![]);
    assert!(matches!(c.check(&CheckOptions::new(), "", &vec![]), Err(CatalogError::NoParentDir { .. })));
}

#[test]
fn embedded_id_comparison() {
    let rec = "a".to_string();
    let path = "p".to_string();
    assert!(check_embedded_id(&rec, EmbeddedId::Absent, &path).is_ok());
    assert!(check_embedded_id(&rec, EmbeddedId::Str("a".to_string()), &path).is_ok());
    assert!(check_embedded_id(&rec, EmbeddedId::Str("b".to_string()), &path).is_err());
    assert!(check_embedded_id(&rec, EmbeddedId::Other("1".to_string()), &path).is_err());
}

#[test]
fn default_options_require_matching_id() {
    assert!(CheckOptions::new().require_matching_id);
    assert!(CheckOptions::default().require_matching_id);
}

#[test]
fn synthesis_errors() {
    let meta = |id: Option<&str>, title: Option<&str>| -> Result<SchemaMeta, String> {
        Ok(SchemaMeta { id: id.map(|s| s.to_string()), title: title.map(|s| s.to_string()) })
    };
    assert!(matches!(group_from_meta("a/b.json", meta(None, Some("t"))), Err(SynthesisError::NoId { .. })));
    assert!(matches!(group_from_meta("a/b.json", meta(Some("i"), None)), Err(SynthesisError::NoTitle { .. })));
    assert!(matches!(group_from_meta("", meta(Some("i"), Some("t"))), Err(SynthesisError::NoParentDir { .. })));
    assert!(matches!(group_from_meta("a/..", meta(Some("i"), Some("t"))), Err(SynthesisError::NoFileName { .. })));
    assert!(matches!(
        group_from_meta("a/b.json", Err("bad".to_string())),
        Err(SynthesisError::NotSchema { .. })
    ));
    let g = group_from_meta("a/b.json", meta(Some("i"), Some("t"))).ok().unwrap();
    assert!(same_group(&g, &group("t", "a", vec![schema("i", "b.json")])));
    let top = group_from_meta("b.json", meta(Some("i"), Some("t"))).ok().unwrap();
    assert_eq!(top.base_location, "");
    assert_eq!(top.schemas[0].location, "b.json");
}

#[test]
fn synthesis_without_id_fails() {
    let v: serde_json::Value = serde_json::from_str("{\"title\": \"T\"}").unwrap();
    assert!(matches!(group_from_schema("x/y.json", &v), Err(SynthesisError::NoId { .. })));
}

fn s(t: &str) -> Json {
    Json::Str(t.to_string())
}

fn obj(members: Vec<(&str, Json)>) -> Json {
    Json::Object(members.into_iter().map(|(k, v)| (k.to_string(), v)).collect())
}

fn rewrite_index() -> Index {
    let mut index = Index::new();
    catalog("c", vec![group("g", "vendor", vec![schema("https://example.com/A.json", "a.json")])])
        .index("", &mut index);
    index
}

fn as_member<'a>(j: &'a Json, key: &str) -> &'a Json {
    match j {
        Json::Object(m) => &m.iter().find(|(k, _)| k == key).unwrap().1,
        _ => panic!("not an object"),
    }
}

fn as_str(j: &Json) -> &str {
    match j {
        Json::Str(t) => t,
        _ => panic!("not a string"),
    }
}

#[test]
fn rewrite_replaces_known_references() {
    let index = rewrite_index();
    let doc = obj(vec![
        ("$ref", s("https://example.com/A.json")),
        ("other", obj(vec![("$schema", s("https://example.com/A.json"))])),
    ]);
    let out = rewrite_refs(&index, &doc, false).ok().unwrap();
    assert_eq!(as_str(as_member(&out, "$ref")), "vendor/a.json");
    assert_eq!(as_str(as_member(as_member(&out, "other"), "$schema")), "vendor/a.json");
}

#[test]
fn rewrite_fails_on_unknown_reference() {
    let index = rewrite_index();
    let doc = obj(vec![("items", Json::Array(vec![obj(vec![("$ref", s("https://example.com/B.json"))])]))]);
    match rewrite_refs(&index, &doc, false) {
        Err(RewriteError::UnknownId { id }) => assert_eq!(id, "https://example.com/B.json"),
        _ => panic!("expected an unknown id"),
    }
}

#[test]
fn rewrite_ignores_unknown_reference_when_asked() {
    let index = rewrite_index();
    let doc = obj(vec![
        ("$ref", s("https://example.com/B.json")),
        ("$schema", s("https://example.com/A.json")),
        ("n", Json::Number("1.5".to_string())),
        ("id", s("https://example.com/A.json")),
    ]);
    let out = rewrite_refs(&index, &doc, true).ok().unwrap();
    assert_eq!(as_str(as_member(&out, "$ref")), "https://example.com/B.json");
    assert_eq!(as_str(as_member(&out, "$schema")), "vendor/a.json");
    assert_eq!(as_str(as_member(&out, "id")), "https://example.com/A.json");
    assert!(matches!(as_member(&out, "n"), Json::Number(t) if t == "1.5"));
}

#[test]
fn rewrite_reports_first_unknown_reference() {
    let index = rewrite_index();
    let doc = obj(vec![
        ("a", obj(vec![("$schema", s("https://example.com/first.json"))])),
        ("$ref", s("https://example.com/second.json")),
        ("b", Json::Array(vec![obj(vec![("$ref", s("https://example.com/third.json"))])])),
    ]);
    match rewrite_refs(&index, &doc, false) {
        Err(RewriteError::UnknownId { id }) => assert_eq!(id, "https://example.com/first.json"),
        _ => panic!("expected an unknown id"),
    }
}

#[test]
fn rewrite_leaves_non_string_reference_values_to_descent() {
    let index = rewrite_index();
    let doc = obj(vec![("$ref", obj(vec![("$ref", s("https://example.com/A.json"))])), ("x", Json::Null)]);
    let out = rewrite_refs(&index, &doc, false).ok().unwrap();
    assert_eq!(as_str(as_member(as_member(&out, "$ref"), "$ref")), "vendor/a.json");
    assert!(matches!(as_member(&out, "x"), Json::Null));
}

#[test]
fn index_catalogs_in_list_order() {
    let a = catalog("A", vec![group("g", "va", vec![schema("X", "x.json")])]);
    let b = catalog("B", vec![group("g", "vb", vec![schema("X", "x.json")])]);
    let index = index_catalogs(&vec![("da".to_string(), a), ("db".to_string(), b)]);
    assert_eq!(index.get_path("X"), Some("db/vb/x.json".to_string()));
}
