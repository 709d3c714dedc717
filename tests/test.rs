use avrogant::args::{ArgErrorKind, Delimiter, IncludeAvroInput, Literal, TokenTree};
use avrogant::compiler::{
    file_name_for_prefix, rerun_directive, schema_file_name, AvroCompiler, CompileError,
};
use avrogant::config::{GeneratorConfig, ImplementAvroSchema, DEFAULT_PRECISION};
use rsgen_avro::Source;

const PERSON_SCHEMA: &str = r#"{
  "type": "record",
  "name": "Person",
  "fields": [
    {"name": "name", "type": "string"},
    {"name": "age", "type": "int"}
  ]
}"#;

fn s(v: &str) -> TokenTree {
    TokenTree::Literal(Literal::Str(v.to_string()))
}

fn id(v: &str) -> TokenTree {
    TokenTree::Ident(v.to_string())
}

fn int_lit(v: u128) -> TokenTree {
    TokenTree::Literal(Literal::Int(v))
}

fn p(c: char) -> TokenTree {
    TokenTree::Punct(c)
}

fn list(items: &[&str]) -> TokenTree {
    let mut inner = Vec::new();
    for (k, item) in items.iter().enumerate() {
        if k > 0 {
            inner.push(p(','));
        }
        inner.push(s(item));
    }
    TokenTree::Group(Delimiter::Bracket, inner)
}

fn assign(key: &str, value: Vec<TokenTree>) -> Vec<TokenTree> {
    let mut v = vec![id(key), p('=')];
    v.extend(value);
    v
}

fn args(path: &str, assignments: Vec<Vec<TokenTree>>, trailing: usize) -> Vec<TokenTree> {
    let mut v = vec![s(path)];
    for a in assignments {
        v.push(p(','));
        v.extend(a);
    }
    for _ in 0..trailing {
        v.push(p(','));
    }
    v
}

fn is_default(c: &GeneratorConfig) -> bool {
    c.precision == DEFAULT_PRECISION
        && !c.nullable
        && !c.use_avro_rs_unions
        && !c.use_chrono_dates
        && !c.derive_builders
        && c.impl_schemas == ImplementAvroSchema::Omit
        && c.extra_derives.is_empty()
        && c.field_overrides.is_empty()
}

fn generate(config: GeneratorConfig) -> String {
    let generator = AvroCompiler { config }.generator().expect("generator");
    let mut buf = vec![];
    generator.generate(&Source::SchemaStr(PERSON_SCHEMA), &mut buf).expect("generate");
    String::from_utf8(buf).expect("utf-8")
}

fn custom_args() -> Vec<TokenTree> {
    args(
        "tests/person.avsc",
        vec![
            assign("precision", vec![int_lit(4)]),
            assign("impl_avro_schema", vec![id("Derive")]),
            assign("derive_builders", vec![id("true")]),
            assign("use_chrono_dates", vec![id("true")]),
            assign("use_avro_rs_unions", vec![id("true")]),
            assign("extra_derives", vec![list(&["rkyv::Archive", "rkyv::Serialize", "Default"])]),
        ],
        1,
    )
}

#[test]
fn default_macro_call() {
    let input = IncludeAvroInput::parse(&args("tests/person.avsc", vec![], 0)).expect("parse");
    assert_eq!(input.path, "tests/person.avsc");
    assert!(is_default(&input.config));
    let code = generate(input.config);
    assert!(code.contains("pub struct Person"));
}

#[test]
fn custom_macro_call() {
    let input = IncludeAvroInput::parse(&custom_args()).expect("parse");
    assert_eq!(input.path, "tests/person.avsc");
    let c = &input.config;
    assert_eq!(c.precision, 4);
    assert_eq!(c.impl_schemas, ImplementAvroSchema::Derive);
    assert!(c.derive_builders && c.use_chrono_dates && c.use_avro_rs_unions);
    assert_eq!(c.extra_derives, vec!["rkyv::Archive", "rkyv::Serialize", "Default"]);
    let code = generate(input.config);
    assert!(code.contains("derive_builder::Builder"));
    assert!(code.contains("rkyv::Archive, rkyv::Serialize, Default"));
}

#[test]
fn path_alone_gives_default_config() {
    let input = IncludeAvroInput::parse(&args("schemas/*.avsc", vec![], 0)).expect("parse");
    assert_eq!(input.path, "schemas/*.avsc");
    assert!(is_default(&input.config));
    let input = IncludeAvroInput::parse(&args("a.avsc", vec![], 1)).expect("parse");
    assert!(is_default(&input.config));
}

#[test]
fn argument_order_does_not_matter() {
    let a = args(
        "x.avsc",
        vec![
            assign("precision", vec![int_lit(7)]),
            assign("derive_builders", vec![id("true")]),
            assign("extra_derives", vec![list(&["Hash"])]),
        ],
        1,
    );
    let b = args(
        "x.avsc",
        vec![
            assign("derive_builders", vec![id("true")]),
            assign("precision", vec![int_lit(7)]),
            assign("extra_derives", vec![list(&["Hash"])]),
        ],
        1,
    );
    let a = IncludeAvroInput::parse(&a).expect("parse").config;
    let b = IncludeAvroInput::parse(&b).expect("parse").config;
    assert_eq!(a.precision, 7);
    assert_eq!(b.precision, 7);
    assert!(a.derive_builders && b.derive_builders);
    assert_eq!(a.extra_derives, b.extra_derives);
}

#[test]
fn trailing_separators_are_accepted() {
    for n in 0..4 {
        let t = args("x.avsc", vec![assign("use_chrono_dates", vec![id("true")])], n);
        let c = IncludeAvroInput::parse(&t).expect("parse").config;
        assert!(c.use_chrono_dates);
    }
}

#[test]
fn empty_argument_in_the_middle_is_refused() {
    let mut t = args("x.avsc", vec![assign("precision", vec![int_lit(1)])], 1);
    t.extend(vec![p(','), id("nullable")]);
    let e = IncludeAvroInput::parse(&t).err().expect("error");
    assert!(matches!(e.kind, ArgErrorKind::Syntax));
    assert_eq!(e.at, 6);
}

#[test]
fn unknown_option_is_named() {
    let t = args("x.avsc", vec![assign("nullable", vec![id("true")])], 0);
    let e = IncludeAvroInput::parse(&t).err().expect("error");
    match e.kind {
        ArgErrorKind::UnknownOption(k) => assert_eq!(k, "nullable"),
        other => panic!("unexpected {:?}", other),
    }
    assert_eq!(e.at, 2);
}

#[test]
fn wrong_shapes_are_type_errors() {
    let cases = vec![
        assign("precision", vec![id("true")]),
        assign("precision", vec![p('-'), int_lit(1)]),
        assign("precision", vec![s("4")]),
        assign("use_chrono_dates", vec![int_lit(1)]),
        assign("derive_builders", vec![id("yes")]),
        assign("use_avro_rs_unions", vec![s("true")]),
        assign("extra_derives", vec![s("A")]),
        assign("extra_derives", vec![TokenTree::Group(Delimiter::Bracket, vec![s("A"), p(','), int_lit(3)])]),
        assign("extra_derives", vec![TokenTree::Group(Delimiter::Parenthesis, vec![s("A")])]),
        assign("impl_avro_schema", vec![s("Derive")]),
    ];
    for a in cases {
        let e = IncludeAvroInput::parse(&args("x.avsc", vec![a], 0)).err().expect("error");
        assert!(matches!(e.kind, ArgErrorKind::Type));
        assert_eq!(e.at, 4);
    }
}

#[test]
fn wrong_shape_after_valid_arguments_points_at_value() {
    let t = args(
        "x.avsc",
        vec![
            assign("use_chrono_dates", vec![id("true")]),
            assign("derive_builders", vec![int_lit(1)]),
            assign("bogus", vec![int_lit(1)]),
        ],
        0,
    );
    let e = IncludeAvroInput::parse(&t).err().expect("error");
    assert!(matches!(e.kind, ArgErrorKind::Type));
    assert_eq!(e.at, 8);
}

#[test]
fn precision_beyond_usize_is_a_type_error() {
    let t = args("x.avsc", vec![assign("precision", vec![int_lit(u128::MAX)])], 0);
    let e = IncludeAvroInput::parse(&t).err().expect("error");
    assert!(matches!(e.kind, ArgErrorKind::Type));
    assert_eq!(e.at, 4);
}

#[test]
fn configured_fields_round_trip() {
    let t = args(
        "x.avsc",
        vec![
            assign("precision", vec![int_lit(4)]),
            assign("impl_avro_schema", vec![id("Derive")]),
            assign("derive_builders", vec![id("true")]),
            assign("use_chrono_dates", vec![id("true")]),
            assign("use_avro_rs_unions", vec![id("true")]),
            assign("extra_derives", vec![list(&["A", "B"])]),
        ],
        0,
    );
    let c = IncludeAvroInput::parse(&t).expect("parse").config;
    assert_eq!(c.precision, 4);
    assert_eq!(c.impl_schemas, ImplementAvroSchema::Derive);
    assert!(c.derive_builders && c.use_chrono_dates && c.use_avro_rs_unions);
    assert_eq!(c.extra_derives, vec!["A", "B"]);

    let b = AvroCompiler::new()
        .precision(4)
        .implement_avro_schema(ImplementAvroSchema::Derive)
        .derive_builders(true)
        .use_chrono_dates(true)
        .use_avro_rs_unions(true)
        .extra_derives(vec!["A".to_string(), "B".to_string()]);
    assert_eq!(b.config.precision, 4);
    assert_eq!(b.config.impl_schemas, ImplementAvroSchema::Derive);
    assert!(b.config.derive_builders && b.config.use_chrono_dates && b.config.use_avro_rs_unions);
    assert_eq!(b.config.extra_derives, vec!["A", "B"]);
    assert!(!b.config.nullable);
}

#[test]
fn override_fields_is_not_implemented() {
    let t = args("tests/person.avsc", vec![assign("override_fields", vec![TokenTree::Group(Delimiter::Bracket, vec![])])], 0);
    let e = IncludeAvroInput::parse(&t).err().expect("error");
    match e.kind {
        ArgErrorKind::NotImplemented(k) => assert_eq!(k, "override_fields"),
        other => panic!("unexpected {:?}", other),
    }
    let t = args("x.avsc", vec![assign("override_field", vec![id("x")])], 0);
    let e = IncludeAvroInput::parse(&t).err().expect("error");
    assert!(matches!(e.kind, ArgErrorKind::NotImplemented(_)));
}

#[test]
fn enum_variants_by_name_or_path() {
    let cases = vec![
        (vec![id("None")], ImplementAvroSchema::Omit),
        (vec![id("CopyBuildSchema")], ImplementAvroSchema::CopyBuildSchema),
        (vec![id("ImplementAvroSchema"), p(':'), p(':'), id("Derive")], ImplementAvroSchema::Derive),
        (vec![p(':'), p(':'), id("Derive")], ImplementAvroSchema::Derive),
        (vec![p(':'), p(':'), id("a"), p(':'), p(':'), id("None")], ImplementAvroSchema::Omit),
    ];
    for (v, want) in cases {
        let t = args("x.avsc", vec![assign("impl_avro_schema", v)], 0);
        let c = IncludeAvroInput::parse(&t).expect("parse").config;
        assert_eq!(c.impl_schemas, want);
    }
    let t = args("x.avsc", vec![assign("impl_avro_schema", vec![id("Manual")])], 0);
    let e = IncludeAvroInput::parse(&t).err().expect("error");
    match e.kind {
        ArgErrorKind::UnknownVariant(k) => assert_eq!(k, "Manual"),
        other => panic!("unexpected {:?}", other),
    }
    assert_eq!(e.at, 4);
    let t = args("x.avsc", vec![assign("impl_avro_schema", vec![id("a"), p(':'), p(':'), id("Manual")])], 0);
    let e = IncludeAvroInput::parse(&t).err().expect("error");
    assert!(matches!(e.kind, ArgErrorKind::UnknownVariant(_)));
    assert_eq!(e.at, 7);
    let t = args("x.avsc", vec![assign("impl_avro_schema", vec![p(':'), id("Derive")])], 0);
    let e = IncludeAvroInput::parse(&t).err().expect("error");
    assert!(matches!(e.kind, ArgErrorKind::Type));
    assert_eq!(e.at, 4);
}

#[test]
fn syntax_errors_carry_their_argument() {
    let e = IncludeAvroInput::parse(&vec![]).err().expect("error");
    assert!(matches!(e.kind, ArgErrorKind::Syntax));
    assert_eq!(e.at, 0);
    let e = IncludeAvroInput::parse(&vec![id("path")]).err().expect("error");
    assert!(matches!(e.kind, ArgErrorKind::Syntax));
    assert_eq!(e.at, 0);
    let e = IncludeAvroInput::parse(&vec![s("a"), id("precision")]).err().expect("error");
    assert!(matches!(e.kind, ArgErrorKind::Syntax));
    assert_eq!(e.at, 1);
    let e = IncludeAvroInput::parse(&vec![s("a"), p(','), id("precision"), int_lit(3)]).err().expect("error");
    assert!(matches!(e.kind, ArgErrorKind::Syntax));
    assert_eq!(e.at, 3);
    let e = IncludeAvroInput::parse(&vec![s("a"), p(','), id("precision"), p('=')]).err().expect("error");
    assert!(matches!(e.kind, ArgErrorKind::Syntax));
    assert_eq!(e.at, 4);
    let e = IncludeAvroInput::parse(&vec![s("a"), p(','), id("precision"), p('='), p(','), id("x")]).err().expect("error");
    assert!(matches!(e.kind, ArgErrorKind::Syntax));
    assert_eq!(e.at, 4);
    let e = IncludeAvroInput::parse(&vec![s("a"), p(','), int_lit(3), p('='), int_lit(3)]).err().expect("error");
    assert!(matches!(e.kind, ArgErrorKind::Syntax));
    assert_eq!(e.at, 2);
    let e = IncludeAvroInput::parse(&vec![s("a"), p(','), id("precision")]).err().expect("error");
    assert!(matches!(e.kind, ArgErrorKind::Syntax));
    assert_eq!(e.at, 3);
}

#[test]
fn first_error_wins() {
    let t = args(
        "x.avsc",
        vec![assign("precision", vec![int_lit(2)]), assign("bogus", vec![int_lit(1)]), assign("precision", vec![id("x")])],
        0,
    );
    let e = IncludeAvroInput::parse(&t).err().expect("error");
    assert!(matches!(e.kind, ArgErrorKind::UnknownOption(_)));
    assert_eq!(e.at, 6);
}

#[test]
fn later_setting_of_same_option_wins() {
    let t = args("x.avsc", vec![assign("precision", vec![int_lit(2)]), assign("precision", vec![int_lit(9)])], 0);
    let c = IncludeAvroInput::parse(&t).expect("parse").config;
    assert_eq!(c.precision, 9);
}

#[test]
fn generation_is_deterministic() {
    let first = generate(GeneratorConfig::new());
    let second = generate(GeneratorConfig::new());
    assert_eq!(first.as_bytes(), second.as_bytes());
}

#[test]
fn builder_defaults_and_setters() {
    let c = AvroCompiler::new();
    assert!(is_default(&c.config));
    let c = c.nullable(true).precision(0);
    assert!(c.config.nullable);
    assert_eq!(c.config.precision, 0);
    let c = c.extra_derives(vec!["X".to_string()]).extra_derives(vec![]);
    assert!(c.config.extra_derives.is_empty());
}

#[test]
fn output_names_follow_base_name() {
    assert_eq!(file_name_for_prefix("person"), "person.rs");
    assert_eq!(rerun_directive("schemas/a.avsc"), "cargo::rerun-if-changed=schemas/a.avsc");
    assert_eq!(schema_file_name("schemas/person.avsc").as_deref(), Some("person.rs"));
    assert_eq!(schema_file_name("schemas/a.b.avsc").as_deref(), Some("a.rs"));
    assert_eq!(schema_file_name("/"), None);
}

#[test]
fn plan_lists_each_schema() {
    let c = AvroCompiler::new();
    let plan = c.plan(&vec!["s/person.avsc".to_string(), "s/car.avsc".to_string()]).expect("plan");
    assert_eq!(plan.len(), 2);
    assert_eq!(plan[0].schema, "s/person.avsc");
    assert_eq!(plan[0].file_name, "person.rs");
    assert_eq!(plan[1].file_name, "car.rs");
    assert_eq!(plan[1].rerun_directive, "cargo::rerun-if-changed=s/car.avsc");
}

#[test]
fn plan_refuses_path_without_name() {
    let c = AvroCompiler::new();
    let e = c.plan(&vec!["a.avsc".to_string(), "..".to_string(), "/".to_string()]).err();
    assert_eq!(e, Some(CompileError::InvalidPath(1)));
    assert!(c.plan(&vec![]).expect("plan").is_empty());
}

#[test]
fn default_configuration_builds_a_generator() {
    assert!(AvroCompiler::new().generator().is_ok());
}
