use builder::generated::{Builder, FieldNotSet, FieldValue, Value};
use builder::options::{resolve, FieldOptions, OptionError};
use builder::plan::{synthesize, BuilderPlan, SlotKind, SynthError};
use builder::schema::{
    AttrArgs, Attribute, Delim, FieldSchema, GenericArg, RecordBody, RecordSchema, Segment,
    SegmentArgs, Token, TypeExpr,
};
use builder::types::ty_inner_type;

fn ident(s: &str) -> Token {
    Token::Ident(s.to_string())
}

fn comma() -> Token {
    Token::Punct(',', false)
}

fn each(name: &str) -> Vec<Token> {
    vec![ident("each"), Token::Group(Delim::Paren, vec![Token::Str(name.to_string())])]
}

fn builder_attr(tokens: Vec<Token>) -> Attribute {
    Attribute { path: "builder".to_string(), args: AttrArgs::List(tokens) }
}

fn path_type(name: &str, args: Vec<TypeExpr>) -> TypeExpr {
    let args = if args.is_empty() {
        SegmentArgs::Bare
    } else {
        SegmentArgs::Angle(args.into_iter().map(GenericArg::Type).collect())
    };
    TypeExpr::Path(vec![Segment { ident: name.to_string(), args }])
}

fn string_type() -> TypeExpr {
    path_type("String", vec![])
}

fn field(name: &str, ty: TypeExpr, attrs: Vec<Attribute>) -> FieldSchema {
    FieldSchema { name: name.to_string(), ty, attrs }
}

fn record(name: &str, fields: Vec<FieldSchema>) -> RecordSchema {
    RecordSchema { name: name.to_string(), body: RecordBody::Named(fields) }
}

fn text(s: &str) -> Value {
    Value::Text(s.to_string())
}

fn command_schema() -> RecordSchema {
    let mut args_attr = vec![ident("optional"), comma()];
    args_attr.extend(each("arg"));
    record(
        "Command",
        vec![
            field("executable", string_type(), vec![]),
            field("args", path_type("Vec", vec![string_type()]), vec![builder_attr(args_attr)]),
            field("env", path_type("Vec", vec![string_type()]), vec![builder_attr(each("env"))]),
            field(
                "current_dir",
                path_type("Option", vec![string_type()]),
                vec![builder_attr(vec![ident("optional")])],
            ),
        ],
    )
}

fn command_plan() -> BuilderPlan {
    synthesize(&command_schema()).unwrap()
}

fn not_set(name: &str) -> FieldNotSet {
    FieldNotSet { field: name.to_string() }
}

#[test]
fn command_plan_has_one_slot_per_field() {
    let plan = command_plan();
    assert_eq!(plan.record, "Command");
    assert_eq!(plan.builder, "CommandBuilder");
    let got: Vec<(String, SlotKind, String)> =
        plan.fields.iter().map(|f| (f.name.clone(), f.kind, f.setter.clone())).collect();
    assert_eq!(
        got,
        vec![
            ("executable".to_string(), SlotKind::Required, "executable".to_string()),
            ("args".to_string(), SlotKind::Accumulator, "arg".to_string()),
            ("env".to_string(), SlotKind::Accumulator, "env".to_string()),
            ("current_dir".to_string(), SlotKind::Optional, "current_dir".to_string()),
        ]
    );
}

#[test]
fn command_scenario_builds() {
    let plan = command_plan();
    let mut b = Builder::new(&plan);
    b.set("executable", text("ls")).set("arg", text("-l")).set("arg", text("-a")).set(
        "env",
        text("PATH=/bin"),
    );
    assert_eq!(
        b.build(),
        Ok(vec![
            FieldValue::One(text("ls")),
            FieldValue::Many(vec![text("-l"), text("-a")]),
            FieldValue::Many(vec![text("PATH=/bin")]),
            FieldValue::One(Value::Absent),
        ])
    );
}

#[test]
fn command_without_executable_fails() {
    let plan = command_plan();
    let mut b = Builder::new(&plan);
    b.set("arg", text("-l")).set("arg", text("-a")).set("env", text("PATH=/bin"));
    assert_eq!(b.build(), Err(not_set("executable")));
}

fn all_required() -> BuilderPlan {
    synthesize(&record(
        "Point",
        vec![
            field("x", path_type("i64", vec![]), vec![]),
            field("y", path_type("i64", vec![]), vec![]),
            field("z", path_type("i64", vec![]), vec![]),
        ],
    ))
    .unwrap()
}

#[test]
fn required_fields_fail_on_first_unset() {
    let plan = all_required();
    let mut b = Builder::new(&plan);
    assert_eq!(b.build(), Err(not_set("x")));
    b.set("z", Value::Int(3));
    assert_eq!(b.build(), Err(not_set("x")));
    b.set("x", Value::Int(1));
    assert_eq!(b.build(), Err(not_set("y")));
    b.set("y", Value::Int(2));
    assert_eq!(
        b.build(),
        Ok(vec![
            FieldValue::One(Value::Int(1)),
            FieldValue::One(Value::Int(2)),
            FieldValue::One(Value::Int(3)),
        ])
    );
}

#[test]
fn failed_build_can_be_retried() {
    let plan = all_required();
    let mut b = Builder::new(&plan);
    b.set("x", Value::Int(1)).set("y", Value::Int(2));
    assert_eq!(b.build(), Err(not_set("z")));
    b.set("z", Value::Int(-4));
    assert!(b.build().is_ok());
}

#[test]
fn setting_twice_keeps_the_last_value() {
    let plan = all_required();
    let mut b = Builder::new(&plan);
    b.set("x", Value::Int(1)).set("y", Value::Int(2)).set("z", Value::Int(3)).set("x", Value::Int(9));
    assert_eq!(
        b.build(),
        Ok(vec![
            FieldValue::One(Value::Int(9)),
            FieldValue::One(Value::Int(2)),
            FieldValue::One(Value::Int(3)),
        ])
    );
}

#[test]
fn optional_field_defaults_then_takes_value() {
    let plan = command_plan();
    let mut b = Builder::new(&plan);
    b.set("executable", text("ls"));
    let first = b.build().unwrap();
    assert_eq!(first[3], FieldValue::One(Value::Absent));
    b.set("current_dir", text("/tmp"));
    let second = b.build().unwrap();
    assert_eq!(second[3], FieldValue::One(text("/tmp")));
}

#[test]
fn accumulator_starts_empty_and_keeps_order() {
    let plan = command_plan();
    let mut b = Builder::new(&plan);
    b.set("executable", text("ls"));
    assert_eq!(b.build().unwrap()[2], FieldValue::Many(vec![]));
    b.set("env", text("A=1")).set("env", text("B=2")).set("env", text("A=1"));
    assert_eq!(
        b.build().unwrap()[2],
        FieldValue::Many(vec![text("A=1"), text("B=2"), text("A=1")])
    );
    assert_eq!(b.build().unwrap()[1], FieldValue::Many(vec![]));
}

#[test]
fn build_twice_gives_equal_results() {
    let plan = command_plan();
    let mut b = Builder::new(&plan);
    b.set("executable", text("ls")).set("arg", text("-l"));
    assert_eq!(b.build(), b.build());
    let fresh = Builder::new(&plan);
    assert_eq!(fresh.build(), fresh.build());
}

#[test]
fn chained_and_separate_calls_agree() {
    let plan = command_plan();
    let mut chained = Builder::new(&plan);
    chained.set("executable", text("ls")).set("arg", text("-l")).set("current_dir", text("/"));
    let mut separate = Builder::new(&plan);
    separate.set("executable", text("ls"));
    separate.set("arg", text("-l"));
    separate.set("current_dir", text("/"));
    assert_eq!(chained.build(), separate.build());
}

#[test]
fn unknown_setter_changes_nothing() {
    let plan = command_plan();
    let mut b = Builder::new(&plan);
    assert!(!b.has_setter("args"));
    assert!(b.has_setter("arg"));
    b.set("executable", text("ls")).set("args", text("-l"));
    assert_eq!(b.build().unwrap()[1], FieldValue::Many(vec![]));
}

#[test]
fn unrecognized_option_is_rejected() {
    let mut schema = command_schema();
    if let RecordBody::Named(fields) = &mut schema.body {
        fields[3].attrs = vec![builder_attr(vec![ident("default")])];
    }
    assert_eq!(
        synthesize(&schema),
        Err(SynthError::UnrecognizedOption { field: "current_dir".to_string() })
    );
}

#[test]
fn qualified_key_is_unrecognized() {
    let toks = vec![Token::Punct(':', true), Token::Punct(':', false), ident("optional")];
    assert_eq!(resolve(&vec![builder_attr(toks)]), Err(OptionError::Unrecognized));
    let toks = vec![ident("a"), Token::Punct(':', true), Token::Punct(':', false), ident("optional")];
    assert_eq!(resolve(&vec![builder_attr(toks)]), Err(OptionError::Unrecognized));
}

#[test]
fn malformed_options_are_rejected() {
    let cases: Vec<Vec<Token>> = vec![
        vec![comma()],
        vec![ident("each")],
        vec![ident("each"), Token::Punct('=', false), Token::Str("x".to_string())],
        vec![ident("each"), Token::Group(Delim::Paren, vec![ident("x")])],
        vec![ident("each"), Token::Group(Delim::Bracket, vec![Token::Str("x".to_string())])],
        vec![ident("each"), Token::Group(Delim::Paren, vec![Token::Str("x".to_string()), comma()])],
        vec![ident("optional"), Token::Group(Delim::Paren, vec![])],
        vec![ident("optional"), comma(), comma()],
        vec![Token::Lit("1".to_string())],
        vec![ident("a"), Token::Punct(':', true), Token::Punct(':', false)],
    ];
    for toks in cases {
        assert_eq!(resolve(&vec![builder_attr(toks)]), Err(OptionError::Malformed));
    }
    let word = Attribute { path: "builder".to_string(), args: AttrArgs::Word };
    assert_eq!(resolve(&vec![word]), Err(OptionError::Malformed));
}

#[test]
fn each_name_must_be_an_identifier() {
    assert_eq!(resolve(&vec![builder_attr(each("1arg"))]), Err(OptionError::Malformed));
    assert_eq!(resolve(&vec![builder_attr(each("two words"))]), Err(OptionError::Malformed));
    assert_eq!(resolve(&vec![builder_attr(each(""))]), Err(OptionError::Malformed));
    assert_eq!(resolve(&vec![builder_attr(each(" arg"))]), Err(OptionError::Malformed));
    assert_eq!(resolve(&vec![builder_attr(each("arg "))]), Err(OptionError::Malformed));
    assert_eq!(resolve(&vec![builder_attr(each("arg /* c */"))]), Err(OptionError::Malformed));
    assert_eq!(resolve(&vec![builder_attr(each("r#arg"))]), Err(OptionError::Malformed));
    assert_eq!(resolve(&vec![builder_attr(each("a-b"))]), Err(OptionError::Malformed));
    assert_eq!(
        resolve(&vec![builder_attr(each("_"))]),
        Ok(FieldOptions { optional: false, each: Some("_".to_string()) })
    );
    assert_eq!(
        resolve(&vec![builder_attr(each("_9"))]),
        Ok(FieldOptions { optional: false, each: Some("_9".to_string()) })
    );
}

#[test]
fn options_accumulate_over_attributes() {
    let attrs = vec![
        Attribute { path: "doc".to_string(), args: AttrArgs::NameValue },
        builder_attr(each("item")),
        Attribute { path: "serde".to_string(), args: AttrArgs::List(vec![ident("skip")]) },
        builder_attr(vec![ident("optional"), comma()]),
    ];
    assert_eq!(
        resolve(&attrs),
        Ok(FieldOptions { optional: true, each: Some("item".to_string()) })
    );
    assert_eq!(resolve(&vec![]), Ok(FieldOptions { optional: false, each: None }));
}

#[test]
fn later_each_wins() {
    let mut toks = each("a");
    toks.push(comma());
    toks.extend(each("b"));
    assert_eq!(
        resolve(&vec![builder_attr(toks)]),
        Ok(FieldOptions { optional: false, each: Some("b".to_string()) })
    );
}

#[test]
fn element_type_is_extracted() {
    let v = path_type("Vec", vec![string_type()]);
    assert_eq!(ty_inner_type("Vec", &v), Some(&string_type()));
    assert_eq!(ty_inner_type("Option", &v), None);
    let two = path_type("Vec", vec![string_type(), string_type()]);
    assert_eq!(ty_inner_type("Vec", &two), None);
    let qualified = TypeExpr::Path(vec![
        Segment { ident: "std".to_string(), args: SegmentArgs::Bare },
        Segment {
            ident: "Vec".to_string(),
            args: SegmentArgs::Angle(vec![GenericArg::Type(string_type())]),
        },
    ]);
    assert_eq!(ty_inner_type("Vec", &qualified), None);
    let lifetime = TypeExpr::Path(vec![Segment {
        ident: "Vec".to_string(),
        args: SegmentArgs::Angle(vec![GenericArg::Other("'a".to_string())]),
    }]);
    assert_eq!(ty_inner_type("Vec", &lifetime), None);
    assert_eq!(ty_inner_type("Vec", &TypeExpr::Other("&str".to_string())), None);
    assert_eq!(ty_inner_type("Vec", &path_type("Vec", vec![])), None);
}

#[test]
fn each_on_non_vec_is_a_type_mismatch() {
    let schema = record(
        "R",
        vec![field("items", path_type("Option", vec![string_type()]), vec![builder_attr(each("item"))])],
    );
    assert_eq!(
        synthesize(&schema),
        Err(SynthError::ElementTypeMismatch { field: "items".to_string() })
    );
}

#[test]
fn option_errors_come_before_type_errors() {
    let schema = record(
        "R",
        vec![
            field("a", string_type(), vec![builder_attr(each("x"))]),
            field("b", string_type(), vec![builder_attr(vec![ident("bogus")])]),
        ],
    );
    assert_eq!(synthesize(&schema), Err(SynthError::UnrecognizedOption { field: "b".to_string() }));
    let schema = record(
        "R",
        vec![field("a", string_type(), vec![builder_attr(vec![comma()])])],
    );
    assert_eq!(synthesize(&schema), Err(SynthError::MalformedOption { field: "a".to_string() }));
}

#[test]
fn unnamed_fields_are_unsupported() {
    let schema = RecordSchema { name: "T".to_string(), body: RecordBody::Unsupported };
    assert_eq!(synthesize(&schema), Err(SynthError::UnsupportedShape));
}

#[test]
fn empty_record_builds_empty() {
    let plan = synthesize(&record("Empty", vec![])).unwrap();
    assert_eq!(plan.builder, "EmptyBuilder");
    assert_eq!(Builder::new(&plan).build(), Ok(vec![]));
}

#[test]
fn non_ascii_identifier_is_accepted() {
    assert_eq!(
        resolve(&vec![builder_attr(each("\u{e9}t\u{e9}"))]),
        Ok(FieldOptions { optional: false, each: Some("\u{e9}t\u{e9}".to_string()) })
    );
    assert_eq!(resolve(&vec![builder_attr(each("\u{2603}"))]), Err(OptionError::Malformed));
    assert_eq!(resolve(&vec![builder_attr(each("a\u{2603}"))]), Err(OptionError::Malformed));
}

#[test]
fn unknown_key_after_valid_keys_is_rejected() {
    let mut toks = vec![ident("optional"), comma()];
    toks.extend(each("x"));
    toks.push(comma());
    toks.push(ident("default"));
    toks.push(comma());
    toks.push(ident("optional"));
    assert_eq!(resolve(&vec![builder_attr(toks)]), Err(OptionError::Unrecognized));
    let attrs = vec![
        builder_attr(vec![ident("optional")]),
        builder_attr(vec![ident("optional"), comma(), ident("skip")]),
    ];
    assert_eq!(resolve(&attrs), Err(OptionError::Unrecognized));
}

#[test]
fn duplicate_setter_names_are_rejected() {
    let schema = record(
        "R",
        vec![
            field("item", string_type(), vec![]),
            field("items", path_type("Vec", vec![string_type()]), vec![builder_attr(each("item"))]),
        ],
    );
    assert_eq!(synthesize(&schema), Err(SynthError::DuplicateSetter { field: "items".to_string() }));
    let schema = record(
        "R",
        vec![
            field("a", path_type("Vec", vec![string_type()]), vec![builder_attr(each("x"))]),
            field("b", path_type("Vec", vec![string_type()]), vec![builder_attr(each("x"))]),
        ],
    );
    assert_eq!(synthesize(&schema), Err(SynthError::DuplicateSetter { field: "b".to_string() }));
    let schema = record(
        "R",
        vec![
            field("a", path_type("Vec", vec![string_type()]), vec![builder_attr(each("a"))]),
        ],
    );
    assert!(synthesize(&schema).is_ok());
}

#[test]
fn empty_builder_list_sets_no_option() {
    assert_eq!(
        resolve(&vec![builder_attr(vec![])]),
        Ok(FieldOptions { optional: false, each: None })
    );
    let attrs = vec![builder_attr(vec![ident("optional")]), builder_attr(vec![])];
    assert_eq!(resolve(&attrs), Ok(FieldOptions { optional: true, each: None }));
    let plan = synthesize(&record("R", vec![field("a", string_type(), vec![builder_attr(vec![])])])).unwrap();
    assert_eq!(plan.fields[0].kind, SlotKind::Required);
    assert_eq!(Builder::new(&plan).build(), Err(not_set("a")));
}
