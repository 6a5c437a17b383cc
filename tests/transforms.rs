use clap_macros::defaults::{derive_default, list_default, DefaultImpl, FieldInit, InitExpr};
use clap_macros::prefix::{prefix, rewrite_field_args, Names};
use clap_macros::syntax::{
    AttrArgs, Attribute, ClapArgIdent, Entry, FieldDecl, GenError, GenericArgument,
    PathArguments, PathSegment, StructDecl, TypeExpr, Value,
};
use clap_macros::syntax::ClapArgIdent::{Env, Id, Long, ValueName};
use clap_macros::util::{get_field_type, new_meta_name_str_value};

fn s(x: &str) -> String {
    x.to_string()
}

fn segment(name: &str, args: Vec<TypeExpr>) -> PathSegment {
    PathSegment {
        ident: s(name),
        arguments: if args.is_empty() {
            PathArguments::Empty
        } else {
            PathArguments::AngleBracketed {
                args: args.into_iter().map(GenericArgument::Type).collect(),
            }
        },
    }
}

fn ty(name: &str) -> TypeExpr {
    TypeExpr::Path { segments: vec![segment(name, vec![])] }
}

fn generic(name: &str, arg: TypeExpr) -> TypeExpr {
    TypeExpr::Path { segments: vec![segment(name, vec![arg])] }
}

fn bare(key: &str) -> Entry {
    Entry::Path { key: Some(s(key)), text: s(key) }
}

fn pair_str(key: &str, lit: &str) -> Entry {
    let text = format!("{:?}", lit);
    Entry::NameValue {
        key: Some(s(key)),
        value: Value { text: text.clone(), str_lit: Some(s(lit)) },
        text: format!("{} = {}", key, text),
    }
}

fn pair_expr(key: &str, expr: &str) -> Entry {
    Entry::NameValue {
        key: Some(s(key)),
        value: Value { text: s(expr), str_lit: None },
        text: format!("{} = {}", key, expr),
    }
}

fn generated(key: ClapArgIdent, value: &str) -> Entry {
    Entry::Generated { key, value: s(value) }
}

fn arg(entries: Vec<Entry>) -> Attribute {
    Attribute { path_ident: Some(s("arg")), args: AttrArgs::List { entries } }
}

fn field(name: &str, ty: TypeExpr, ty_text: &str, attrs: Vec<Attribute>) -> FieldDecl {
    FieldDecl { name: Some(s(name)), ty, ty_text: s(ty_text), attrs }
}

fn init(name: &str, init: InitExpr) -> FieldInit {
    FieldInit { name: Some(s(name)), init }
}

fn strings(items: &[&str]) -> Vec<String> {
    items.iter().map(|x| s(x)).collect()
}

fn lit(x: &str) -> String {
    format!("{:?}", x)
}

fn parameters() -> StructDecl {
    StructDecl {
        name: s("Parameters"),
        fields: vec![
            field("port", ty("u16"), "u16", vec![arg(vec![bare("long"), pair_expr("default_value_t", "8080")])]),
            field("host", ty("String"), "String", vec![arg(vec![bare("long"), pair_str("default_value", "localhost")])]),
            field(
                "domains",
                generic("Vec", ty("String")),
                "Vec<String>",
                vec![arg(vec![bare("long"), pair_str("default_value", "aa,bb, cc")])],
            ),
            field(
                "numbers",
                generic("Vec", ty("u16")),
                "Vec<u16>",
                vec![arg(vec![bare("long"), pair_str("default_value", "1,2,3")])],
            ),
            field(
                "booleans",
                generic("Vec", ty("bool")),
                "Vec<bool>",
                vec![arg(vec![bare("long"), pair_str("default_value", "true, false")])],
            ),
            field(
                "url",
                ty("Url"),
                "Url",
                vec![arg(vec![bare("long"), pair_str("default_value", "https://www.google.com")])],
            ),
            field(
                "mode",
                ty("Mode"),
                "Mode",
                vec![arg(vec![
                    pair_str("long", "parameters-mode"),
                    pair_str("env", "PARAMETERS_MODE"),
                    bare("value_enum"),
                    pair_expr("default_value_t", "Mode::Release"),
                    pair_str("id", "parameters_mode"),
                    pair_str("value_name", "PARAMETERS_MODE"),
                ])],
            ),
            field("tls", ty("bool"), "bool", vec![arg(vec![bare("long")])]),
            field("option", generic("Option", ty("String")), "Option<String>", vec![arg(vec![bare("long")])]),
        ],
    }
}

#[test]
fn test_derive_default() {
    let expected = DefaultImpl {
        struct_name: s("Parameters"),
        fields: vec![
            init("port", InitExpr::Verbatim { text: s("8080") }),
            init("host", InitExpr::IntoString { literal: lit("localhost") }),
            init("domains", InitExpr::StringList { items: strings(&["aa", "bb", "cc"]) }),
            init("numbers", InitExpr::ExprList { items: strings(&["1", "2", "3"]) }),
            init("booleans", InitExpr::ExprList { items: strings(&["true", "false"]) }),
            init("url", InitExpr::ParseUnwrap { literal: lit("https://www.google.com") }),
            init("mode", InitExpr::Verbatim { text: s("Mode::Release") }),
            init("tls", InitExpr::TypeDefault { ty_text: s("bool") }),
            init("option", InitExpr::TypeDefault { ty_text: s("Option<String>") }),
        ],
    };
    assert_eq!(derive_default(&parameters()), Ok(expected));
}

fn etcd() -> StructDecl {
    StructDecl {
        name: s("Etcd"),
        fields: vec![
            field(
                "endpoints",
                generic("Vec", ty("String")),
                "Vec<String>",
                vec![arg(vec![bare("long"), bare("env"), pair_expr("default_value", "DEFAULT_ETCD_ENDPOINT")])],
            ),
            field(
                "auth_password",
                generic("Option", ty("String")),
                "Option<String>",
                vec![arg(vec![bare("long"), bare("env")])],
            ),
            field(
                "init_batch_size",
                ty("i64"),
                "i64",
                vec![arg(vec![
                    pair_str("long", "custom-init-batch-size"),
                    bare("env"),
                    pair_expr("default_value_t", "100"),
                ])],
            ),
            field(
                "max_decoding_message_size",
                ty("usize"),
                "usize",
                vec![arg(vec![
                    bare("long"),
                    bare("env"),
                    pair_str("value_name", "CUSTOM_MAX_DECODING_MESSAGE_SIZE"),
                    pair_expr("default_value_t", "DEFAULT_ETCD_MAX_DECODING_MESSAGE_SIZE"),
                ])],
            ),
            field(
                "namespace",
                generic("Vec", ty("u8")),
                "Vec<u8>",
                vec![arg(vec![
                    bare("long"),
                    pair_str("env", "CUSTOM_ETCD_ENV_NAMESPACE"),
                    pair_expr("value_delimiter", "','"),
                ])],
            ),
        ],
    }
}

#[test]
fn test_prefix() {
    let expected = StructDecl {
        name: s("Etcd"),
        fields: vec![
            field(
                "endpoints",
                generic("Vec", ty("String")),
                "Vec<String>",
                vec![arg(vec![
                    generated(Long, "etcd-endpoints"),
                    generated(Env, "ETCD_ENDPOINTS"),
                    pair_expr("default_value", "DEFAULT_ETCD_ENDPOINT"),
                    generated(Id, "etcd_endpoints"),
                    generated(ValueName, "ETCD_ENDPOINTS"),
                ])],
            ),
            field(
                "auth_password",
                generic("Option", ty("String")),
                "Option<String>",
                vec![arg(vec![
                    generated(Long, "etcd-auth-password"),
                    generated(Env, "ETCD_AUTH_PASSWORD"),
                    generated(Id, "etcd_auth_password"),
                    generated(ValueName, "ETCD_AUTH_PASSWORD"),
                ])],
            ),
            field(
                "init_batch_size",
                ty("i64"),
                "i64",
                vec![arg(vec![
                    pair_str("long", "custom-init-batch-size"),
                    generated(Env, "ETCD_INIT_BATCH_SIZE"),
                    pair_expr("default_value_t", "100"),
                    generated(Id, "etcd_init_batch_size"),
                    generated(ValueName, "ETCD_INIT_BATCH_SIZE"),
                ])],
            ),
            field(
                "max_decoding_message_size",
                ty("usize"),
                "usize",
                vec![arg(vec![
                    generated(Long, "etcd-max-decoding-message-size"),
                    generated(Env, "ETCD_MAX_DECODING_MESSAGE_SIZE"),
                    pair_str("value_name", "CUSTOM_MAX_DECODING_MESSAGE_SIZE"),
                    pair_expr("default_value_t", "DEFAULT_ETCD_MAX_DECODING_MESSAGE_SIZE"),
                    generated(Id, "etcd_max_decoding_message_size"),
                ])],
            ),
            field(
                "namespace",
                generic("Vec", ty("u8")),
                "Vec<u8>",
                vec![arg(vec![
                    generated(Long, "etcd-namespace"),
                    pair_str("env", "CUSTOM_ETCD_ENV_NAMESPACE"),
                    pair_expr("value_delimiter", "','"),
                    generated(Id, "etcd_namespace"),
                    generated(ValueName, "ETCD_NAMESPACE"),
                ])],
            ),
        ],
    };
    assert_eq!(prefix(etcd()), Ok(expected));
}

#[test]
fn test_clap_default() {
    let decl = StructDecl {
        name: s("Parameters"),
        fields: vec![
            field("port", ty("u16"), "u16", vec![arg(vec![bare("long"), pair_expr("default_value_t", "8080")])]),
            field(
                "host",
                ty("String"),
                "String",
                vec![arg(vec![bare("long"), bare("env"), bare("value_parser"), pair_str("default_value", "localhost")])],
            ),
            field(
                "mode",
                ty("Mode"),
                "Mode",
                vec![arg(vec![bare("long"), bare("env"), bare("value_enum"), pair_expr("default_value_t", "Mode::Release")])],
            ),
            field("path", ty("String"), "String", vec![arg(vec![bare("long")])]),
            field("tls", ty("bool"), "bool", vec![arg(vec![bare("long")])]),
            field("option", generic("Option", ty("String")), "Option<String>", vec![arg(vec![bare("long")])]),
            field(
                "url",
                ty("Url"),
                "Url",
                vec![arg(vec![bare("long"), pair_str("default_value", "https://www.google.com")])],
            ),
        ],
    };
    let rewritten = prefix(decl).unwrap();
    let parameters = derive_default(&rewritten).unwrap();
    let f = &parameters.fields;
    assert_eq!(f[0].init, InitExpr::Verbatim { text: s("8080") });
    assert_eq!(f[1].init, InitExpr::IntoString { literal: lit("localhost") });
    assert_eq!(f[2].init, InitExpr::Verbatim { text: s("Mode::Release") });
    assert_eq!(f[3].init, InitExpr::TypeDefault { ty_text: s("String") });
    assert_eq!(f[4].init, InitExpr::TypeDefault { ty_text: s("bool") });
    assert_eq!(f[5].init, InitExpr::TypeDefault { ty_text: s("Option<String>") });
    assert_eq!(f[6].init, InitExpr::ParseUnwrap { literal: lit("https://www.google.com") });
}

#[test]
fn field_type_names() {
    assert_eq!(get_field_type(&generic("Vec", ty("String"))), (Some(s("Vec")), Some(s("String"))));
    let qualified = TypeExpr::Path {
        segments: vec![segment("std", vec![]), segment("vec", vec![]), segment("Vec", vec![ty("u8")])],
    };
    assert_eq!(get_field_type(&qualified), (Some(s("Vec")), Some(s("u8"))));
    let map = TypeExpr::Path { segments: vec![segment("HashMap", vec![ty("K"), ty("V")])] };
    assert_eq!(get_field_type(&map), (Some(s("HashMap")), None));
    assert_eq!(get_field_type(&TypeExpr::Other), (None, None));
    assert_eq!(get_field_type(&generic("Option", TypeExpr::Other)), (Some(s("Option")), None));
    let nested = generic("Vec", generic("Option", ty("u8")));
    assert_eq!(get_field_type(&nested), (Some(s("Vec")), Some(s("Option"))));
    let lifetime = TypeExpr::Path {
        segments: vec![PathSegment {
            ident: s("Cow"),
            arguments: PathArguments::AngleBracketed { args: vec![GenericArgument::Other] },
        }],
    };
    assert_eq!(get_field_type(&lifetime), (Some(s("Cow")), None));
}

#[test]
fn no_annotations_give_type_defaults() {
    let decl = StructDecl {
        name: s("Plain"),
        fields: vec![
            field("a", ty("u32"), "u32", vec![]),
            field("b", generic("Vec", ty("String")), "Vec<String>", vec![arg(vec![bare("long")])]),
            FieldDecl { name: Some(s("c")), ty: TypeExpr::Other, ty_text: s("(u8, u8)"), attrs: vec![] },
        ],
    };
    let expected = DefaultImpl {
        struct_name: s("Plain"),
        fields: vec![
            init("a", InitExpr::TypeDefault { ty_text: s("u32") }),
            init("b", InitExpr::TypeDefault { ty_text: s("Vec<String>") }),
            init("c", InitExpr::TypeDefault { ty_text: s("(u8, u8)") }),
        ],
    };
    assert_eq!(derive_default(&decl), Ok(expected));
}

fn one_field(f: FieldDecl) -> StructDecl {
    StructDecl { name: s("Config"), fields: vec![f] }
}

fn only_init(decl: &StructDecl) -> InitExpr {
    derive_default(decl).unwrap().fields[0].init.clone()
}

#[test]
fn string_list_default_is_split_and_trimmed() {
    let f = field(
        "names",
        generic("Vec", ty("String")),
        "Vec<String>",
        vec![arg(vec![pair_str("default_value", "  x ,y,\tz  ")])],
    );
    assert_eq!(only_init(&one_field(f)), InitExpr::StringList { items: strings(&["x", "y", "z"]) });
    let f = field("names", generic("Vec", ty("String")), "Vec<String>", vec![arg(vec![pair_str("default_value", "")])]);
    assert_eq!(only_init(&one_field(f)), InitExpr::StringList { items: strings(&[""]) });
    let f = field("names", generic("Vec", ty("String")), "Vec<String>", vec![arg(vec![pair_str("default_value", "a,")])]);
    assert_eq!(only_init(&one_field(f)), InitExpr::StringList { items: strings(&["a", ""]) });
}

#[test]
fn string_and_url_defaults() {
    let f = field("host", ty("String"), "String", vec![arg(vec![pair_str("default_value_t", "localhost")])]);
    assert_eq!(only_init(&one_field(f)), InitExpr::IntoString { literal: lit("localhost") });
    let url = TypeExpr::Path { segments: vec![segment("url", vec![]), segment("Url", vec![])] };
    let f = field("url", url, "url::Url", vec![arg(vec![pair_str("default_value", "http://a")])]);
    assert_eq!(only_init(&one_field(f)), InitExpr::ParseUnwrap { literal: lit("http://a") });
    let f = field("host", ty("String"), "String", vec![arg(vec![pair_expr("default_value", "HOST")])]);
    assert_eq!(only_init(&one_field(f)), InitExpr::Verbatim { text: s("HOST") });
    let f = field("n", ty("u8"), "u8", vec![arg(vec![pair_str("default_value", "7")])]);
    assert_eq!(only_init(&one_field(f)), InitExpr::Verbatim { text: lit("7") });
}

#[test]
fn first_default_wins() {
    let f = field(
        "n",
        ty("u8"),
        "u8",
        vec![arg(vec![bare("default_value"), pair_expr("default_value_t", "1"), pair_expr("default_value", "2")])],
    );
    assert_eq!(only_init(&one_field(f)), InitExpr::Verbatim { text: s("1") });
    let f = field(
        "n",
        ty("u8"),
        "u8",
        vec![arg(vec![pair_expr("default_value", "1")]), arg(vec![bare("long")])],
    );
    assert_eq!(only_init(&one_field(f)), InitExpr::Verbatim { text: s("1") });
    let f = field(
        "s",
        ty("String"),
        "String",
        vec![
            arg(vec![bare("long")]),
            arg(vec![pair_str("default_value", "a")]),
            arg(vec![pair_str("default_value", "b")]),
        ],
    );
    assert_eq!(only_init(&one_field(f)), InitExpr::IntoString { literal: lit("a") });
    let other = Attribute { path_ident: Some(s("doc")), args: AttrArgs::NotList };
    let f = field("n", ty("u8"), "u8", vec![arg(vec![pair_expr("default_value", "3")]), other]);
    assert_eq!(only_init(&one_field(f)), InitExpr::Verbatim { text: s("3") });
}

#[test]
fn bad_list_element_is_reported() {
    let f = field("nums", generic("Vec", ty("u16")), "Vec<u16>", vec![arg(vec![pair_str("default_value", "1, ,2")])]);
    assert_eq!(derive_default(&one_field(f)), Err(GenError::BadListElement { field: 0, piece: s("") }));
    let f = field("nums", generic("Vec", ty("u16")), "Vec<u16>", vec![arg(vec![pair_str("default_value", "1,2 +,3")])]);
    assert_eq!(derive_default(&one_field(f)), Err(GenError::BadListElement { field: 0, piece: s("2 +") }));
}

#[test]
fn annotation_errors_are_reported() {
    let unparsed = Attribute { path_ident: Some(s("arg")), args: AttrArgs::Unparsed { message: s("expected `,`") } };
    let decl = StructDecl {
        name: s("Config"),
        fields: vec![field("a", ty("u8"), "u8", vec![]), field("b", ty("u8"), "u8", vec![unparsed])],
    };
    assert_eq!(derive_default(&decl), Err(GenError::MalformedArgs { field: 1, message: s("expected `,`") }));
    let not_list = Attribute { path_ident: Some(s("arg")), args: AttrArgs::NotList };
    let decl = one_field(field("a", ty("u8"), "u8", vec![not_list]));
    assert_eq!(derive_default(&decl), Err(GenError::ExpectedArgList { field: 0 }));
}

#[test]
fn prefix_errors_are_reported() {
    let decl = StructDecl {
        name: s("Tuple"),
        fields: vec![FieldDecl { name: None, ty: ty("u8"), ty_text: s("u8"), attrs: vec![] }],
    };
    assert_eq!(prefix(decl), Err(GenError::MissingFieldName { field: 0 }));
    let unparsed = Attribute { path_ident: Some(s("arg")), args: AttrArgs::Unparsed { message: s("bad") } };
    let decl = one_field(field("a", ty("u8"), "u8", vec![unparsed]));
    assert_eq!(prefix(decl), Err(GenError::MalformedArgs { field: 0, message: s("bad") }));
}

#[test]
fn prefix_bare_long_env_scenario() {
    let decl = StructDecl {
        name: s("Etcd"),
        fields: vec![field(
            "endpoints",
            generic("Vec", ty("String")),
            "Vec<String>",
            vec![arg(vec![bare("long"), bare("env"), pair_expr("default_value", "SOME_CONST")])],
        )],
    };
    let out = prefix(decl).unwrap();
    assert_eq!(
        out.fields[0].attrs[0].args,
        AttrArgs::List {
            entries: vec![
                generated(Long, "etcd-endpoints"),
                generated(Env, "ETCD_ENDPOINTS"),
                pair_expr("default_value", "SOME_CONST"),
                generated(Id, "etcd_endpoints"),
                generated(ValueName, "ETCD_ENDPOINTS"),
            ],
        }
    );
}

#[test]
fn prefix_is_idempotent() {
    let once = prefix(etcd()).unwrap();
    let expected = prefix(etcd()).unwrap();
    let twice = prefix(once).unwrap();
    assert_eq!(twice, expected);
}

#[test]
fn prefix_keeps_unrecognized() {
    let doc = Attribute { path_ident: Some(s("doc")), args: AttrArgs::List { entries: vec![bare("long")] } };
    let nested = Entry::List { key: Some(s("group")), text: s("group(a, b)") };
    let qualified = Entry::Path { key: None, text: s("a::long") };
    let decl = StructDecl {
        name: s("MyApp"),
        fields: vec![field(
            "log_level",
            ty("u8"),
            "u8",
            vec![doc.clone(), arg(vec![nested.clone(), bare("short"), qualified.clone()])],
        )],
    };
    let out = prefix(decl).unwrap();
    assert_eq!(out.name, s("MyApp"));
    let attrs = &out.fields[0].attrs;
    assert_eq!(attrs[0], doc);
    assert_eq!(
        attrs[1].args,
        AttrArgs::List {
            entries: vec![
                nested,
                bare("short"),
                qualified,
                generated(ClapArgIdent::Id, "myapp_log_level"),
                generated(ClapArgIdent::Long, "myapp-log-level"),
                generated(ClapArgIdent::Env, "MYAPP_LOG_LEVEL"),
                generated(ClapArgIdent::ValueName, "MYAPP_LOG_LEVEL"),
            ],
        }
    );
}

#[test]
fn prefix_leaves_non_list_arg() {
    let not_list = Attribute { path_ident: Some(s("arg")), args: AttrArgs::NotList };
    let out = prefix(one_field(field("a", ty("u8"), "u8", vec![not_list.clone()]))).unwrap();
    assert_eq!(out.fields[0].attrs, vec![not_list]);
}

#[test]
fn recognized_keys() {
    assert_eq!(ClapArgIdent::from_str(&s("id")), Some(ClapArgIdent::Id));
    assert_eq!(ClapArgIdent::from_str(&s("long")), Some(ClapArgIdent::Long));
    assert_eq!(ClapArgIdent::from_str(&s("env")), Some(ClapArgIdent::Env));
    assert_eq!(ClapArgIdent::from_str(&s("value_name")), Some(ClapArgIdent::ValueName));
    assert_eq!(ClapArgIdent::from_str(&s("short")), None);
    assert_eq!(ClapArgIdent::from_str(&s("Long")), None);
}

#[test]
fn built_entry() {
    assert_eq!(new_meta_name_str_value(ClapArgIdent::Env, &s("X_Y")), generated(ClapArgIdent::Env, "X_Y"));
}

#[test]
fn key_texts() {
    assert_eq!(ClapArgIdent::Id.as_str(), "id");
    assert_eq!(ClapArgIdent::ValueName.as_str(), "value_name");
    for k in [Id, Long, Env, ValueName] {
        assert_eq!(ClapArgIdent::from_str(&s(k.as_str())), Some(k));
    }
}

#[test]
fn later_unreadable_list_is_reported() {
    let not_list = Attribute { path_ident: Some(s("arg")), args: AttrArgs::NotList };
    let f = field("n", ty("u8"), "u8", vec![arg(vec![pair_expr("default_value", "1")]), not_list]);
    assert_eq!(derive_default(&one_field(f)), Err(GenError::ExpectedArgList { field: 0 }));
}

#[test]
fn non_path_type_reads_annotations() {
    let f = FieldDecl {
        name: Some(s("name")),
        ty: TypeExpr::Other,
        ty_text: s("& 'static str"),
        attrs: vec![arg(vec![bare("long"), pair_str("default_value", "x")])],
    };
    assert_eq!(only_init(&one_field(f)), InitExpr::Verbatim { text: lit("x") });
    let unparsed = Attribute { path_ident: Some(s("arg")), args: AttrArgs::Unparsed { message: s("expected `,`") } };
    let f = FieldDecl { name: Some(s("name")), ty: TypeExpr::Other, ty_text: s("(u8, u8)"), attrs: vec![unparsed] };
    assert_eq!(
        derive_default(&one_field(f)),
        Err(GenError::MalformedArgs { field: 0, message: s("expected `,`") })
    );
}

#[test]
fn multi_argument_generic_has_no_inner_name() {
    let map = TypeExpr::Path { segments: vec![segment("HashMap", vec![ty("String"), ty("u16")])] };
    assert_eq!(get_field_type(&map), (Some(s("HashMap")), None));
    let f = field("m", map, "HashMap<String, u16>", vec![arg(vec![pair_str("default_value", "a=1")])]);
    assert_eq!(only_init(&one_field(f)), InitExpr::Verbatim { text: lit("a=1") });
    let vec2 = TypeExpr::Path { segments: vec![segment("Vec", vec![ty("u8"), ty("A")])] };
    let f = field("v", vec2, "Vec<u8, A>", vec![arg(vec![pair_str("default_value", "1,2")])]);
    assert_eq!(only_init(&one_field(f)), InitExpr::Verbatim { text: lit("1,2") });
}

#[test]
fn kebab_names_replace_every_underscore() {
    let f = field("a_b_c", ty("u8"), "u8", vec![arg(vec![bare("long")])]);
    let out = prefix(StructDecl { name: s("My_App"), fields: vec![f] }).unwrap();
    assert_eq!(
        out.fields[0].attrs[0].args,
        AttrArgs::List {
            entries: vec![
                generated(Long, "my-app-a-b-c"),
                generated(Id, "my_app_a_b_c"),
                generated(Env, "MY_APP_A_B_C"),
                generated(ValueName, "MY_APP_A_B_C"),
            ],
        }
    );
}

#[test]
fn list_default_takes_parse_outcomes() {
    let pieces = strings(&["1", "x y", "3"]);
    assert_eq!(
        list_default(pieces.clone(), &vec![true, true, true], 2),
        Ok(InitExpr::ExprList { items: pieces.clone() })
    );
    assert_eq!(
        list_default(pieces.clone(), &vec![true, false, false], 2),
        Err(GenError::BadListElement { field: 2, piece: s("x y") })
    );
    assert_eq!(list_default(vec![], &vec![], 0), Ok(InitExpr::ExprList { items: vec![] }));
}

#[test]
fn rewrite_field_args_with_given_names() {
    let names = Names { snake: s("etcd_endpoints"), scream: s("ETCD_ENDPOINTS"), kebab: s("etcd-endpoints") };
    let mut f = field(
        "endpoints",
        generic("Vec", ty("String")),
        "Vec<String>",
        vec![arg(vec![bare("long"), bare("env"), pair_expr("default_value", "SOME_CONST")])],
    );
    assert_eq!(rewrite_field_args(&mut f, &names, 0), Ok(()));
    assert_eq!(
        f.attrs[0].args,
        AttrArgs::List {
            entries: vec![
                generated(Long, "etcd-endpoints"),
                generated(Env, "ETCD_ENDPOINTS"),
                pair_expr("default_value", "SOME_CONST"),
                generated(Id, "etcd_endpoints"),
                generated(ValueName, "ETCD_ENDPOINTS"),
            ],
        }
    );
    let unparsed = Attribute { path_ident: Some(s("arg")), args: AttrArgs::Unparsed { message: s("bad") } };
    let mut g = field("a", ty("u8"), "u8", vec![arg(vec![bare("long")]), unparsed]);
    let before = g.attrs.clone();
    assert_eq!(rewrite_field_args(&mut g, &names, 3), Err(GenError::MalformedArgs { field: 3, message: s("bad") }));
    assert_eq!(g.attrs, before);
}

#[test]
fn trim_removes_unicode_white_space() {
    let f = field(
        "names",
        generic("Vec", ty("String")),
        "Vec<String>",
        vec![arg(vec![pair_str("default_value", "\u{3000}a\u{a0}, \n b\t")])],
    );
    assert_eq!(only_init(&one_field(f)), InitExpr::StringList { items: strings(&["a", "b"]) });
}
