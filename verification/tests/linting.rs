use shader_formatter::config::Config;
use shader_formatter::formatter::Formatter;
use shader_formatter::formatter::CHANGES_REQUIRED_ERR_MSG;
use shader_formatter::parser::complex_token_parser;
use shader_formatter::parser::token_parser;
use shader_formatter::parser::FuncArgument;
use shader_formatter::parser::FunctionInfo;
use shader_formatter::parser::StructField;
use shader_formatter::parser::StructInfo;
use shader_formatter::parser::Type;
use shader_formatter::rules::Case;

fn check(config: Config, text: &str) -> Result<(), String> {
    let declarations = complex_token_parser(&token_parser(text).unwrap());
    Formatter::new(config).check_complex_rules(&declarations)
}

fn fails(config: &Config, text: &str) {
    match Formatter::new(config.clone()).format(text) {
        Ok(_) => panic!("expected an objection to {:?}", text),
        Err(message) => assert!(message.starts_with(CHANGES_REQUIRED_ERR_MSG)),
    }
}

fn succeeds(config: &Config, text: &str) {
    match Formatter::new(config.clone()).format(text) {
        Ok(_) => {}
        Err(message) => panic!("{}", message),
    }
}

fn function(name: &str, return_type: Type, args: Vec<FuncArgument>, docs: &str) -> FunctionInfo {
    FunctionInfo { name: String::from(name), args, return_type, docs: String::from(docs) }
}

fn argument(t: Type, name: &str, is_using_semantic: bool) -> FuncArgument {
    FuncArgument { _type: t, name: String::from(name), is_using_semantic }
}

#[test]
fn variable_case() {
    let mut config = Config::default();

    // Make sure default config uses other setting.
    assert!(config.variable_case.is_none());

    // Change the setting.
    config.variable_case = Some(Case::Camel);

    // Test.
    fails(&config, "int My_Var;");
    fails(&config, "void f(int some_arg) {\n}");
    fails(&config, "struct Foo {\n    int Field;\n};");
    succeeds(&config, "int myVar;");
    succeeds(&config, "void f(int someArg) {\n    float localValue = 1.0;\n}");
}

#[test]
fn camel_case_violation_suggests_the_name() {
    let mut config = Config::default();
    assert!(config.global_variable_prefix.is_none());
    config.variable_case = Some(Case::Camel);
    assert_eq!(
        Formatter::new(config).format("int My_Var;"),
        Err(String::from(
            "changes required: \"My_Var\" has incorrect case, the correct case is \"myVar\""
        ))
    );
}

#[test]
fn function_case() {
    let mut config = Config::default();

    // Make sure default config uses other setting.
    assert!(config.function_case.is_none());

    // Change the setting.
    config.function_case = Some(Case::Camel);

    // Test.
    fails(&config, "void DoThing() {\n}");
    fails(&config, "void do_thing() {\n}");
    succeeds(&config, "void doThing() {\n}");
}

#[test]
fn struct_case() {
    let mut config = Config::default();

    // Make sure default config uses other setting.
    assert!(config.struct_case.is_none());

    // Change the setting.
    config.struct_case = Some(Case::Pascal);

    // Test.
    fails(&config, "struct my_struct {\n    int a;\n};");
    fails(&config, "struct myStruct {\n    int a;\n};");
    succeeds(&config, "struct MyStruct {\n    int a;\n};");
}

#[test]
fn variable_prefix() {
    let mut config = Config::default();

    // Make sure default config uses other setting.
    assert!(config.bool_prefix.is_none());
    assert!(config.int_prefix.is_none());
    assert!(config.float_prefix.is_none());

    // Change the setting.
    config.bool_prefix = Some(String::from("b"));
    config.int_prefix = Some(String::from("i"));
    config.float_prefix = Some(String::from("f"));

    // Test.
    fails(&config, "bool enabled;");
    succeeds(&config, "bool bEnabled;");
    fails(&config, "int count;");
    fails(&config, "uint count;");
    succeeds(&config, "int iCount;");
    fails(&config, "float width;");
    fails(&config, "double width;");
    succeeds(&config, "float fWidth;");
    succeeds(&config, "float4 color;");
}

#[test]
fn global_variable_prefix() {
    let mut config = Config::default();

    // Make sure default config uses other setting.
    assert!(config.global_variable_prefix.is_none());
    assert!(config.int_prefix.is_none());
    assert!(config.variable_case.is_none());

    // Change the setting.
    config.global_variable_prefix = Some(String::from("g_"));
    config.int_prefix = Some(String::from("i"));
    config.variable_case = Some(Case::Camel);

    // Test.
    fails(&config, "int iCount;");
    fails(&config, "int g_count;");
    fails(&config, "int g_ICount;");
    succeeds(&config, "int g_iCount;");
    succeeds(&config, "void f() {\n    int iCount;\n}\nint g_iOther;");
    fails(&config, "void f() {\n    int g_iCount;\n}");
    fails(&config, "void f() {\n}\nint iOther;");
}

#[test]
fn global_prefix_messages() {
    let mut config = Config::default();
    config.global_variable_prefix = Some(String::from("g_"));
    let formatter = Formatter::new(config);
    assert_eq!(
        formatter.check_variable_name("count", Type::Integer, true),
        Err(String::from(
            "\"count\" has incorrect prefix because it's a global variable, the correct name is probably \"g_count\""
        ))
    );
    assert_eq!(formatter.check_variable_name("count", Type::Integer, false), Ok(()));
    assert_eq!(formatter.check_variable_name("g_count", Type::Integer, true), Ok(()));

    let mut config = Config::default();
    config.global_variable_prefix = Some(String::from("é"));
    let formatter = Formatter::new(config);
    assert_eq!(
        formatter.check_variable_name("éa", Type::Integer, true),
        Err(String::from("expected global prefix rule \"é\" and \"éa\" to have an ASCII-only name"))
    );
}

#[test]
fn prefix_is_stripped_before_the_other_rules() {
    let mut config = Config::default();
    config.global_variable_prefix = Some(String::from("g_"));
    config.variable_case = Some(Case::Pascal);
    config.float_prefix = Some(String::from("F"));
    let formatter = Formatter::new(config);
    assert_eq!(formatter.check_variable_name("g_FWidth", Type::Float, true), Ok(()));
    assert_eq!(
        formatter.check_variable_name("g_fWidth", Type::Float, true),
        Err(String::from("\"fWidth\" has incorrect case, the correct case is \"FWidth\""))
    );
    assert_eq!(
        formatter.check_variable_name("g_Width", Type::Float, true),
        Err(String::from("variable \"Width\" has incorrect prefix, the correct prefix is \"F\""))
    );
}

#[test]
fn case_checks_accept_names_in_their_case() {
    assert_eq!(Formatter::is_case_different("myVar", Case::Camel), Ok(()));
    assert_eq!(Formatter::is_case_different("MyVar", Case::Pascal), Ok(()));
    assert_eq!(Formatter::is_case_different("my_var", Case::Snake), Ok(()));
    assert_eq!(Formatter::is_case_different("MY_VAR", Case::UpperSnake), Ok(()));
}

#[test]
fn case_checks_suggest_the_converted_name() {
    assert_eq!(Formatter::is_case_different("My_Var", Case::Camel), Err(String::from("myVar")));
    assert_eq!(Formatter::is_case_different("my_var", Case::Pascal), Err(String::from("MyVar")));
    assert_eq!(Formatter::is_case_different("myVar", Case::Snake), Err(String::from("my_var")));
    assert_eq!(
        Formatter::is_case_different("myVar", Case::UpperSnake),
        Err(String::from("MY_VAR"))
    );
}

#[test]
fn suggested_names_are_accepted() {
    for case in [Case::Camel, Case::Pascal, Case::Snake, Case::UpperSnake] {
        for name in ["My_Var", "someLongName", "HTTPRequest", "a1b2", "x"] {
            match Formatter::is_case_different(name, case) {
                Ok(()) => {}
                Err(correct) => assert_eq!(Formatter::is_case_different(&correct, case), Ok(())),
            }
        }
    }
}

#[test]
fn compare_case_compares() {
    assert_eq!(Formatter::compare_case("abc", String::from("abc")), Ok(()));
    assert_eq!(Formatter::compare_case("abc", String::from("Abc")), Err(String::from("Abc")));
    assert_eq!(Formatter::compare_case("", String::from("")), Ok(()));
}

#[test]
fn check_name_case_words_the_objection() {
    assert_eq!(Formatter::check_name_case("doThing", Case::Camel), Ok(()));
    assert_eq!(
        Formatter::check_name_case("do_thing", Case::Camel),
        Err(String::from("\"do_thing\" has incorrect case, the correct case is \"doThing\""))
    );
}

#[test]
fn check_prefix_words_the_objection() {
    assert_eq!(Formatter::check_prefix("bEnabled", "b"), Ok(()));
    assert_eq!(Formatter::check_prefix("b", "b"), Ok(()));
    assert_eq!(Formatter::check_prefix("x", ""), Ok(()));
    assert_eq!(
        Formatter::check_prefix("enabled", "b"),
        Err(String::from("variable \"enabled\" has incorrect prefix, the correct prefix is \"b\""))
    );
    assert_eq!(
        Formatter::check_prefix("", "b"),
        Err(String::from("variable \"\" has incorrect prefix, the correct prefix is \"b\""))
    );
}

#[test]
fn require_docs_on_functions() {
    let mut config = Config::default();

    // Make sure default config uses other setting.
    assert!(!config.require_docs_on_functions);

    // Change the setting.
    config.require_docs_on_functions = true;

    // Test.
    fails(&config, "void f() {\n}");
    fails(&config, "/** Does. */\nfloat f() {\n}");
    fails(&config, "/** Does. @return x */\nvoid f() {\n}");
    fails(&config, "/** Does. @return x */\nfloat f(int a) {\n}");
    fails(&config, "/** Does. @param a one @param b two @return x */\nfloat f(int a) {\n}");
    succeeds(&config, "/** Does. */\nvoid f() {\n}");
    succeeds(&config, "/** Does. @return x */\nfloat f() {\n}");
    succeeds(&config, "/** Does. @param a one @return x */\nfloat f(int a) {\n}");
    succeeds(
        &config,
        "/// Does.\n/// @param a one\n/// @param b two\n/// @return x\nfloat f(int a, Foo b, float4 c : SV_Position) {\n}",
    );
}

#[test]
fn function_docs_need_return_for_a_value() {
    let without = function("f", Type::Float, vec![], "Computes.");
    assert_eq!(
        Formatter::check_function_docs(&without),
        Err(String::from(
            "expected to find documentation of the return value for the function \"f\""
        ))
    );
    let with = function("f", Type::Float, vec![], "Computes. @return the value");
    assert_eq!(Formatter::check_function_docs(&with), Ok(()));
}

#[test]
fn function_docs_objections() {
    assert_eq!(
        Formatter::check_function_docs(&function("f", Type::Void, vec![], "")),
        Err(String::from("expected to find documentation for the function \"f\""))
    );
    assert_eq!(
        Formatter::check_function_docs(&function("f", Type::Void, vec![], "Täuscht.")),
        Err(String::from(
            "expected the documentation for the function \"f\" to only use ASCII characters"
        ))
    );
    assert_eq!(
        Formatter::check_function_docs(&function("f", Type::Void, vec![], "Does. @return x")),
        Err(String::from("found documentation of the VOID return value for the function \"f\""))
    );
    assert_eq!(
        Formatter::check_function_docs(&function(
            "f",
            Type::Void,
            vec![argument(Type::Integer, "a", false), argument(Type::Integer, "b", false)],
            "Does. @param b two"
        )),
        Err(String::from(
            "expected to find documentation for the argument \"a\" of the function \"f\""
        ))
    );
    assert_eq!(
        Formatter::check_function_docs(&function(
            "f",
            Type::Void,
            vec![argument(Type::Integer, "a", false)],
            "Does. @param a one @param   zz two @param yy"
        )),
        Err(String::from(
            "found documentation for a non-existing argument \"zz\" of the function \"f\""
        ))
    );
    assert_eq!(
        Formatter::check_function_docs(&function(
            "f",
            Type::Void,
            vec![argument(Type::Vector, "pos", true), argument(Type::Integer, "a", false)],
            "Does. @param a one"
        )),
        Ok(())
    );
    assert_eq!(
        Formatter::check_function_docs(&function(
            "f",
            Type::Void,
            vec![argument(Type::Vector, "pos", true)],
            "Does. @param pos where"
        )),
        Ok(())
    );
}

#[test]
fn require_docs_on_structs() {
    let mut config = Config::default();

    // Make sure default config uses other setting.
    assert!(!config.require_docs_on_structs);

    // Change the setting.
    config.require_docs_on_structs = true;

    // Test.
    fails(&config, "struct Foo {\n    int a;\n};");
    succeeds(&config, "/// A thing.\nstruct Foo {\n    int a;\n};");
}

#[test]
fn require_docs_on_fields() {
    let mut config = Config::default();

    // Make sure default config uses other setting.
    assert!(!config.require_docs_on_fields);

    // Change the setting.
    config.require_docs_on_fields = true;

    // Test.
    fails(&config, "struct Foo {\n    /// first\n    int a;\n    int b;\n};");
    succeeds(&config, "struct Foo {\n    /// first\n    int a;\n    /// second\n    int b;\n};");
}

#[test]
fn struct_docs_objections() {
    let undocumented = StructInfo {
        name: String::from("Foo"),
        fields: vec![
            StructField { _type: Type::Integer, name: String::from("a"), docs: String::from("x") },
            StructField { _type: Type::Integer, name: String::from("b"), docs: String::new() },
            StructField { _type: Type::Integer, name: String::from("c"), docs: String::new() },
        ],
        docs: String::new(),
    };
    assert_eq!(
        Formatter::check_struct_docs(&undocumented),
        Err(String::from("expected to find documentation for the struct \"Foo\""))
    );
    assert_eq!(
        Formatter::check_struct_field_docs(&undocumented),
        Err(String::from("expected to find documentation for the struct field \"b\""))
    );
    let documented = StructInfo {
        name: String::from("Foo"),
        fields: vec![],
        docs: String::from("A thing."),
    };
    assert_eq!(Formatter::check_struct_docs(&documented), Ok(()));
    assert_eq!(Formatter::check_struct_field_docs(&documented), Ok(()));
}

#[test]
fn nolint() {
    let mut config = Config::default();

    // Make sure default config uses other setting.
    assert!(config.variable_case.is_none());
    assert!(config.struct_case.is_none());

    // Change the setting.
    config.variable_case = Some(Case::Camel);
    config.struct_case = Some(Case::Pascal);

    // Test.
    fails(&config, "int Bad_Name;");
    fails(&config, "// NOLINTBEGIN\nint Bad_Name;");
    fails(&config, "int Bad_Name;\n// NOLINTBEGIN\nint Other_Bad;\n// NOLINTEND\nint Third_Bad;");
    succeeds(&config, "int Bad_Name; // NOLINT");
    succeeds(&config, "// NOLINTBEGIN\nint Bad_Name;\nint Other_Bad;\n// NOLINTEND\nint goodName;");
    succeeds(&config, "int Bad_Name; // NOLINT: kept for the host");
}

#[test]
fn unmatched_nolint_is_an_objection() {
    assert_eq!(
        check(Config::default(), "// NOLINTBEGIN\nint a;"),
        Err(String::from("`NOLINTBEGIN` was found but no matching `NOLINTEND` detected"))
    );
    assert_eq!(check(Config::default(), "// NOLINTBEGIN\nint a;\n// NOLINTEND"), Ok(()));
    assert_eq!(check(Config::default(), "// NOLINTEND"), Ok(()));
}

#[test]
fn stray_closing_brace_is_an_objection() {
    assert_eq!(
        check(Config::default(), "void f() }"),
        Err(String::from("found '}' but scope nesting counter is already zero"))
    );
    assert_eq!(check(Config::default(), "}"), Ok(()));
    assert_eq!(check(Config::default(), "void f() { { } } int a;"), Ok(()));
}

#[test]
fn text_starts_with_comment() {
    assert!(Formatter::is_text_starts_with_comment("   // comment"));
    assert!(Formatter::is_text_starts_with_comment("\t/ /x"));
    assert!(!Formatter::is_text_starts_with_comment("  3// comment"));
    assert!(!Formatter::is_text_starts_with_comment("/"));
    assert!(!Formatter::is_text_starts_with_comment(""));
}
