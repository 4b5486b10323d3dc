use shader_formatter::config::Config;
use shader_formatter::config::RuleValue;
use shader_formatter::rules::Case;
use shader_formatter::rules::IndentationRule;
use shader_formatter::rules::NewLineOnOpenBrace;

fn text(value: &str) -> RuleValue {
    RuleValue::Text(String::from(value))
}

fn rule(key: &str, value: RuleValue) -> (String, RuleValue) {
    (String::from(key), value)
}

fn error_of(result: Result<Config, String>) -> String {
    match result {
        Ok(_) => panic!("expected the rules to be turned down"),
        Err(message) => message,
    }
}

#[test]
fn built_in_rules() {
    let config = Config::default();
    assert!(config.new_line_around_braces == NewLineOnOpenBrace::After);
    assert!(config.indentation == IndentationRule::FourSpaces);
    assert_eq!(config.max_empty_lines, 1);
    assert!(!config.spaces_in_brackets);
    assert!(config.variable_case.is_none());
    assert!(config.function_case.is_none());
    assert!(config.struct_case.is_none());
    assert!(config.bool_prefix.is_none());
    assert!(config.int_prefix.is_none());
    assert!(config.float_prefix.is_none());
    assert!(config.global_variable_prefix.is_none());
    assert!(config.force_line_ending.is_none());
    assert!(!config.require_docs_on_functions);
    assert!(!config.require_docs_on_structs);
    assert!(!config.require_docs_on_fields);
    assert!(!config.indent_preprocessor);
    assert!(!config.preprocessor_if_creates_nesting);
}

#[test]
fn no_rules_file_gives_the_built_in_rules() {
    let config = Config::get(None).unwrap();
    assert!(config.indentation == IndentationRule::FourSpaces);
    assert_eq!(config.max_empty_lines, 1);
    assert!(config.variable_case.is_none());
    let empty = Config::get(Some(("shader-formatter.toml", ""))).unwrap();
    assert_eq!(empty.max_empty_lines, 1);
    assert!(empty.new_line_around_braces == NewLineOnOpenBrace::After);
}

#[test]
fn a_rules_file_sets_every_rule() {
    let content = "Indentation = \"Tab\"\n\
        NewLineOnOpenBrace = \"Before\"\n\
        MaxEmptyLines = 3\n\
        SpacesInBrackets = true\n\
        VariableCase = \"Camel\"\n\
        FunctionCase = \"Snake\"\n\
        StructCase = \"Pascal\"\n\
        BoolPrefix = \"b\"\n\
        IntPrefix = \"i\"\n\
        FloatPrefix = \"f\"\n\
        GlobalVariablePrefix = \"g_\"\n\
        ForceLineEnding = \"\\r\\n\"\n\
        RequireDocsOnFunctions = true\n\
        RequireDocsOnStructs = true\n\
        RequireDocsOnFields = true\n\
        IndentPreprocessor = true\n\
        PreprocessorIfCreatesNesting = true\n";
    let config = Config::get(Some(("rules.toml", content))).unwrap();
    assert!(config.indentation == IndentationRule::Tab);
    assert!(config.new_line_around_braces == NewLineOnOpenBrace::Before);
    assert_eq!(config.max_empty_lines, 3);
    assert!(config.spaces_in_brackets);
    assert!(config.variable_case == Some(Case::Camel));
    assert!(config.function_case == Some(Case::Snake));
    assert!(config.struct_case == Some(Case::Pascal));
    assert_eq!(config.bool_prefix, Some(String::from("b")));
    assert_eq!(config.int_prefix, Some(String::from("i")));
    assert_eq!(config.float_prefix, Some(String::from("f")));
    assert_eq!(config.global_variable_prefix, Some(String::from("g_")));
    assert_eq!(config.force_line_ending, Some(String::from("\r\n")));
    assert!(config.require_docs_on_functions);
    assert!(config.require_docs_on_structs);
    assert!(config.require_docs_on_fields);
    assert!(config.indent_preprocessor);
    assert!(config.preprocessor_if_creates_nesting);
}

#[test]
fn a_rules_file_that_is_no_toml_is_turned_down() {
    let message = error_of(Config::load_from_file("dir/rules.toml", "Indentation = "));
    assert!(message.starts_with("failed to parse config file at dir/rules.toml, error: "));
    assert!(message.len() > "failed to parse config file at dir/rules.toml, error: ".len());
    let twice = error_of(Config::load_from_file("x", "MaxEmptyLines = 1\nMaxEmptyLines = 2\n"));
    assert!(twice.starts_with("failed to parse config file at x, error: "));
}

#[test]
fn the_first_rule_in_key_order_that_fails_is_reported() {
    assert_eq!(
        error_of(Config::load_from_file("x", "Zebra = 1\nApple = 2\n")),
        "found unknown rule \"Apple\""
    );
    assert_eq!(
        error_of(Config::load_from_file("x", "VariableCase = \"Kebab\"\nIndentation = 4\n")),
        "expected value for key \"Indentation\" to be a string"
    );
}

#[test]
fn values_of_other_kinds_are_turned_down() {
    assert_eq!(
        error_of(Config::load_from_file("x", "MaxEmptyLines = 1.5\n")),
        "expected value for key \"MaxEmptyLines\" to be an integer"
    );
    assert_eq!(
        error_of(Config::load_from_file("x", "MaxEmptyLines = -1\n")),
        "expected value for key \"MaxEmptyLines\" to be an unsigned integer"
    );
    assert_eq!(
        error_of(Config::load_from_file("x", "SpacesInBrackets = \"yes\"\n")),
        "expected value for key \"SpacesInBrackets\" to be a boolean"
    );
    assert_eq!(
        error_of(Config::load_from_file("x", "BoolPrefix = [\"b\"]\n")),
        "expected value for key \"BoolPrefix\" to be a string"
    );
    assert_eq!(
        error_of(Config::load_from_file("x", "[Indentation]\nkind = \"Tab\"\n")),
        "expected value for key \"Indentation\" to be a string"
    );
    assert_eq!(
        error_of(Config::load_from_file("x", "StructCase = 1979-05-27\n")),
        "expected value for key \"StructCase\" to be a string"
    );
}

#[test]
fn rules_from_values() {
    let config = Config::from_rules(&vec![
        rule("Indentation", text("TwoSpaces")),
        rule("MaxEmptyLines", RuleValue::Integer(0)),
        rule("Indentation", text("Tab")),
        rule("IntPrefix", text("")),
    ])
    .unwrap();
    assert!(config.indentation == IndentationRule::Tab);
    assert_eq!(config.max_empty_lines, 0);
    assert_eq!(config.int_prefix, Some(String::new()));
    assert!(Config::from_rules(&vec![]).unwrap().indentation == IndentationRule::FourSpaces);
}

#[test]
fn rules_with_unknown_choices_are_turned_down() {
    assert_eq!(
        error_of(Config::from_rules(&vec![rule("Indentation", text("EightSpaces"))])),
        "found unknown value \"EightSpaces\" for rule \"Indentation\""
    );
    assert_eq!(
        error_of(Config::from_rules(&vec![rule("NewLineOnOpenBrace", text("after"))])),
        "found unknown value \"after\" for rule \"NewLineOnOpenBrace\""
    );
    assert_eq!(
        error_of(Config::from_rules(&vec![rule("FunctionCase", text("Kebab"))])),
        "found unknown value \"Kebab\" for rule \"FunctionCase\""
    );
    assert_eq!(
        error_of(Config::from_rules(&vec![
            rule("MaxEmptyLines", RuleValue::Integer(2)),
            rule("indentation", text("Tab")),
            rule("Other", text("x")),
        ])),
        "found unknown rule \"indentation\""
    );
}

#[test]
fn every_case_name_is_known() {
    for (name, case) in [
        ("Camel", Case::Camel),
        ("Pascal", Case::Pascal),
        ("Snake", Case::Snake),
        ("UpperSnake", Case::UpperSnake),
    ] {
        let config = Config::from_rules(&vec![rule("StructCase", text(name))]).unwrap();
        assert!(config.struct_case == Some(case));
    }
}

#[test]
fn set_leaves_the_rules_alone_when_it_fails() {
    let mut config = Config::default();
    assert_eq!(config.set("MaxEmptyLines", &RuleValue::Integer(7)), Ok(()));
    assert_eq!(
        config.set("MaxEmptyLines", &RuleValue::Boolean(true)),
        Err(String::from("expected value for key \"MaxEmptyLines\" to be an integer"))
    );
    assert_eq!(config.max_empty_lines, 7);
    assert_eq!(config.set("MaxEmptyLines", &RuleValue::Integer(i64::MAX)), Ok(()));
    assert!(config.max_empty_lines >= u32::MAX as usize);
}

#[test]
fn from_parsed_words_the_parse_failure() {
    assert_eq!(
        error_of(Config::from_parsed("a/b.toml", Err(String::from("bad")))),
        "failed to parse config file at a/b.toml, error: bad"
    );
    let config = Config::from_parsed("a", Ok(vec![rule("SpacesInBrackets", RuleValue::Boolean(true))]));
    assert!(config.unwrap().spaces_in_brackets);
}
