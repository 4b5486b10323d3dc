use shader_formatter::config::Config;
use shader_formatter::formatter::Formatter;
use shader_formatter::formatter::CHANGES_REQUIRED_ERR_MSG;
use shader_formatter::rules::IndentationRule;
use shader_formatter::rules::NewLineOnOpenBrace;

fn format_with(config: Config, input: &str) -> String {
    match Formatter::new(config).format(input) {
        Ok(output) => output,
        Err(message) => panic!("{}", message),
    }
}

fn layout_with(config: Config, input: &str) -> String {
    match Formatter::new(config).apply_simple_rules(input) {
        Ok(output) => output,
        Err(message) => panic!("{}", message),
    }
}

#[test]
fn default_settings() {
    let input = "struct Foo{\nint a;\n};\n\nvoid main(){\nfloat x = 1.0;\n}\n";
    let expected = "struct Foo {\n    int a;\n};\n\nvoid main() {\n    float x = 1.0;\n}\n";
    assert_eq!(format_with(Config::default(), input), expected);
}

#[test]
fn add_indentation_on_new_line_in_braces() {
    let config = Config::default();

    assert!(config.spaces_in_brackets == false);

    let input = "void foo(\nint a,\nint b)\n{\n}\n";
    let expected = "void foo(\n    int a,\n    int b) {\n}\n";
    assert_eq!(layout_with(config, input), expected);
}

#[test]
fn dont_remove_spaces_in_comparison() {
    let config = Config::default();

    assert!(config.spaces_in_brackets == false);

    let input = "bool b = a < c;\nbool d = a > c;\n";
    assert_eq!(layout_with(config, input), input);
}

#[test]
fn bracket_avoids_comments() {
    let config = Config::default();

    assert!(config.spaces_in_brackets == false);

    assert_eq!(
        layout_with(Config::default(), "struct Foo // comment\n{\n};\n"),
        "struct Foo { // comment\n};\n"
    );
    assert_eq!(
        layout_with(Config::default(), "struct Foo    // comment\n{\nint a;\n};\n"),
        "struct Foo { // comment\n    int a;\n};\n"
    );
    assert_eq!(
        layout_with(Config::default(), "// only a comment\n{\n}\n"),
        "// only a comment\n{\n}\n"
    );
}

#[test]
fn long_line_split_indentation() {
    let input = "void f()\n{\nint some_long_name\n= 5;\n}\n";
    let expected = "void f() {\n    int some_long_name\n        = 5;\n}\n";
    assert_eq!(layout_with(Config::default(), input), expected);
}

#[test]
fn func_arg_input_modifier_parsing() {
    let formatter = Formatter::new(Config::default());
    let input = "void foo(in float a, out float b, uniform Foo c)\n{\n}\n";
    match formatter.format(input) {
        Ok(_) => {}
        Err(message) => panic!("{}", message),
    }
}

#[test]
fn new_line_after_brace_in_multiline_macro() {
    let config = Config::default();

    assert!(config.new_line_around_braces == NewLineOnOpenBrace::After);

    let input = "#define FOO \\\n{ \\\nint a; \\\n}\n";
    let expected = "#define FOO {\\\n    int a; \\\n}\n";
    assert_eq!(layout_with(config, input), expected);
}

#[test]
fn new_line_before_brace_in_multiline_macro() {
    let mut config = Config::default();

    assert!(config.new_line_around_braces != NewLineOnOpenBrace::Before);
    config.new_line_around_braces = NewLineOnOpenBrace::Before;

    let input = "#define FOO \\\n{ \\\nint a; \\\n}\n";
    let expected = "#define FOO \\\n{\\\n    \\\n    int a; \\\n}\n";
    assert_eq!(layout_with(config, input), expected);
}

#[test]
fn empty_files() {
    let formatter = Formatter::new(Config::default());
    assert_eq!(formatter.format(""), Ok(String::new()));
    assert_eq!(formatter.format("\n"), Ok(String::from("\n")));
}

#[test]
fn new_line_before_brace() {
    let mut config = Config::default();

    // Make sure default config uses other setting.
    assert!(config.new_line_around_braces == NewLineOnOpenBrace::After);

    // Change the setting.
    config.new_line_around_braces = NewLineOnOpenBrace::Before;

    // Test.
    let input = "struct Foo {\nint a;\n};\n";
    let expected = "struct Foo\n{\n    int a;\n};\n";
    assert_eq!(format_with(config, input), expected);
}

#[test]
fn spaces_in_brackets() {
    let mut config = Config::default();

    // Make sure default config uses other setting.
    assert!(config.new_line_around_braces == NewLineOnOpenBrace::After);

    // Change the setting.
    config.spaces_in_brackets = true;

    // Test.
    let input = "void foo(int a, int b);\nint c[2];\nfoo();\n";
    let expected = "void foo( int a, int b );\nint c[ 2 ];\nfoo();\n";
    assert_eq!(layout_with(config, input), expected);
}

#[test]
fn indent_preprocessor() {
    let mut config = Config::default();

    // Make sure default config uses other setting.
    assert!(!config.indent_preprocessor);

    // Change the setting.
    config.indent_preprocessor = true;

    // Test.
    let input = "void f()\n{\n#ifdef A\nint a;\n#endif\n}\n";
    let expected = "void f() {\n    #ifdef A\n    int a;\n    #endif\n}\n";
    assert_eq!(layout_with(config, input), expected);
}

#[test]
fn directives_stay_in_first_column_by_default() {
    let input = "void f()\n{\n#ifdef A\nint a;\n#endif\n}\n";
    let expected = "void f() {\n#ifdef A\n    int a;\n#endif\n}\n";
    assert_eq!(layout_with(Config::default(), input), expected);
}

#[test]
fn preprocessor_if_creates_nesting() {
    let mut config = Config::default();

    // Make sure default config uses other setting.
    assert!(!config.indent_preprocessor);
    assert!(!config.preprocessor_if_creates_nesting);

    // Change the setting.
    config.indent_preprocessor = true;
    config.preprocessor_if_creates_nesting = true;

    // Test.
    assert_eq!(
        layout_with(config.clone(), "#ifdef A\nint a;\n#else\nint b;\n#endif\nint c;\n"),
        "#ifdef A\n    int a;\n#else\n    int b;\n#endif\nint c;\n"
    );
    assert_eq!(
        layout_with(config, "#if X\n#if Y\nint a;\n#elif Z\nint b;\n#endif\n#endif\n"),
        "#if X\n    #if Y\n        int a;\n    #elif Z\n        int b;\n    #endif\n#endif\n"
    );
}

#[test]
fn noformat() {
    // Test.
    assert_eq!(
        layout_with(
            Config::default(),
            "// NOFORMATBEGIN\nint a[ 2 ] = { 1,  2 };\n// NOFORMATEND\nint b[ 2 ];\n"
        ),
        "// NOFORMATBEGIN\nint a[ 2 ] = { 1,  2 };\n// NOFORMATEND\nint b[2];\n"
    );
    assert_eq!(
        layout_with(Config::default(), "// NOFORMATBEGIN more\nfoo( a );\n"),
        "// NOFORMATBEGIN more\nfoo(a);\n"
    );
    assert_eq!(
        layout_with(Config::default(), "foo( a );\n// NOFORMATBEGIN\nfoo( a );\n// NOFORMATEND"),
        "foo(a);\n// NOFORMATBEGIN\nfoo( a );\n// NOFORMATEND"
    );
    assert_eq!(
        layout_with(
            Config::default(),
            "f()\n{\n  // NOFORMATBEGIN\n      a (  b );\n\n\n\n\t// NOFORMATEND\n  c ( d );\n}"
        ),
        "f() {\n    // NOFORMATBEGIN\n      a (  b );\n\n\n\n\t// NOFORMATEND\n    c (d);\n}"
    );
    let formatter = Formatter::new(Config::default());
    assert!(formatter.format("// NOFORMATBEGIN\nfoo( a );\n").is_err());
}

#[test]
fn text_between_the_markers_is_copied_as_it_is() {
    let formatter = Formatter::new(Config::default());
    let content = "// NOFORMATBEGIN\n  int a;\n// NOFORMATEND";
    assert_eq!(formatter.apply_simple_rules(content), Ok(content.to_string()));
    assert_eq!(formatter.format(content), Ok(content.to_string()));

    let content = "// NOFORMATBEGIN\n\t\tx  =  1 ;\n\n\n\n   #if A\n =2;\n   /** c\n* d */\n// NOFORMATEND\n";
    assert_eq!(formatter.apply_simple_rules(content), Ok(content.to_string()));
}

#[test]
fn formatting_goes_on_around_the_markers() {
    let input = "void f()\n{\n// NOFORMATBEGIN\n\tint  a [ 2 ];\n\n\n\n  {x;}\n  // NOFORMATEND\nint b [ 2 ];\n}\n";
    let expected = "void f() {\n    // NOFORMATBEGIN\n\tint  a [ 2 ];\n\n\n\n  {x;}\n  // NOFORMATEND\n    int b [2];\n}\n";
    assert_eq!(layout_with(Config::default(), input), expected);
}

#[test]
fn line_endings_between_the_markers_are_those_of_the_rules() {
    assert_eq!(
        layout_with(Config::default(), "// NOFORMATBEGIN\r\n a\r\n// NOFORMATEND"),
        "// NOFORMATBEGIN\n a\n// NOFORMATEND"
    );
    let mut config = Config::default();
    config.force_line_ending = Some(String::from("\r\n"));
    assert_eq!(
        layout_with(config, "// NOFORMATBEGIN\n a\n\n// NOFORMATEND\n"),
        "// NOFORMATBEGIN\r\n a\r\n\r\n// NOFORMATEND\r\n"
    );
}

#[test]
fn unmatched_noformat_marker_is_fatal() {
    let formatter = Formatter::new(Config::default());
    let expected = String::from("NOFORMATBEGIN was found but no matching NOFORMATEND detected");
    assert_eq!(formatter.apply_simple_rules("// NOFORMATBEGIN\nint x;"), Err(expected.clone()));
    assert_eq!(formatter.format("// NOFORMATBEGIN\nint x;"), Err(expected.clone()));
    assert_eq!(formatter.format("int y;\n// NOFORMATBEGIN"), Err(expected));
}

#[test]
fn empty_lines_no_indent() {
    let mut config = Config::default();

    config.indent_preprocessor = true;
    config.preprocessor_if_creates_nesting = true;

    // Test.
    assert_eq!(layout_with(config, "int a;\n\n\n\n\nint b;\n"), "int a;\n\nint b;\n");
}

#[test]
fn statement_without_braces_is_left_alone() {
    assert_eq!(format_with(Config::default(), "int x=5;"), "int x=5;");
}

#[test]
fn struct_with_brace_after() {
    let config = Config::default();
    assert!(config.indentation == IndentationRule::FourSpaces);
    assert!(config.new_line_around_braces == NewLineOnOpenBrace::After);
    assert_eq!(
        format_with(config, "struct Foo{\nint a;\n};"),
        "struct Foo {\n    int a;\n};"
    );
}

#[test]
fn struct_with_brace_before() {
    let mut config = Config::default();
    config.new_line_around_braces = NewLineOnOpenBrace::Before;
    assert_eq!(
        format_with(config, "struct Foo{\nint a;\n};"),
        "struct Foo\n{\n    int a;\n};"
    );
}

#[test]
fn blank_lines_are_capped() {
    let mut config = Config::default();
    config.max_empty_lines = 0;
    assert_eq!(layout_with(config.clone(), "a;\n\n\n\nb;\n\n\n"), "a;\nb;\n");
    config.max_empty_lines = 2;
    assert_eq!(layout_with(config, "a;\n\n\n\n\n\nb;"), "a;\n\n\nb;");
}

#[test]
fn carriage_returns_are_dropped() {
    assert_eq!(layout_with(Config::default(), "a;\r\nb;\r\n"), "a;\nb;\n");
}

#[test]
fn forced_line_ending_is_written() {
    let mut config = Config::default();
    config.force_line_ending = Some(String::from("\r\n"));
    assert_eq!(
        layout_with(config, "struct Foo{\nint a;\n};\n"),
        "struct Foo {\r\n    int a;\r\n};\r\n"
    );
}

#[test]
fn tabs_and_two_spaces_indent() {
    let mut config = Config::default();
    config.indentation = IndentationRule::Tab;
    assert_eq!(layout_with(config.clone(), "a{\nb{\nc;\n}\n}"), "a {\n\tb {\n\t\tc;\n\t}\n}");
    config.indentation = IndentationRule::TwoSpaces;
    assert_eq!(layout_with(config, "a{\nb{\nc;\n}\n}"), "a {\n  b {\n    c;\n  }\n}");
}

#[test]
fn leading_blanks_are_regenerated() {
    assert_eq!(
        layout_with(Config::default(), "  \t a;\n      b;\n{\n\t\t\tc;\n}"),
        "a;\nb; {\n    c;\n}"
    );
}

#[test]
fn block_comments_are_copied() {
    let input = "/** a { b ( c\n* d [ e\n*/\nint x;\n";
    let expected = "/** a { b ( c\n * d [ e\n */\nint x;\n";
    assert_eq!(layout_with(Config::default(), input), expected);
}

#[test]
fn line_comments_are_copied() {
    let input = "int a; // x { y ( z )\nint b;\n";
    assert_eq!(layout_with(Config::default(), input), input);
}

#[test]
fn closing_brace_on_directive_line_stays_there() {
    assert_eq!(layout_with(Config::default(), "#define END   }\n"), "#define END }\n");
    assert_eq!(layout_with(Config::default(), "int a;   }\n"), "int a;\n}\n");
}

#[test]
fn empty_brackets_get_no_space() {
    let mut config = Config::default();
    config.spaces_in_brackets = true;
    assert_eq!(layout_with(config, "f(  );\ng[ ];\n"), "f();\ng[];\n");
}

#[test]
fn formatting_is_repeatable() {
    let formatter = Formatter::new(Config::default());
    let input = "struct Foo{\nint a;\n};\nvoid main( ){\nfoo( 1,2 );\n}\n";
    let once = formatter.format(input);
    let twice = formatter.format(input);
    assert_eq!(once, twice);
    let output = once.unwrap();
    assert_eq!(formatter.format(&output), Ok(output.clone()));
}

#[test]
fn semantic_errors_carry_the_marker() {
    let mut config = Config::default();
    config.require_docs_on_structs = true;
    let formatter = Formatter::new(config);
    match formatter.format("struct Foo{\nint a;\n};") {
        Ok(_) => panic!("expected an objection"),
        Err(message) => {
            assert!(message.starts_with(CHANGES_REQUIRED_ERR_MSG));
            assert_eq!(
                message,
                "changes required: expected to find documentation for the struct \"Foo\""
            );
        }
    }
}

#[test]
fn oversized_integer_is_reported_with_its_position() {
    let formatter = Formatter::new(Config::default());
    assert_eq!(
        formatter.format("int a;\nint b = 99999999999999999999;\n"),
        Err(String::from(
            "token parser error at line 2 column 9, reason: integer literal does not fit in 64 bits"
        ))
    );
    assert_eq!(
        formatter.format("99999999999999999999"),
        Err(String::from(
            "token parser error at line 1 column 0, reason: integer literal does not fit in 64 bits"
        ))
    );
}

#[test]
fn a_second_pass_moves_a_comment_behind_a_brace() {
    let once = format_with(Config::default(), "foo // c\n{");
    assert_eq!(once, "foo { // c\n    ");
    assert_eq!(format_with(Config::default(), &once), "foo {\n    // c\n    ");
}

#[test]
fn a_second_pass_changes_nothing_of_short_plain_code() {
    let alphabet = ['a', ' ', '\n', '{', '}', '(', ')', '#', '='];
    let mut other = Config::default();
    other.new_line_around_braces = NewLineOnOpenBrace::Before;
    other.spaces_in_brackets = true;
    other.indent_preprocessor = true;
    other.max_empty_lines = 0;
    other.force_line_ending = Some(String::from("\r\n"));
    let mut nesting = Config::default();
    nesting.indent_preprocessor = true;
    nesting.preprocessor_if_creates_nesting = true;
    for config in [Config::default(), other, nesting] {
        let alphabet: Vec<char> = alphabet
            .iter()
            .copied()
            .filter(|&c| c != '#' || !config.preprocessor_if_creates_nesting)
            .collect();
        let formatter = Formatter::new(config);
        for length in 0..=5usize {
            let mut digits = vec![0usize; length];
            loop {
                let text: String = digits.iter().map(|&digit| alphabet[digit]).collect();
                if let Ok(once) = formatter.format(&text) {
                    assert_eq!(formatter.format(&once), Ok(once.clone()), "from {:?}", text);
                }
                let laid_out = formatter.apply_simple_rules(&text).unwrap();
                assert_eq!(formatter.apply_simple_rules(&laid_out), Ok(laid_out.clone()));
                let mut place = 0;
                while place < length {
                    digits[place] += 1;
                    if digits[place] < alphabet.len() {
                        break;
                    }
                    digits[place] = 0;
                    place += 1;
                }
                if place == length {
                    break;
                }
            }
        }
    }
}

#[test]
fn a_second_pass_may_change_continued_lines_and_nested_directives() {
    let once = layout_with(Config::default(), "\\\n{");
    assert_eq!(once, " {");
    assert_eq!(layout_with(Config::default(), &once), " {\n    ");

    let mut config = Config::default();
    config.indent_preprocessor = true;
    config.preprocessor_if_creates_nesting = true;
    let once = layout_with(config.clone(), "#if\n{");
    assert_eq!(once, "#if {\n        ");
    assert_eq!(layout_with(config, &once), "#if {\n    ");
}

#[test]
fn a_brace_in_a_comment_stays_where_it_is() {
    assert_eq!(layout_with(Config::default(), "//{\nx"), "//{\nx");
    assert_eq!(layout_with(Config::default(), "a{{)"), "a { {)");
}

#[test]
fn blank_lines_are_capped_under_any_single_line_ending() {
    let mut config = Config::default();
    config.max_empty_lines = 1;
    config.force_line_ending = Some(String::from(";\n"));
    assert_eq!(layout_with(config.clone(), "a\n\n\n\n\nb"), "a;\n;\nb");
    config.force_line_ending = Some(String::from("\n\n"));
    assert_eq!(layout_with(config, "a\n\n\n\n\nb"), "a\n\n\n\nb");
}

#[test]
fn blank_lines_between_the_markers_are_not_capped() {
    let content = "// NOFORMATBEGIN\n\n\n\n\n\n// NOFORMATEND\n\n\n\n\nx";
    assert_eq!(
        layout_with(Config::default(), content),
        "// NOFORMATBEGIN\n\n\n\n\n\n// NOFORMATEND\n\nx"
    );
}
