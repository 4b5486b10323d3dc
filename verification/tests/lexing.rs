use shader_formatter::parser::lexer::LexError;
use shader_formatter::parser::token_parser;
use shader_formatter::parser::Span;
use shader_formatter::parser::Token;
use shader_formatter::parser::Type;

fn tokens_of(text: &str) -> Vec<Token> {
    token_parser(text).unwrap().into_iter().map(|(token, _)| token).collect()
}

fn ident(name: &str) -> Token {
    Token::Ident(String::from(name))
}

fn op(text: &str) -> Token {
    Token::Op(String::from(text))
}

#[test]
fn lexes_a_declaration_with_spans() {
    assert_eq!(
        token_parser("int x = 5;"),
        Ok(vec![
            (Token::TypeName(Type::Integer), Span { start: 0, end: 3 }),
            (ident("x"), Span { start: 4, end: 5 }),
            (op("="), Span { start: 6, end: 7 }),
            (Token::Integer(5), Span { start: 8, end: 9 }),
            (Token::Ctrl(';'), Span { start: 9, end: 10 }),
        ])
    );
}

#[test]
fn lexes_nothing_from_blank_text() {
    assert_eq!(token_parser(""), Ok(vec![]));
    assert_eq!(token_parser(" \t\r\n  \n"), Ok(vec![]));
}

#[test]
fn lexes_numbers() {
    assert_eq!(tokens_of("1.5"), vec![Token::Float(String::from("1.5"))]);
    assert_eq!(tokens_of("-2.25"), vec![Token::Float(String::from("-2.25"))]);
    assert_eq!(tokens_of("007"), vec![Token::Integer(7)]);
    assert_eq!(tokens_of("-7"), vec![Token::Integer(-7)]);
    assert_eq!(tokens_of("1."), vec![Token::Integer(1), Token::Ctrl('.')]);
    assert_eq!(tokens_of("1.x"), vec![Token::Integer(1), Token::Ctrl('.'), ident("x")]);
    assert_eq!(tokens_of("a-7"), vec![ident("a"), Token::Integer(-7)]);
    assert_eq!(tokens_of("a - 7"), vec![ident("a"), op("-"), Token::Integer(7)]);
    assert_eq!(tokens_of("--7"), vec![op("--"), Token::Integer(7)]);
    assert_eq!(tokens_of("1.5.2"), vec![
        Token::Float(String::from("1.5")),
        Token::Ctrl('.'),
        Token::Integer(2)
    ]);
}

#[test]
fn lexes_integers_up_to_the_limits() {
    assert_eq!(tokens_of("9223372036854775807"), vec![Token::Integer(i64::MAX)]);
    assert_eq!(tokens_of("-9223372036854775808"), vec![Token::Integer(i64::MIN)]);
    assert_eq!(tokens_of("0"), vec![Token::Integer(0)]);
    assert_eq!(tokens_of("-0"), vec![Token::Integer(0)]);
}

#[test]
fn rejects_integers_beyond_the_limits() {
    assert_eq!(
        token_parser("9223372036854775808"),
        Err(LexError { span: Span { start: 0, end: 19 } })
    );
    assert_eq!(
        token_parser("x = -9223372036854775809;"),
        Err(LexError { span: Span { start: 4, end: 24 } })
    );
    assert_eq!(
        token_parser("é 123456789012345678901234567890"),
        Err(LexError { span: Span { start: 3, end: 33 } })
    );
}

#[test]
fn lexes_comments_without_their_delimiters() {
    assert_eq!(
        token_parser("// hello"),
        Ok(vec![(Token::Comment(String::from("hello")), Span { start: 0, end: 8 })])
    );
    assert_eq!(tokens_of("/// doc \nx"), vec![Token::Comment(String::from("doc ")), ident("x")]);
    assert_eq!(tokens_of("//\nx"), vec![Token::Comment(String::new()), ident("x")]);
    assert_eq!(
        token_parser("/** a\n b */ x"),
        Ok(vec![
            (Token::Comment(String::from(" a\n b ")), Span { start: 0, end: 11 }),
            (ident("x"), Span { start: 12, end: 13 }),
        ])
    );
    assert_eq!(tokens_of("/*! b */"), vec![Token::Comment(String::from(" b "))]);
    assert_eq!(tokens_of("/***/"), vec![Token::Comment(String::new())]);
}

#[test]
fn lexes_what_is_no_comment_as_operators() {
    assert_eq!(tokens_of("/** open"), vec![op("/**"), ident("open")]);
    assert_eq!(tokens_of("/* x */"), vec![op("/*"), ident("x"), op("*/")]);
    assert_eq!(tokens_of("/**/"), vec![op("/**/")]);
}

#[test]
fn lexes_directives() {
    assert_eq!(
        token_parser("#ifdef FOO\nint"),
        Ok(vec![
            (Token::Preprocessor(String::from("#ifdef FOO")), Span { start: 0, end: 10 }),
            (Token::TypeName(Type::Integer), Span { start: 11, end: 14 }),
        ])
    );
    assert_eq!(
        tokens_of("#if defined(A) && B\n#else // c\n#elif X\n#endif"),
        vec![
            Token::Preprocessor(String::from("#if defined(A) && B")),
            Token::Preprocessor(String::from("#else // c")),
            Token::Preprocessor(String::from("#elif X")),
            Token::Preprocessor(String::from("#endif")),
        ]
    );
    assert_eq!(
        tokens_of("#endif x"),
        vec![Token::Preprocessor(String::from("#endif")), ident("x")]
    );
    assert_eq!(
        tokens_of("#define X 1\ny"),
        vec![Token::Preprocessor(String::from("#define X 1")), ident("y")]
    );
    assert_eq!(
        tokens_of("#define S struct Foo"),
        vec![Token::Preprocessor(String::from("#define S ")), ident("struct"), ident("Foo")]
    );
    assert_eq!(
        tokens_of("#pragma a layout(x)"),
        vec![
            Token::Preprocessor(String::from("#pragma a ")),
            ident("layout"),
            Token::Ctrl('('),
            ident("x"),
            Token::Ctrl(')'),
        ]
    );
    assert_eq!(tokens_of("# x"), vec![Token::Other('#'), ident("x")]);
    assert_eq!(tokens_of("#1"), vec![Token::Other('#'), Token::Integer(1)]);
}

#[test]
fn lexes_operators_and_delimiters() {
    assert_eq!(tokens_of("a>=b"), vec![ident("a"), op(">="), ident("b")]);
    assert_eq!(tokens_of("a<=b"), vec![ident("a"), op("<="), ident("b")]);
    assert_eq!(tokens_of("a<b"), vec![ident("a"), Token::Ctrl('<'), ident("b")]);
    assert_eq!(tokens_of("a+=b"), vec![ident("a"), op("+="), ident("b")]);
    assert_eq!(tokens_of("a != b"), vec![ident("a"), op("!="), ident("b")]);
    assert_eq!(tokens_of("a/b"), vec![ident("a"), op("/"), ident("b")]);
    assert_eq!(tokens_of("+*-/!=%|~&"), vec![op("+*-/!=%|~&")]);
    assert_eq!(
        tokens_of("()[]{};,:<>."),
        "()[]{};,:<>.".chars().map(Token::Ctrl).collect::<Vec<Token>>()
    );
}

#[test]
fn lexes_words_by_the_table() {
    assert_eq!(tokens_of("true false"), vec![Token::Bool(true), Token::Bool(false)]);
    assert_eq!(tokens_of("void"), vec![Token::TypeName(Type::Void)]);
    assert_eq!(tokens_of("bool"), vec![Token::TypeName(Type::Bool)]);
    for word in ["float", "half", "double"] {
        assert_eq!(tokens_of(word), vec![Token::TypeName(Type::Float)]);
    }
    for word in ["int", "uint", "dword"] {
        assert_eq!(tokens_of(word), vec![Token::TypeName(Type::Integer)]);
    }
    for word in [
        "float4", "vec4", "float2", "vec2", "float3", "vec3", "uint4", "uvec4", "uint3", "uvec3",
        "uint2", "uvec2",
    ] {
        assert_eq!(tokens_of(word), vec![Token::TypeName(Type::Vector)]);
    }
    for word in ["float4x4", "mat4x4", "float3x3", "mat3x3", "float2x2", "mat2x2"] {
        assert_eq!(tokens_of(word), vec![Token::TypeName(Type::Matrix)]);
    }
    for word in ["Texture2D", "sampler2D"] {
        assert_eq!(tokens_of(word), vec![Token::TypeName(Type::Texture)]);
    }
    for word in ["SamplerState", "SamplerComparisonState"] {
        assert_eq!(tokens_of(word), vec![Token::TypeName(Type::Sampler)]);
    }
    assert_eq!(tokens_of("return"), vec![Token::Keyword(String::from("return"))]);
    assert_eq!(tokens_of("returns"), vec![ident("returns")]);
    assert_eq!(tokens_of("int3"), vec![ident("int3")]);
    assert_eq!(tokens_of("_a1 B_2"), vec![ident("_a1"), ident("B_2")]);
}

#[test]
fn lexes_anything_else_character_by_character() {
    assert_eq!(tokens_of("@$"), vec![Token::Other('@'), Token::Other('$')]);
    assert_eq!(
        token_parser("é x"),
        Ok(vec![
            (Token::Other('é'), Span { start: 0, end: 2 }),
            (ident("x"), Span { start: 3, end: 4 }),
        ])
    );
    assert_eq!(
        token_parser("\u{1F600}\u{20AC}"),
        Ok(vec![
            (Token::Other('\u{1F600}'), Span { start: 0, end: 4 }),
            (Token::Other('\u{20AC}'), Span { start: 4, end: 7 }),
        ])
    );
}

#[test]
fn white_space_of_every_kind_is_skipped() {
    assert_eq!(tokens_of("a\u{c}b\u{b}c\u{a0}d\u{85}e\u{3000}f\u{2028}g"), vec![
        ident("a"),
        ident("b"),
        ident("c"),
        ident("d"),
        ident("e"),
        ident("f"),
        ident("g"),
    ]);
    assert_eq!(
        token_parser("\u{a0}x"),
        Ok(vec![(ident("x"), Span { start: 2, end: 3 })])
    );
    for code in 0..=0x10ffffu32 {
        if let Some(c) = char::from_u32(code) {
            let mut text = String::new();
            text.push(c);
            assert_eq!(token_parser(&text).unwrap().is_empty(), c.is_whitespace(), "{:?}", c);
        }
    }
}
