use shader_formatter::parser::complex_token_parser;
use shader_formatter::parser::token_parser;
use shader_formatter::parser::ComplexToken;
use shader_formatter::parser::FuncArgument;
use shader_formatter::parser::FunctionInfo;
use shader_formatter::parser::Span;
use shader_formatter::parser::StructField;
use shader_formatter::parser::StructInfo;
use shader_formatter::parser::Token;
use shader_formatter::parser::Type;

fn parse(text: &str) -> Vec<(ComplexToken, Span)> {
    complex_token_parser(&token_parser(text).unwrap())
}

fn declarations_of(text: &str) -> Vec<ComplexToken> {
    parse(text).into_iter().map(|(declaration, _)| declaration).collect()
}

fn variable(t: Type, name: &str) -> ComplexToken {
    ComplexToken::VariableDeclaration(t, String::from(name))
}

fn field(t: Type, name: &str, docs: &str) -> StructField {
    StructField { _type: t, name: String::from(name), docs: String::from(docs) }
}

fn argument(t: Type, name: &str, is_using_semantic: bool) -> FuncArgument {
    FuncArgument { _type: t, name: String::from(name), is_using_semantic }
}

#[test]
fn parses_nothing_from_no_tokens() {
    assert_eq!(complex_token_parser(&vec![]), vec![]);
}

#[test]
fn parses_variables() {
    assert_eq!(
        parse("int x = 5; float y;"),
        vec![
            (variable(Type::Integer, "x"), Span { start: 0, end: 10 }),
            (variable(Type::Float, "y"), Span { start: 11, end: 19 }),
        ]
    );
    assert_eq!(declarations_of("float a[4];"), vec![variable(Type::Array, "a")]);
    assert_eq!(declarations_of("bool b"), vec![variable(Type::Bool, "b")]);
    assert_eq!(
        declarations_of("float4 v = f(1, 2) int w;"),
        vec![variable(Type::Vector, "v")]
    );
}

#[test]
fn parses_other_tokens_one_by_one() {
    assert_eq!(
        parse("x = 5;"),
        vec![
            (ComplexToken::Other(Token::Ident(String::from("x"))), Span { start: 0, end: 1 }),
            (ComplexToken::Other(Token::Op(String::from("="))), Span { start: 2, end: 3 }),
            (ComplexToken::Other(Token::Integer(5)), Span { start: 4, end: 5 }),
            (ComplexToken::Other(Token::Ctrl(';')), Span { start: 5, end: 6 }),
        ]
    );
    assert_eq!(
        declarations_of("// note\nx"),
        vec![
            ComplexToken::Other(Token::Comment(String::from("note"))),
            ComplexToken::Other(Token::Ident(String::from("x"))),
        ]
    );
    assert_eq!(
        declarations_of("Foo bar;"),
        vec![
            ComplexToken::Other(Token::Ident(String::from("Foo"))),
            ComplexToken::Other(Token::Ident(String::from("bar"))),
            ComplexToken::Other(Token::Ctrl(';')),
        ]
    );
}

#[test]
fn parses_structs_with_docs_and_fields() {
    let text = "/// A thing.\n/// Really.\nstruct Foo {\n  /// first\n  int a;\n  Bar b[2];\n  float4 c : POSITION;\n};";
    assert_eq!(
        declarations_of(text),
        vec![
            ComplexToken::Struct(StructInfo {
                name: String::from("Foo"),
                fields: vec![
                    field(Type::Integer, "a", "first"),
                    field(Type::Array, "b", ""),
                    field(Type::Vector, "c", ""),
                ],
                docs: String::from("A thing.Really."),
            }),
            ComplexToken::Other(Token::Ctrl(';')),
        ]
    );
}

#[test]
fn parses_struct_spans_and_openers() {
    assert_eq!(
        parse("struct A { };"),
        vec![
            (
                ComplexToken::Struct(StructInfo {
                    name: String::from("A"),
                    fields: vec![],
                    docs: String::new(),
                }),
                Span { start: 0, end: 12 }
            ),
            (ComplexToken::Other(Token::Ctrl(';')), Span { start: 12, end: 13 }),
        ]
    );
    for text in [
        "uniform U { int a; }",
        "buffer U { int a; }",
        "readonly buffer U { int a; }",
        "layout(binding = 0) uniform U { int a; }",
        "layout(std140, binding = 3) readonly buffer U { int a; }",
    ] {
        assert_eq!(
            declarations_of(text),
            vec![ComplexToken::Struct(StructInfo {
                name: String::from("U"),
                fields: vec![field(Type::Integer, "a", "")],
                docs: String::new(),
            })]
        );
    }
}

#[test]
fn gives_up_a_struct_that_does_not_go_on() {
    assert_eq!(
        declarations_of("struct A;"),
        vec![
            ComplexToken::Other(Token::Ident(String::from("struct"))),
            ComplexToken::Other(Token::Ident(String::from("A"))),
            ComplexToken::Other(Token::Ctrl(';')),
        ]
    );
    assert_eq!(
        declarations_of("struct A { int a }"),
        vec![
            ComplexToken::Struct(StructInfo {
                name: String::from("A"),
                fields: vec![],
                docs: String::new(),
            }),
            variable(Type::Integer, "a"),
        ]
    );
}

#[test]
fn parses_functions_with_every_kind_of_argument() {
    let text = "/** Adds. @param a one */\nfloat add(float a, in Foo b, out float4 c : SV_Target, uniform Bar d) { }";
    assert_eq!(
        declarations_of(text),
        vec![
            ComplexToken::Function(FunctionInfo {
                name: String::from("add"),
                args: vec![
                    argument(Type::Float, "a", false),
                    argument(Type::Custom, "b", false),
                    argument(Type::Vector, "c", true),
                    argument(Type::Custom, "d", false),
                ],
                return_type: Type::Float,
                docs: String::from(" Adds. @param a one "),
            }),
            ComplexToken::Other(Token::Ctrl('{')),
            ComplexToken::Other(Token::Ctrl('}')),
        ]
    );
}

#[test]
fn parses_function_heads_and_spans() {
    assert_eq!(
        parse("void main() { }"),
        vec![
            (
                ComplexToken::Function(FunctionInfo {
                    name: String::from("main"),
                    args: vec![],
                    return_type: Type::Void,
                    docs: String::new(),
                }),
                Span { start: 0, end: 11 }
            ),
            (ComplexToken::Other(Token::Ctrl('{')), Span { start: 12, end: 13 }),
            (ComplexToken::Other(Token::Ctrl('}')), Span { start: 14, end: 15 }),
        ]
    );
    assert_eq!(
        declarations_of("Foo make(int a"),
        vec![
            ComplexToken::Function(FunctionInfo {
                name: String::from("make"),
                args: vec![],
                return_type: Type::Custom,
                docs: String::new(),
            }),
            variable(Type::Integer, "a"),
        ]
    );
}

#[test]
fn a_call_is_no_function() {
    assert_eq!(
        declarations_of("foo(a);"),
        vec![
            ComplexToken::Other(Token::Ident(String::from("foo"))),
            ComplexToken::Other(Token::Ctrl('(')),
            ComplexToken::Other(Token::Ident(String::from("a"))),
            ComplexToken::Other(Token::Ctrl(')')),
            ComplexToken::Other(Token::Ctrl(';')),
        ]
    );
    assert_eq!(
        declarations_of("return x;"),
        vec![
            ComplexToken::Other(Token::Keyword(String::from("return"))),
            ComplexToken::Other(Token::Ident(String::from("x"))),
            ComplexToken::Other(Token::Ctrl(';')),
        ]
    );
}
