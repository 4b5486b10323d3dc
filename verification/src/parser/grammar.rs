//! From tokens to declarations.
//!
//! At each place the parser tries a struct, then a function, then a
//! variable, each with the tokens that belong to it; a token at which none
//! of them starts becomes a declaration of its own. A form that has begun
//! and does not go on as it must is given up as a whole, so every sequence
//! of tokens has declarations.

use vstd::prelude::*;
use crate::parser::ComplexToken;
use crate::parser::ComplexTokenModel;
use crate::parser::FuncArgument;
use crate::parser::FuncArgumentModel;
use crate::parser::FunctionInfo;
use crate::parser::FunctionInfoModel;
use crate::parser::Span;
use crate::parser::StructField;
use crate::parser::StructFieldModel;
use crate::parser::StructInfo;
use crate::parser::StructInfoModel;
use crate::parser::Token;
use crate::parser::TokenModel;
use crate::parser::Type;
use crate::parser::argument_models;
use crate::parser::field_models;
use crate::parser::lexer::spanned_tokens;
use crate::parser::spanned_declarations;
use crate::text::same_text;

verus! {

/// A sequence of tokens, each with the bytes that it takes.
pub type Tokens = Seq<(TokenModel, Span)>;

/// The token of index `i`, if there is one.
pub open spec fn token_at(tokens: Tokens, i: int) -> Option<TokenModel> {
    if 0 <= i < tokens.len() {
        Some(tokens[i].0)
    } else {
        None
    }
}

/// Whether the token of index `i` is the delimiter `c`.
pub open spec fn at_ctrl(tokens: Tokens, i: int, c: char) -> bool {
    token_at(tokens, i) == Some(TokenModel::Ctrl(c))
}

/// Whether the token of index `i` is the operator `op`.
pub open spec fn at_op(tokens: Tokens, i: int, op: Seq<char>) -> bool {
    token_at(tokens, i) == Some(TokenModel::Op(op))
}

/// Whether the token of index `i` is the name `word`.
pub open spec fn at_word(tokens: Tokens, i: int, word: Seq<char>) -> bool {
    token_at(tokens, i) == Some(TokenModel::Ident(word))
}

/// Whether the token of index `i` is an integer literal.
pub open spec fn at_integer(tokens: Tokens, i: int) -> bool {
    token_at(tokens, i) matches Some(TokenModel::Integer(_))
}

/// The name that the token of index `i` is, if it is one.
pub open spec fn ident_at(tokens: Tokens, i: int) -> Option<Seq<char>> {
    match token_at(tokens, i) {
        Some(TokenModel::Ident(name)) => Some(name),
        _ => None,
    }
}

/// The text of the comment that the token of index `i` is, if it is one.
pub open spec fn comment_at(tokens: Tokens, i: int) -> Option<Seq<char>> {
    match token_at(tokens, i) {
        Some(TokenModel::Comment(text)) => Some(text),
        _ => None,
    }
}

/// The built-in type that the token of index `i` names, if it names one.
pub open spec fn type_at(tokens: Tokens, i: int) -> Option<Type> {
    match token_at(tokens, i) {
        Some(TokenModel::TypeName(t)) => Some(t),
        _ => None,
    }
}

/// The type that the token of index `i` names, if it names one: a built-in
/// type, or a type of the program's own.
pub open spec fn any_type_at(tokens: Tokens, i: int) -> Option<Type> {
    match token_at(tokens, i) {
        Some(TokenModel::TypeName(t)) => Some(t),
        Some(TokenModel::Ident(_)) => Some(Type::Custom),
        _ => None,
    }
}

/// Index at which the run of comments that starts at `p` ends.
pub open spec fn comments_end(tokens: Tokens, p: int) -> int
    decreases tokens.len() - p,
{
    if comment_at(tokens, p) is Some {
        comments_end(tokens, p + 1)
    } else {
        p
    }
}

/// The texts of the comments among the tokens from `p` up to `q`, one
/// behind the other.
pub open spec fn docs(tokens: Tokens, p: int, q: int) -> Seq<char>
    decreases q - p,
{
    if q <= p {
        Seq::empty()
    } else {
        docs(tokens, p, q - 1) + match comment_at(tokens, q - 1) {
            Some(text) => text,
            None => Seq::empty(),
        }
    }
}

/// Index of the first `;` from `p` on, or the number of tokens.
pub open spec fn semicolon_from(tokens: Tokens, p: int) -> int
    decreases tokens.len() - p,
{
    if p < 0 || p >= tokens.len() || at_ctrl(tokens, p, ';') {
        p
    } else {
        semicolon_from(tokens, p + 1)
    }
}

/// Index behind the binding clause `layout(binding = N)` or
/// `layout(name, binding = N)` that starts at `p`, or `p` where none does.
pub open spec fn layout_end(tokens: Tokens, p: int) -> int {
    if at_word(tokens, p, "layout"@) && at_ctrl(tokens, p + 1, '(') {
        let q = if ident_at(tokens, p + 2) is Some && at_ctrl(tokens, p + 3, ',') {
            p + 4
        } else {
            p + 2
        };
        if at_word(tokens, q, "binding"@) && at_op(tokens, q + 1, "="@) && at_integer(
            tokens,
            q + 2,
        ) && at_ctrl(tokens, q + 3, ')') {
            q + 4
        } else {
            p
        }
    } else {
        p
    }
}

/// The field that starts at `p`, if one does, and the index behind it: its
/// comments, its type, its name, and whatever follows up to the next `;`.
/// A `[` behind the name makes it an array.
pub open spec fn field_at(tokens: Tokens, p: int) -> Option<(StructFieldModel, int)> {
    let c = comments_end(tokens, p);
    let array = at_ctrl(tokens, c + 2, '[');
    let semicolon = semicolon_from(
        tokens,
        if array {
            c + 3
        } else {
            c + 2
        },
    );
    if any_type_at(tokens, c) is Some && ident_at(tokens, c + 1) is Some && semicolon
        < tokens.len() {
        Some(
            (
                StructFieldModel {
                    _type: if array {
                        Type::Array
                    } else {
                        any_type_at(tokens, c)->0
                    },
                    name: ident_at(tokens, c + 1)->0,
                    docs: docs(tokens, p, c),
                },
                semicolon + 1,
            ),
        )
    } else {
        None
    }
}

/// The fields that follow one another from `p` on, and the index behind
/// the last of them.
pub open spec fn fields_from(tokens: Tokens, p: int) -> (Seq<StructFieldModel>, int)
    decreases tokens.len() - p,
{
    match field_at(tokens, p) {
        Some((field, end)) => {
            if p < end <= tokens.len() {
                let rest = fields_from(tokens, end);
                (seq![field] + rest.0, rest.1)
            } else {
                (Seq::empty(), p)
            }
        },
        None => (Seq::empty(), p),
    }
}

/// Whether the token of index `i` is one of the words that open a struct.
pub open spec fn at_struct_word(tokens: Tokens, i: int) -> bool {
    at_word(tokens, i, "struct"@) || at_word(tokens, i, "uniform"@) || at_word(
        tokens,
        i,
        "buffer"@,
    )
}

/// The struct that starts at `p`, if one does, and the index behind it:
/// its comments, an optional binding clause, an optional `readonly`, the
/// opening word, the name, `{`, the fields, and `}` if it is there.
pub open spec fn struct_at(tokens: Tokens, p: int) -> Option<(StructInfoModel, int)> {
    let c = comments_end(tokens, p);
    let l = layout_end(tokens, c);
    let w = if at_word(tokens, l, "readonly"@) {
        l + 1
    } else {
        l
    };
    if at_struct_word(tokens, w) && ident_at(tokens, w + 1) is Some && at_ctrl(tokens, w + 2, '{') {
        let body = fields_from(tokens, w + 3);
        let end = if at_ctrl(tokens, body.1, '}') {
            body.1 + 1
        } else {
            body.1
        };
        Some(
            (
                StructInfoModel {
                    name: ident_at(tokens, w + 1)->0,
                    fields: body.0,
                    docs: docs(tokens, p, c),
                },
                end,
            ),
        )
    } else {
        None
    }
}

/// Index behind the word `in`, `out` or `uniform` at `p`, or `p` where
/// none of them stands.
pub open spec fn modifier_end(tokens: Tokens, p: int) -> int {
    if at_word(tokens, p, "in"@) || at_word(tokens, p, "out"@) || at_word(tokens, p, "uniform"@) {
        p + 1
    } else {
        p
    }
}

/// Whether the token of index `i` ends an argument.
pub open spec fn at_argument_end(tokens: Tokens, i: int) -> bool {
    at_ctrl(tokens, i, ',') || at_ctrl(tokens, i, ')')
}

/// The argument that starts at `p`, if one does, and the index behind the
/// `,` or `)` that ends it: an optional modifier, a type and a name, and
/// behind a built-in type an optional `:` with the name of a semantic.
pub open spec fn argument_at(tokens: Tokens, p: int) -> Option<(FuncArgumentModel, int)> {
    let m = modifier_end(tokens, p);
    if ident_at(tokens, m + 1) is Some {
        let name = ident_at(tokens, m + 1)->0;
        if type_at(tokens, m) is Some && at_argument_end(tokens, m + 2) {
            Some(
                (
                    FuncArgumentModel {
                        _type: type_at(tokens, m)->0,
                        name,
                        is_using_semantic: false,
                    },
                    m + 3,
                ),
            )
        } else if type_at(tokens, m) is Some && at_ctrl(tokens, m + 2, ':') && ident_at(
            tokens,
            m + 3,
        ) is Some && at_argument_end(tokens, m + 4) {
            Some(
                (
                    FuncArgumentModel {
                        _type: type_at(tokens, m)->0,
                        name,
                        is_using_semantic: true,
                    },
                    m + 5,
                ),
            )
        } else if ident_at(tokens, m) is Some && at_argument_end(tokens, m + 2) {
            Some(
                (FuncArgumentModel { _type: Type::Custom, name, is_using_semantic: false }, m + 3),
            )
        } else {
            None
        }
    } else {
        None
    }
}

/// The arguments that follow one another from `p` on, and the index behind
/// the last of them.
pub open spec fn arguments_from(tokens: Tokens, p: int) -> (Seq<FuncArgumentModel>, int)
    decreases tokens.len() - p,
{
    match argument_at(tokens, p) {
        Some((argument, end)) => {
            if p < end <= tokens.len() {
                let rest = arguments_from(tokens, end);
                (seq![argument] + rest.0, rest.1)
            } else {
                (Seq::empty(), p)
            }
        },
        None => (Seq::empty(), p),
    }
}

/// The function that starts at `p`, if one does, and the index behind its
/// head: its comments, the type it returns, its name, `(`, the arguments,
/// and `)` if it is still there.
pub open spec fn function_at(tokens: Tokens, p: int) -> Option<(FunctionInfoModel, int)> {
    let c = comments_end(tokens, p);
    if any_type_at(tokens, c) is Some && ident_at(tokens, c + 1) is Some && at_ctrl(
        tokens,
        c + 2,
        '(',
    ) {
        let list = arguments_from(tokens, c + 3);
        let end = if at_ctrl(tokens, list.1, ')') {
            list.1 + 1
        } else {
            list.1
        };
        Some(
            (
                FunctionInfoModel {
                    name: ident_at(tokens, c + 1)->0,
                    args: list.0,
                    return_type: any_type_at(tokens, c)->0,
                    docs: docs(tokens, p, c),
                },
                end,
            ),
        )
    } else {
        None
    }
}

/// The variable that starts at `p`, if one does, and the index behind it:
/// a built-in type, a name, and whatever follows up to and with the next
/// `;`. A `[` behind the name makes it an array.
pub open spec fn variable_at(tokens: Tokens, p: int) -> Option<(ComplexTokenModel, int)> {
    if type_at(tokens, p) is Some && ident_at(tokens, p + 1) is Some {
        let array = at_ctrl(tokens, p + 2, '[');
        let semicolon = semicolon_from(
            tokens,
            if array {
                p + 3
            } else {
                p + 2
            },
        );
        Some(
            (
                ComplexTokenModel::VariableDeclaration(
                    if array {
                        Type::Array
                    } else {
                        type_at(tokens, p)->0
                    },
                    ident_at(tokens, p + 1)->0,
                ),
                if semicolon < tokens.len() {
                    semicolon + 1
                } else {
                    semicolon
                },
            ),
        )
    } else {
        None
    }
}

/// The declaration that starts at `p`, where `p` is an index of `tokens`,
/// and the index behind it.
pub open spec fn declaration_at(tokens: Tokens, p: int) -> (ComplexTokenModel, int) {
    match (struct_at(tokens, p), function_at(tokens, p), variable_at(tokens, p)) {
        (Some((info, end)), _, _) => (ComplexTokenModel::Struct(info), end),
        (None, Some((info, end)), _) => (ComplexTokenModel::Function(info), end),
        (None, None, Some(found)) => found,
        (None, None, None) => (ComplexTokenModel::Other(tokens[p].0), p + 1),
    }
}

/// The bytes from the start of the token of index `p` to the end of the
/// token before `end`.
pub open spec fn cover(tokens: Tokens, p: int, end: int) -> Span {
    Span { start: tokens[p].1.start, end: tokens[end - 1].1.end }
}

/// The declarations of `tokens` from `p` on, each with the bytes that it
/// takes.
pub open spec fn declarations_from(tokens: Tokens, p: int) -> Seq<(ComplexTokenModel, Span)>
    decreases tokens.len() - p,
{
    if p < 0 || p >= tokens.len() {
        Seq::empty()
    } else {
        let found = declaration_at(tokens, p);
        if p < found.1 <= tokens.len() {
            seq![(found.0, cover(tokens, p, found.1))] + declarations_from(tokens, found.1)
        } else {
            Seq::empty()
        }
    }
}

/// The declarations of `tokens`, each with the bytes that it takes.
pub open spec fn declarations(tokens: Tokens) -> Seq<(ComplexTokenModel, Span)> {
    declarations_from(tokens, 0)
}

/// Whether the token of index `i` is the delimiter `c`.
pub fn is_ctrl(tokens: &Vec<(Token, Span)>, i: usize, c: char) -> (r: bool)
    ensures
        r == at_ctrl(spanned_tokens(tokens@), i as int, c),
{
    if i < tokens.len() {
        match &tokens[i].0 {
            Token::Ctrl(d) => *d == c,
            _ => false,
        }
    } else {
        false
    }
}

/// Whether the token of index `i` is the operator `op`.
pub fn is_op(tokens: &Vec<(Token, Span)>, i: usize, op: &str) -> (r: bool)
    ensures
        r == at_op(spanned_tokens(tokens@), i as int, op@),
{
    if i < tokens.len() {
        match &tokens[i].0 {
            Token::Op(text) => same_text(text.as_str(), op),
            _ => false,
        }
    } else {
        false
    }
}

/// Whether the token of index `i` is the name `word`.
pub fn is_word(tokens: &Vec<(Token, Span)>, i: usize, word: &str) -> (r: bool)
    ensures
        r == at_word(spanned_tokens(tokens@), i as int, word@),
{
    if i < tokens.len() {
        match &tokens[i].0 {
            Token::Ident(text) => same_text(text.as_str(), word),
            _ => false,
        }
    } else {
        false
    }
}

/// Whether the token of index `i` is an integer literal.
pub fn is_integer(tokens: &Vec<(Token, Span)>, i: usize) -> (r: bool)
    ensures
        r == at_integer(spanned_tokens(tokens@), i as int),
{
    if i < tokens.len() {
        match &tokens[i].0 {
            Token::Integer(_) => true,
            _ => false,
        }
    } else {
        false
    }
}

/// Whether the token of index `i` is a name.
pub fn is_ident(tokens: &Vec<(Token, Span)>, i: usize) -> (r: bool)
    ensures
        r == (ident_at(spanned_tokens(tokens@), i as int) is Some),
        r ==> i < tokens.len(),
{
    if i < tokens.len() {
        match &tokens[i].0 {
            Token::Ident(_) => true,
            _ => false,
        }
    } else {
        false
    }
}

/// Whether the token of index `i` is a comment.
pub fn is_comment(tokens: &Vec<(Token, Span)>, i: usize) -> (r: bool)
    ensures
        r == (comment_at(spanned_tokens(tokens@), i as int) is Some),
        r ==> i < tokens.len(),
{
    if i < tokens.len() {
        match &tokens[i].0 {
            Token::Comment(_) => true,
            _ => false,
        }
    } else {
        false
    }
}

/// The name that the token of index `i` is.
pub fn name_of(tokens: &Vec<(Token, Span)>, i: usize) -> (name: String)
    requires
        ident_at(spanned_tokens(tokens@), i as int) is Some,
    ensures
        name@ == ident_at(spanned_tokens(tokens@), i as int)->0,
{
    match &tokens[i].0 {
        Token::Ident(text) => text.clone(),
        _ => String::new(),
    }
}

/// The built-in type that the token of index `i` names, if it names one.
pub fn builtin_type(tokens: &Vec<(Token, Span)>, i: usize) -> (r: Option<Type>)
    ensures
        r == type_at(spanned_tokens(tokens@), i as int),
        r is Some ==> i < tokens.len(),
{
    if i < tokens.len() {
        match &tokens[i].0 {
            Token::TypeName(t) => Some(*t),
            _ => None,
        }
    } else {
        None
    }
}

/// The type that the token of index `i` names, if it names one.
pub fn any_type(tokens: &Vec<(Token, Span)>, i: usize) -> (r: Option<Type>)
    ensures
        r == any_type_at(spanned_tokens(tokens@), i as int),
        r is Some ==> i < tokens.len(),
{
    if i < tokens.len() {
        match &tokens[i].0 {
            Token::TypeName(t) => Some(*t),
            Token::Ident(_) => Some(Type::Custom),
            _ => None,
        }
    } else {
        None
    }
}

/// Index at which the run of comments that starts at `p` ends.
pub fn comment_run(tokens: &Vec<(Token, Span)>, p: usize) -> (end: usize)
    requires
        p <= tokens.len(),
    ensures
        end == comments_end(spanned_tokens(tokens@), p as int),
        p <= end <= tokens.len(),
{
    let mut i: usize = p;
    while is_comment(tokens, i)
        invariant
            p <= i <= tokens.len(),
            comments_end(spanned_tokens(tokens@), i as int) == comments_end(
                spanned_tokens(tokens@),
                p as int,
            ),
        decreases tokens.len() - i,
    {
        i += 1;
    }
    i
}

/// The texts of the comments among the tokens from `p` up to `q`, one
/// behind the other.
pub fn gather_docs(tokens: &Vec<(Token, Span)>, p: usize, q: usize) -> (text: String)
    requires
        p <= q <= tokens.len(),
    ensures
        text@ == docs(spanned_tokens(tokens@), p as int, q as int),
{
    let mut text = String::new();
    let mut i: usize = p;
    while i < q
        invariant
            p <= i <= q <= tokens.len(),
            text@ == docs(spanned_tokens(tokens@), p as int, i as int),
        decreases q - i,
    {
        match &tokens[i].0 {
            Token::Comment(comment) => {
                text.append(comment.as_str());
            },
            _ => {
                assert(text@ + Seq::<char>::empty() =~= text@);
            },
        }
        i += 1;
    }
    text
}

/// Index of the first `;` from `p` on, or the number of tokens.
pub fn next_semicolon(tokens: &Vec<(Token, Span)>, p: usize) -> (at: usize)
    requires
        p <= tokens.len(),
    ensures
        at == semicolon_from(spanned_tokens(tokens@), p as int),
        p <= at <= tokens.len(),
{
    let mut i: usize = p;
    while i < tokens.len() && !is_ctrl(tokens, i, ';')
        invariant
            p <= i <= tokens.len(),
            semicolon_from(spanned_tokens(tokens@), i as int) == semicolon_from(
                spanned_tokens(tokens@),
                p as int,
            ),
        decreases tokens.len() - i,
    {
        i += 1;
    }
    i
}

/// Index behind the binding clause that starts at `p`, or `p` where none
/// does.
pub fn skip_layout(tokens: &Vec<(Token, Span)>, p: usize) -> (end: usize)
    requires
        p <= tokens.len(),
    ensures
        end == layout_end(spanned_tokens(tokens@), p as int),
        p <= end <= tokens.len(),
{
    if is_word(tokens, p, "layout") && is_ctrl(tokens, p + 1, '(') {
        let q = if is_ident(tokens, p + 2) && is_ctrl(tokens, p + 3, ',') {
            p + 4
        } else {
            p + 2
        };
        if is_word(tokens, q, "binding") && is_op(tokens, q + 1, "=") && is_integer(tokens, q + 2)
            && is_ctrl(tokens, q + 3, ')') {
            q + 4
        } else {
            p
        }
    } else {
        p
    }
}

/// The field that starts at `p`, if one does, and the index behind it.
pub fn field(tokens: &Vec<(Token, Span)>, p: usize) -> (r: Option<(StructField, usize)>)
    requires
        p <= tokens.len(),
    ensures
        match r {
            Some((found, end)) => field_at(spanned_tokens(tokens@), p as int) == Some(
                (found@, end as int),
            ) && p < end <= tokens.len(),
            None => field_at(spanned_tokens(tokens@), p as int) is None,
        },
{
    let c = comment_run(tokens, p);
    match any_type(tokens, c) {
        Some(t) => {
            if is_ident(tokens, c + 1) {
                let array = is_ctrl(tokens, c + 2, '[');
                let semicolon = next_semicolon(
                    tokens,
                    if array {
                        c + 3
                    } else {
                        c + 2
                    },
                );
                if semicolon < tokens.len() {
                    let found = StructField {
                        _type: if array {
                            Type::Array
                        } else {
                            t
                        },
                        name: name_of(tokens, c + 1),
                        docs: gather_docs(tokens, p, c),
                    };
                    Some((found, semicolon + 1))
                } else {
                    None
                }
            } else {
                None
            }
        },
        None => None,
    }
}

/// The fields that follow one another from `p` on, and the index behind
/// the last of them.
pub fn fields(tokens: &Vec<(Token, Span)>, p: usize) -> (r: (Vec<StructField>, usize))
    requires
        p <= tokens.len(),
    ensures
        (field_models(r.0@), r.1 as int) == fields_from(spanned_tokens(tokens@), p as int),
        p <= r.1 <= tokens.len(),
{
    let ghost model = spanned_tokens(tokens@);
    let mut found: Vec<StructField> = Vec::new();
    let mut pos: usize = p;
    assert(field_models(found@) + fields_from(model, p as int).0 =~= fields_from(
        model,
        p as int,
    ).0);
    loop
        invariant
            model == spanned_tokens(tokens@),
            p <= pos <= tokens.len(),
            field_models(found@) + fields_from(model, pos as int).0 == fields_from(
                model,
                p as int,
            ).0,
            fields_from(model, pos as int).1 == fields_from(model, p as int).1,
        decreases tokens.len() - pos,
    {
        match field(tokens, pos) {
            Some((next, end)) => {
                let ghost before = field_models(found@);
                found.push(next);
                proof {
                    assert(field_models(found@) =~= before.push(next@));
                    let rest = fields_from(model, end as int).0;
                    assert(before + (seq![next@] + rest) =~= before.push(next@) + rest);
                }
                pos = end;
            },
            None => {
                assert(field_models(found@) + Seq::<StructFieldModel>::empty() =~= field_models(
                    found@,
                ));
                return (found, pos);
            },
        }
    }
}

/// The struct that starts at `p`, if one does, and the index behind it.
pub fn structure(tokens: &Vec<(Token, Span)>, p: usize) -> (r: Option<(StructInfo, usize)>)
    requires
        p <= tokens.len(),
    ensures
        match r {
            Some((found, end)) => struct_at(spanned_tokens(tokens@), p as int) == Some(
                (found@, end as int),
            ) && p < end <= tokens.len(),
            None => struct_at(spanned_tokens(tokens@), p as int) is None,
        },
{
    let c = comment_run(tokens, p);
    let l = skip_layout(tokens, c);
    let w = if is_word(tokens, l, "readonly") {
        l + 1
    } else {
        l
    };
    if (is_word(tokens, w, "struct") || is_word(tokens, w, "uniform") || is_word(
        tokens,
        w,
        "buffer",
    )) && is_ident(tokens, w + 1) && is_ctrl(tokens, w + 2, '{') {
        let body = fields(tokens, w + 3);
        let end = if is_ctrl(tokens, body.1, '}') {
            body.1 + 1
        } else {
            body.1
        };
        let found = StructInfo {
            name: name_of(tokens, w + 1),
            fields: body.0,
            docs: gather_docs(tokens, p, c),
        };
        Some((found, end))
    } else {
        None
    }
}

/// Index behind the word `in`, `out` or `uniform` at `p`, or `p` where
/// none of them stands.
pub fn skip_modifier(tokens: &Vec<(Token, Span)>, p: usize) -> (end: usize)
    requires
        p <= tokens.len(),
    ensures
        end == modifier_end(spanned_tokens(tokens@), p as int),
        p <= end <= tokens.len(),
{
    if is_word(tokens, p, "in") || is_word(tokens, p, "out") || is_word(tokens, p, "uniform") {
        p + 1
    } else {
        p
    }
}

/// Whether the token of index `i` ends an argument.
pub fn is_argument_end(tokens: &Vec<(Token, Span)>, i: usize) -> (r: bool)
    ensures
        r == at_argument_end(spanned_tokens(tokens@), i as int),
        r ==> i < tokens.len(),
{
    is_ctrl(tokens, i, ',') || is_ctrl(tokens, i, ')')
}

/// The argument that starts at `p`, if one does, and the index behind it.
pub fn argument(tokens: &Vec<(Token, Span)>, p: usize) -> (r: Option<(FuncArgument, usize)>)
    requires
        p <= tokens.len(),
    ensures
        match r {
            Some((found, end)) => argument_at(spanned_tokens(tokens@), p as int) == Some(
                (found@, end as int),
            ) && p < end <= tokens.len(),
            None => argument_at(spanned_tokens(tokens@), p as int) is None,
        },
{
    let m = skip_modifier(tokens, p);
    if m < tokens.len() && is_ident(tokens, m + 1) {
        let builtin = builtin_type(tokens, m);
        if builtin.is_some() && is_argument_end(tokens, m + 2) {
            let found = FuncArgument {
                _type: builtin.unwrap(),
                name: name_of(tokens, m + 1),
                is_using_semantic: false,
            };
            Some((found, m + 3))
        } else if builtin.is_some() && is_ctrl(tokens, m + 2, ':') && is_ident(tokens, m + 3)
            && is_argument_end(tokens, m + 4) {
            let found = FuncArgument {
                _type: builtin.unwrap(),
                name: name_of(tokens, m + 1),
                is_using_semantic: true,
            };
            Some((found, m + 5))
        } else if is_ident(tokens, m) && is_argument_end(tokens, m + 2) {
            let found = FuncArgument {
                _type: Type::Custom,
                name: name_of(tokens, m + 1),
                is_using_semantic: false,
            };
            Some((found, m + 3))
        } else {
            None
        }
    } else {
        None
    }
}

/// The arguments that follow one another from `p` on, and the index behind
/// the last of them.
pub fn arguments(tokens: &Vec<(Token, Span)>, p: usize) -> (r: (Vec<FuncArgument>, usize))
    requires
        p <= tokens.len(),
    ensures
        (argument_models(r.0@), r.1 as int) == arguments_from(spanned_tokens(tokens@), p as int),
        p <= r.1 <= tokens.len(),
{
    let ghost model = spanned_tokens(tokens@);
    let mut found: Vec<FuncArgument> = Vec::new();
    let mut pos: usize = p;
    assert(argument_models(found@) + arguments_from(model, p as int).0 =~= arguments_from(
        model,
        p as int,
    ).0);
    loop
        invariant
            model == spanned_tokens(tokens@),
            p <= pos <= tokens.len(),
            argument_models(found@) + arguments_from(model, pos as int).0 == arguments_from(
                model,
                p as int,
            ).0,
            arguments_from(model, pos as int).1 == arguments_from(model, p as int).1,
        decreases tokens.len() - pos,
    {
        match argument(tokens, pos) {
            Some((next, end)) => {
                let ghost before = argument_models(found@);
                found.push(next);
                proof {
                    assert(argument_models(found@) =~= before.push(next@));
                    let rest = arguments_from(model, end as int).0;
                    assert(before + (seq![next@] + rest) =~= before.push(next@) + rest);
                }
                pos = end;
            },
            None => {
                assert(argument_models(found@) + Seq::<FuncArgumentModel>::empty()
                    =~= argument_models(found@));
                return (found, pos);
            },
        }
    }
}

/// The function that starts at `p`, if one does, and the index behind its
/// head.
pub fn function(tokens: &Vec<(Token, Span)>, p: usize) -> (r: Option<(FunctionInfo, usize)>)
    requires
        p <= tokens.len(),
    ensures
        match r {
            Some((found, end)) => function_at(spanned_tokens(tokens@), p as int) == Some(
                (found@, end as int),
            ) && p < end <= tokens.len(),
            None => function_at(spanned_tokens(tokens@), p as int) is None,
        },
{
    let c = comment_run(tokens, p);
    match any_type(tokens, c) {
        Some(t) => {
            if is_ident(tokens, c + 1) && is_ctrl(tokens, c + 2, '(') {
                let list = arguments(tokens, c + 3);
                let end = if is_ctrl(tokens, list.1, ')') {
                    list.1 + 1
                } else {
                    list.1
                };
                let found = FunctionInfo {
                    name: name_of(tokens, c + 1),
                    args: list.0,
                    return_type: t,
                    docs: gather_docs(tokens, p, c),
                };
                Some((found, end))
            } else {
                None
            }
        },
        None => None,
    }
}

/// The variable that starts at `p`, if one does, and the index behind it.
pub fn variable(tokens: &Vec<(Token, Span)>, p: usize) -> (r: Option<(ComplexToken, usize)>)
    requires
        p <= tokens.len(),
    ensures
        match r {
            Some((found, end)) => variable_at(spanned_tokens(tokens@), p as int) == Some(
                (found@, end as int),
            ) && p < end <= tokens.len(),
            None => variable_at(spanned_tokens(tokens@), p as int) is None,
        },
{
    match builtin_type(tokens, p) {
        Some(t) => {
            if is_ident(tokens, p + 1) {
                let array = is_ctrl(tokens, p + 2, '[');
                let semicolon = next_semicolon(
                    tokens,
                    if array {
                        p + 3
                    } else {
                        p + 2
                    },
                );
                let found = ComplexToken::VariableDeclaration(
                    if array {
                        Type::Array
                    } else {
                        t
                    },
                    name_of(tokens, p + 1),
                );
                Some(
                    (
                        found,
                        if semicolon < tokens.len() {
                            semicolon + 1
                        } else {
                            semicolon
                        },
                    ),
                )
            } else {
                None
            }
        },
        None => None,
    }
}

/// A token equal to `token`.
pub fn copy_token(token: &Token) -> (copy: Token)
    ensures
        copy@ == token@,
{
    match token {
        Token::Bool(b) => Token::Bool(*b),
        Token::Integer(i) => Token::Integer(*i),
        Token::Float(s) => Token::Float(s.clone()),
        Token::Op(s) => Token::Op(s.clone()),
        Token::Ctrl(c) => Token::Ctrl(*c),
        Token::TypeName(t) => Token::TypeName(*t),
        Token::Ident(s) => Token::Ident(s.clone()),
        Token::Comment(s) => Token::Comment(s.clone()),
        Token::Keyword(s) => Token::Keyword(s.clone()),
        Token::Preprocessor(s) => Token::Preprocessor(s.clone()),
        Token::Other(c) => Token::Other(*c),
    }
}

/// The declaration that starts at `p`, and the index behind it.
pub fn declaration(tokens: &Vec<(Token, Span)>, p: usize) -> (r: (ComplexToken, usize))
    requires
        p < tokens.len(),
    ensures
        (r.0@, r.1 as int) == declaration_at(spanned_tokens(tokens@), p as int),
        p < r.1 <= tokens.len(),
{
    if let Some((info, end)) = structure(tokens, p) {
        return (ComplexToken::Struct(info), end);
    }
    if let Some((info, end)) = function(tokens, p) {
        return (ComplexToken::Function(info), end);
    }
    if let Some(found) = variable(tokens, p) {
        return found;
    }
    (ComplexToken::Other(copy_token(&tokens[p].0)), p + 1)
}

/// The declarations of `tokens`, each with the bytes that it takes.
pub fn complex_token_parser(tokens: &Vec<(Token, Span)>) -> (r: Vec<(ComplexToken, Span)>)
    ensures
        spanned_declarations(r@) == declarations(spanned_tokens(tokens@)),
{
    let ghost model = spanned_tokens(tokens@);
    let mut found: Vec<(ComplexToken, Span)> = Vec::new();
    let mut pos: usize = 0;
    assert(spanned_declarations(found@) + declarations_from(model, 0) =~= declarations_from(
        model,
        0,
    ));
    while pos < tokens.len()
        invariant
            model == spanned_tokens(tokens@),
            pos <= tokens.len(),
            spanned_declarations(found@) + declarations_from(model, pos as int) == declarations(
                model,
            ),
        decreases tokens.len() - pos,
    {
        let (next, end) = declaration(tokens, pos);
        let span = Span { start: tokens[pos].1.start, end: tokens[end - 1].1.end };
        let ghost before = spanned_declarations(found@);
        let ghost item = (next@, span);
        found.push((next, span));
        proof {
            assert(spanned_declarations(found@) =~= before.push(item));
            let rest = declarations_from(model, end as int);
            assert(before + (seq![item] + rest) =~= before.push(item) + rest);
        }
        pos = end;
    }
    assert(spanned_declarations(found@) + Seq::<(ComplexTokenModel, Span)>::empty()
        =~= spanned_declarations(found@));
    found
}

} // verus!
