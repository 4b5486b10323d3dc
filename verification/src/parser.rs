//! Tokens and declarations, and the two parsers that produce them.

use vstd::prelude::*;

pub mod grammar;
pub mod lexer;

pub use grammar::complex_token_parser;
pub use lexer::token_parser;

verus! {

/// A stretch of the source text, in bytes: from `start` up to `end`.
#[derive(Clone, Copy, Debug, PartialEq, Eq, Structural)]
pub struct Span {
    pub start: usize,
    pub end: usize,
}

/// The kinds of type that the rules tell apart.
#[derive(Clone, Copy, Debug, PartialEq, Eq, Structural)]
pub enum Type {
    Void,
    Bool,
    Integer,
    Float,
    Vector,
    Matrix,
    Array,
    Texture,
    Sampler,
    Custom,
}

/// A lexical unit of the source.
#[derive(Clone, Debug, PartialEq, Eq)]
pub enum Token {
    /// `true` or `false`.
    Bool(bool),
    /// An integer literal, by its value.
    Integer(i64),
    /// A literal with a fraction, by its spelling.
    Float(String),
    /// One or more operator characters.
    Op(String),
    /// A delimiter.
    Ctrl(char),
    /// The name of a built-in type.
    TypeName(Type),
    /// Any other name.
    Ident(String),
    /// A comment, without its delimiters.
    Comment(String),
    /// A reserved word that names no type.
    Keyword(String),
    /// A directive, from its `#` on.
    Preprocessor(String),
    /// A character that belongs to nothing else.
    Other(char),
}

/// A [`Token`] as a mathematical value.
pub enum TokenModel {
    Bool(bool),
    Integer(i64),
    Float(Seq<char>),
    Op(Seq<char>),
    Ctrl(char),
    TypeName(Type),
    Ident(Seq<char>),
    Comment(Seq<char>),
    Keyword(Seq<char>),
    Preprocessor(Seq<char>),
    Other(char),
}

impl View for Token {
    type V = TokenModel;

    open spec fn view(&self) -> TokenModel {
        match self {
            Token::Bool(b) => TokenModel::Bool(*b),
            Token::Integer(i) => TokenModel::Integer(*i),
            Token::Float(s) => TokenModel::Float(s@),
            Token::Op(s) => TokenModel::Op(s@),
            Token::Ctrl(c) => TokenModel::Ctrl(*c),
            Token::TypeName(t) => TokenModel::TypeName(*t),
            Token::Ident(s) => TokenModel::Ident(s@),
            Token::Comment(s) => TokenModel::Comment(s@),
            Token::Keyword(s) => TokenModel::Keyword(s@),
            Token::Preprocessor(s) => TokenModel::Preprocessor(s@),
            Token::Other(c) => TokenModel::Other(*c),
        }
    }
}

/// A field of a struct.
#[derive(Clone, Debug, PartialEq, Eq)]
pub struct StructField {
    pub _type: Type,
    pub name: String,
    pub docs: String,
}

/// A [`StructField`] as a mathematical value.
pub struct StructFieldModel {
    pub _type: Type,
    pub name: Seq<char>,
    pub docs: Seq<char>,
}

impl View for StructField {
    type V = StructFieldModel;

    open spec fn view(&self) -> StructFieldModel {
        StructFieldModel { _type: self._type, name: self.name@, docs: self.docs@ }
    }
}

/// The fields `fields` as mathematical values.
pub open spec fn field_models(fields: Seq<StructField>) -> Seq<StructFieldModel> {
    fields.map_values(|f: StructField| f@)
}

/// A struct, uniform block or buffer block.
#[derive(Clone, Debug, PartialEq, Eq)]
pub struct StructInfo {
    pub name: String,
    pub fields: Vec<StructField>,
    pub docs: String,
}

/// A [`StructInfo`] as a mathematical value.
pub struct StructInfoModel {
    pub name: Seq<char>,
    pub fields: Seq<StructFieldModel>,
    pub docs: Seq<char>,
}

impl View for StructInfo {
    type V = StructInfoModel;

    open spec fn view(&self) -> StructInfoModel {
        StructInfoModel {
            name: self.name@,
            fields: field_models(self.fields@),
            docs: self.docs@,
        }
    }
}

/// An argument of a function.
#[derive(Clone, Debug, PartialEq, Eq)]
pub struct FuncArgument {
    pub _type: Type,
    pub name: String,
    pub is_using_semantic: bool,
}

/// A [`FuncArgument`] as a mathematical value.
pub struct FuncArgumentModel {
    pub _type: Type,
    pub name: Seq<char>,
    pub is_using_semantic: bool,
}

impl View for FuncArgument {
    type V = FuncArgumentModel;

    open spec fn view(&self) -> FuncArgumentModel {
        FuncArgumentModel {
            _type: self._type,
            name: self.name@,
            is_using_semantic: self.is_using_semantic,
        }
    }
}

/// The arguments `args` as mathematical values.
pub open spec fn argument_models(args: Seq<FuncArgument>) -> Seq<FuncArgumentModel> {
    args.map_values(|a: FuncArgument| a@)
}

/// The head of a function.
#[derive(Clone, Debug, PartialEq, Eq)]
pub struct FunctionInfo {
    pub name: String,
    pub args: Vec<FuncArgument>,
    pub return_type: Type,
    pub docs: String,
}

/// A [`FunctionInfo`] as a mathematical value.
pub struct FunctionInfoModel {
    pub name: Seq<char>,
    pub args: Seq<FuncArgumentModel>,
    pub return_type: Type,
    pub docs: Seq<char>,
}

impl View for FunctionInfo {
    type V = FunctionInfoModel;

    open spec fn view(&self) -> FunctionInfoModel {
        FunctionInfoModel {
            name: self.name@,
            args: argument_models(self.args@),
            return_type: self.return_type,
            docs: self.docs@,
        }
    }
}

/// A declaration, or a token that belongs to none.
#[derive(Clone, Debug, PartialEq, Eq)]
pub enum ComplexToken {
    VariableDeclaration(Type, String),
    Struct(StructInfo),
    Function(FunctionInfo),
    Other(Token),
}

/// A [`ComplexToken`] as a mathematical value.
pub enum ComplexTokenModel {
    VariableDeclaration(Type, Seq<char>),
    Struct(StructInfoModel),
    Function(FunctionInfoModel),
    Other(TokenModel),
}

impl View for ComplexToken {
    type V = ComplexTokenModel;

    open spec fn view(&self) -> ComplexTokenModel {
        match self {
            ComplexToken::VariableDeclaration(t, name) => ComplexTokenModel::VariableDeclaration(
                *t,
                name@,
            ),
            ComplexToken::Struct(info) => ComplexTokenModel::Struct(info@),
            ComplexToken::Function(info) => ComplexTokenModel::Function(info@),
            ComplexToken::Other(token) => ComplexTokenModel::Other(token@),
        }
    }
}

/// The declarations `declarations` as mathematical values, each with its
/// bytes.
pub open spec fn spanned_declarations(declarations: Seq<(ComplexToken, Span)>) -> Seq<
    (ComplexTokenModel, Span),
> {
    declarations.map_values(|d: (ComplexToken, Span)| (d.0@, d.1))
}

} // verus!
