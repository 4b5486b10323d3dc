//! From characters to tokens.
//!
//! The lexer skips white space between tokens and tries, at each
//! position, the kinds of token in a fixed order: number, comment,
//! directive, operator, delimiter, name. What is none of these becomes a
//! token of its own, so every text has tokens; the only text that is turned
//! down is one with an integer literal that does not fit in 64 bits.

use vstd::prelude::*;
use crate::parser::Span;
use crate::parser::Token;
use crate::parser::TokenModel;
use crate::parser::Type;
use crate::text::byte_len;
use crate::text::byte_offset;
use crate::text::chars_of;
use crate::text::lemma_byte_len_is_encoded_len;
use crate::text::lemma_byte_offset_increasing;
use crate::text::lemma_byte_offset_step;
use crate::text::string_of_range;
use crate::text::utf8_width_of;

verus! {

/// The sets of characters that runs are made of.
#[derive(Clone, Copy, Debug, PartialEq, Eq, Structural)]
pub enum CharClass {
    /// `0` to `9`.
    Digit,
    /// Letters of the Latin alphabet, digits and `_`.
    Word,
    /// The characters that operators are made of.
    Operator,
    /// Space and tab.
    Blank,
    /// Every character that separates words: the white space of Unicode.
    Space,
    /// Everything but the line feed.
    InLine,
}

/// `0` to `9`.
pub open spec fn is_digit(c: char) -> bool {
    '0' <= c && c <= '9'
}

/// A letter of the Latin alphabet, or `_`.
pub open spec fn is_word_start(c: char) -> bool {
    ('a' <= c && c <= 'z') || ('A' <= c && c <= 'Z') || c == '_'
}

/// One of the characters that operators are made of.
pub open spec fn is_operator(c: char) -> bool {
    c == '+' || c == '*' || c == '-' || c == '/' || c == '!' || c == '=' || c == '%' || c == '|'
        || c == '~' || c == '&'
}

/// One of the characters that are tokens by themselves.
pub open spec fn is_delimiter(c: char) -> bool {
    c == '(' || c == ')' || c == '[' || c == ']' || c == '{' || c == '}' || c == ';' || c == ','
        || c == ':' || c == '<' || c == '>' || c == '.'
}

/// Whether `c` is white space, which stands between tokens and belongs to
/// none: tab, line feed, vertical tab, form feed, carriage return, space,
/// next line, no-break space, and the spaces and separators of Unicode
/// from U+1680 to U+3000.
pub open spec fn is_whitespace(c: char) -> bool {
    let v = c as u32;
    (0x09 <= v <= 0x0d) || v == 0x20 || v == 0x85 || v == 0xa0 || v == 0x1680 || (0x2000 <= v
        <= 0x200a) || v == 0x2028 || v == 0x2029 || v == 0x202f || v == 0x205f || v == 0x3000
}

/// Whether `c` belongs to `class`.
pub open spec fn in_class(c: char, class: CharClass) -> bool {
    match class {
        CharClass::Digit => is_digit(c),
        CharClass::Word => is_word_start(c) || is_digit(c),
        CharClass::Operator => is_operator(c),
        CharClass::Blank => c == ' ' || c == '\t',
        CharClass::Space => is_whitespace(c),
        CharClass::InLine => c != '\n',
    }
}

/// Index at which the run of characters of `class` that starts at `from`
/// ends.
pub open spec fn run_end(text: Seq<char>, from: int, class: CharClass) -> int
    decreases text.len() - from,
{
    if 0 <= from < text.len() && in_class(text[from], class) {
        run_end(text, from + 1, class)
    } else {
        from
    }
}

/// Whether `pattern` stands in `text` at `at`.
pub open spec fn has_at(text: Seq<char>, at: int, pattern: Seq<char>) -> bool {
    0 <= at && at + pattern.len() <= text.len() && text.subrange(at, at + pattern.len())
        == pattern
}

/// Index of the first place from `from` on at which `pattern` stands in
/// `text`, or the length of `text`.
pub open spec fn find(text: Seq<char>, from: int, pattern: Seq<char>) -> int
    decreases text.len() - from,
{
    if from < 0 || from >= text.len() {
        text.len() as int
    } else if has_at(text, from, pattern) {
        from
    } else {
        find(text, from + 1, pattern)
    }
}

/// The number that the digit `c` stands for.
pub open spec fn digit_value(c: char) -> nat {
    if is_digit(c) {
        (c as u32 - '0' as u32) as nat
    } else {
        0
    }
}

/// The number that the digits `digits` spell.
pub open spec fn decimal_value(digits: Seq<char>) -> nat
    decreases digits.len(),
{
    if digits.len() == 0 {
        0
    } else {
        decimal_value(digits.drop_last()) * 10 + digit_value(digits.last())
    }
}

/// What stands at one place of the text.
pub enum Scanned {
    /// A token, and the index at which it ends.
    Token(TokenModel, int),
    /// An integer literal that fits no token, and the index at which it
    /// ends.
    Malformed(int),
}

impl Scanned {
    /// The index at which what was found ends.
    pub open spec fn end(self) -> int {
        match self {
            Scanned::Token(_, end) => end,
            Scanned::Malformed(end) => end,
        }
    }
}

/// The number at `p`, if one starts there: an optional `-` and a run of
/// digits, which is a literal with a fraction if a `.` and more digits
/// follow, and an integer otherwise.
pub open spec fn scan_number(text: Seq<char>, p: int) -> Option<Scanned> {
    let negative = text[p] == '-';
    let first = if negative {
        p + 1
    } else {
        p
    };
    if first < text.len() && is_digit(text[first]) {
        let whole = run_end(text, first, CharClass::Digit);
        if whole + 1 < text.len() && text[whole] == '.' && is_digit(text[whole + 1]) {
            let end = run_end(text, whole + 1, CharClass::Digit);
            Some(Scanned::Token(TokenModel::Float(text.subrange(p, end)), end))
        } else {
            let size = decimal_value(text.subrange(first, whole));
            let value = if negative {
                -size
            } else {
                size as int
            };
            if i64::MIN <= value <= i64::MAX {
                Some(Scanned::Token(TokenModel::Integer(value as i64), whole))
            } else {
                Some(Scanned::Malformed(whole))
            }
        }
    } else {
        None
    }
}

/// The comment at `p`, if one starts there: `/**` or `/*!` up to the next
/// `*/`, or `//` or `///` up to the end of the line. The text of a line
/// comment starts at its first character that is not a blank.
pub open spec fn scan_comment(text: Seq<char>, p: int) -> Option<Scanned> {
    let close = find(text, p + 3, "*/"@);
    if (has_at(text, p, "/**"@) || has_at(text, p, "/*!"@)) && close < text.len() {
        Some(Scanned::Token(TokenModel::Comment(text.subrange(p + 3, close)), close + 2))
    } else if has_at(text, p, "//"@) {
        let body = if has_at(text, p, "///"@) {
            p + 3
        } else {
            p + 2
        };
        let from = run_end(text, body, CharClass::Blank);
        let end = run_end(text, from, CharClass::InLine);
        Some(Scanned::Token(TokenModel::Comment(text.subrange(from, end)), end))
    } else {
        None
    }
}

/// Index at which a directive that has no form of its own ends when it has
/// come as far as `from`: at the end of the line, or before `struct` or
/// `layout`.
pub open spec fn directive_end(text: Seq<char>, from: int) -> int
    decreases text.len() - from,
{
    if from < 0 || from >= text.len() || text[from] == '\n' || has_at(text, from, "struct"@)
        || has_at(text, from, "layout"@) {
        from
    } else {
        directive_end(text, from + 1)
    }
}

/// The directive at `p`, if one starts there. `#if...`, `#else` and `#elif`
/// take the rest of their line, `#endif` nothing more, and any other name
/// the rest of its line as far as `directive_end` says.
pub open spec fn scan_directive(text: Seq<char>, p: int) -> Option<Scanned> {
    if has_at(text, p, "#if"@) || has_at(text, p, "#else"@) || has_at(text, p, "#elif"@) {
        let end = run_end(text, p, CharClass::InLine);
        Some(Scanned::Token(TokenModel::Preprocessor(text.subrange(p, end)), end))
    } else if has_at(text, p, "#endif"@) {
        Some(Scanned::Token(TokenModel::Preprocessor(text.subrange(p, p + 6)), p + 6))
    } else if text[p] == '#' && p + 1 < text.len() && is_word_start(text[p + 1]) {
        let end = directive_end(text, run_end(text, p + 1, CharClass::Word));
        Some(Scanned::Token(TokenModel::Preprocessor(text.subrange(p, end)), end))
    } else {
        None
    }
}

/// The operator at `p`, if one starts there: `>=`, `<=`, or a run of
/// operator characters.
pub open spec fn scan_operator(text: Seq<char>, p: int) -> Option<Scanned> {
    if has_at(text, p, ">="@) || has_at(text, p, "<="@) {
        Some(Scanned::Token(TokenModel::Op(text.subrange(p, p + 2)), p + 2))
    } else if is_operator(text[p]) {
        let end = run_end(text, p, CharClass::Operator);
        Some(Scanned::Token(TokenModel::Op(text.subrange(p, end)), end))
    } else {
        None
    }
}

/// The token that the name `word` is.
pub open spec fn word_token(word: Seq<char>) -> TokenModel {
    if word == "true"@ {
        TokenModel::Bool(true)
    } else if word == "false"@ {
        TokenModel::Bool(false)
    } else if word == "void"@ {
        TokenModel::TypeName(Type::Void)
    } else if word == "float"@ || word == "half"@ || word == "double"@ {
        TokenModel::TypeName(Type::Float)
    } else if word == "int"@ || word == "uint"@ || word == "dword"@ {
        TokenModel::TypeName(Type::Integer)
    } else if word == "bool"@ {
        TokenModel::TypeName(Type::Bool)
    } else if word == "float4"@ || word == "vec4"@ || word == "float2"@ || word == "vec2"@ || word
        == "float3"@ || word == "vec3"@ || word == "uint4"@ || word == "uvec4"@ || word
        == "uint3"@ || word == "uvec3"@ || word == "uint2"@ || word == "uvec2"@ {
        TokenModel::TypeName(Type::Vector)
    } else if word == "float4x4"@ || word == "mat4x4"@ || word == "float3x3"@ || word
        == "mat3x3"@ || word == "float2x2"@ || word == "mat2x2"@ {
        TokenModel::TypeName(Type::Matrix)
    } else if word == "Texture2D"@ || word == "sampler2D"@ {
        TokenModel::TypeName(Type::Texture)
    } else if word == "SamplerState"@ || word == "SamplerComparisonState"@ {
        TokenModel::TypeName(Type::Sampler)
    } else if word == "return"@ {
        TokenModel::Keyword(word)
    } else {
        TokenModel::Ident(word)
    }
}

/// What stands at `p`, where `p` is an index of `text`.
pub open spec fn scan(text: Seq<char>, p: int) -> Scanned {
    if scan_number(text, p) is Some {
        scan_number(text, p)->0
    } else if scan_comment(text, p) is Some {
        scan_comment(text, p)->0
    } else if scan_directive(text, p) is Some {
        scan_directive(text, p)->0
    } else if scan_operator(text, p) is Some {
        scan_operator(text, p)->0
    } else if is_delimiter(text[p]) {
        Scanned::Token(TokenModel::Ctrl(text[p]), p + 1)
    } else if is_word_start(text[p]) {
        let end = run_end(text, p, CharClass::Word);
        Scanned::Token(word_token(text.subrange(p, end)), end)
    } else {
        Scanned::Token(TokenModel::Other(text[p]), p + 1)
    }
}

/// The bytes that the characters from `from` up to `to` take in `text`.
pub open spec fn byte_span(text: Seq<char>, from: int, to: int) -> Span {
    Span { start: byte_offset(text, from) as usize, end: byte_offset(text, to) as usize }
}

/// An integer literal that does not fit in 64 bits.
#[derive(Clone, Copy, Debug, PartialEq, Eq, Structural)]
pub struct LexError {
    /// Where the literal stands.
    pub span: Span,
}

/// The tokens of `text` from `from` on, with the bytes that each takes, or
/// the first integer literal among them that does not fit.
pub open spec fn lex_from(text: Seq<char>, from: int) -> Result<Seq<(TokenModel, Span)>, LexError>
    decreases text.len() - from,
{
    let p = run_end(text, from, CharClass::Space);
    if from < 0 || p >= text.len() {
        Ok(Seq::empty())
    } else {
        match scan(text, p) {
            Scanned::Malformed(end) => Err(LexError { span: byte_span(text, p, end) }),
            Scanned::Token(token, end) => {
                if from <= p < end <= text.len() {
                    match lex_from(text, end) {
                        Ok(rest) => Ok(seq![(token, byte_span(text, p, end))] + rest),
                        Err(e) => Err(e),
                    }
                } else {
                    Ok(Seq::empty())
                }
            },
        }
    }
}

/// The tokens of `text`, with the bytes that each takes, or the first
/// integer literal among them that does not fit in 64 bits.
pub open spec fn lex(text: Seq<char>) -> Result<Seq<(TokenModel, Span)>, LexError> {
    lex_from(text, 0)
}

/// The tokens of `tokens` as mathematical values, each with its bytes.
pub open spec fn spanned_tokens(tokens: Seq<(Token, Span)>) -> Seq<(TokenModel, Span)> {
    tokens.map_values(|t: (Token, Span)| (t.0@, t.1))
}

/// Whether `c` is white space.
pub fn whitespace(c: char) -> (r: bool)
    ensures
        r == is_whitespace(c),
{
    let v: u32 = c as u32;
    (0x09 <= v && v <= 0x0d) || v == 0x20 || v == 0x85 || v == 0xa0 || v == 0x1680 || (0x2000
        <= v && v <= 0x200a) || v == 0x2028 || v == 0x2029 || v == 0x202f || v == 0x205f || v
        == 0x3000
}

/// Whether `c` belongs to `class`.
pub fn class_has(c: char, class: CharClass) -> (r: bool)
    ensures
        r == in_class(c, class),
{
    match class {
        CharClass::Digit => '0' <= c && c <= '9',
        CharClass::Word => ('a' <= c && c <= 'z') || ('A' <= c && c <= 'Z') || c == '_' || ('0'
            <= c && c <= '9'),
        CharClass::Operator => c == '+' || c == '*' || c == '-' || c == '/' || c == '!' || c
            == '=' || c == '%' || c == '|' || c == '~' || c == '&',
        CharClass::Blank => c == ' ' || c == '\t',
        CharClass::Space => whitespace(c),
        CharClass::InLine => c != '\n',
    }
}

/// Index at which the run of characters of `class` that starts at `from`
/// ends.
pub fn scan_run(chars: &Vec<char>, from: usize, class: CharClass) -> (end: usize)
    requires
        from <= chars.len(),
    ensures
        end == run_end(chars@, from as int, class),
        from <= end <= chars.len(),
        from < chars.len() && in_class(chars@[from as int], class) ==> from < end,
{
    let mut i: usize = from;
    while i < chars.len() && class_has(chars[i], class)
        invariant
            from <= i <= chars.len(),
            run_end(chars@, i as int, class) == run_end(chars@, from as int, class),
            from < chars.len() && in_class(chars@[from as int], class) ==> from < i || i == from,
        decreases chars.len() - i,
    {
        i += 1;
    }
    i
}

/// The length of `pattern` if it stands in `chars` at `at`.
pub fn match_at(chars: &Vec<char>, at: usize, pattern: &str) -> (r: Option<usize>)
    requires
        at <= chars.len(),
    ensures
        match r {
            Some(n) => has_at(chars@, at as int, pattern@) && n == pattern@.len(),
            None => !has_at(chars@, at as int, pattern@),
        },
{
    let mut i: usize = at;
    let mut ok = true;
    for c in it: pattern.chars()
        invariant
            it.seq() == pattern@,
            at <= i <= chars.len(),
            ok ==> i == at + it.index() && chars@.subrange(at as int, i as int)
                =~= pattern@.take(it.index() as int),
            !ok ==> !has_at(chars@, at as int, pattern@),
    {
        if ok {
            if i < chars.len() && chars[i] == c {
                i += 1;
            } else {
                ok = false;
                proof {
                    let k = it.index() as int;
                    if has_at(chars@, at as int, pattern@) {
                        assert(chars@.subrange(at as int, at + pattern@.len())[k] == pattern@[k]);
                    }
                }
            }
        }
    }
    if ok {
        assert(pattern@.take(pattern@.len() as int) =~= pattern@);
        Some(i - at)
    } else {
        None
    }
}

/// Whether `pattern` stands in `chars` at `at`.
pub fn stands_at(chars: &Vec<char>, at: usize, pattern: &str) -> (r: bool)
    requires
        at <= chars.len(),
    ensures
        r == has_at(chars@, at as int, pattern@),
{
    match_at(chars, at, pattern).is_some()
}

/// Whether `chars[from..to]` is `word`.
pub fn range_is(chars: &Vec<char>, from: usize, to: usize, word: &str) -> (r: bool)
    requires
        from <= to <= chars.len(),
    ensures
        r == (chars@.subrange(from as int, to as int) == word@),
{
    match match_at(chars, from, word) {
        Some(n) => n == to - from,
        None => {
            proof {
                if chars@.subrange(from as int, to as int) == word@ {
                    assert(word@.len() == to - from);
                }
            }
            false
        },
    }
}

/// Index of the first place from `from` on at which `pattern` stands in
/// `chars`, or the length of `chars`.
pub fn search(chars: &Vec<char>, from: usize, pattern: &str) -> (at: usize)
    requires
        from <= chars.len(),
    ensures
        at == find(chars@, from as int, pattern@),
        from <= at <= chars.len(),
        at < chars.len() ==> has_at(chars@, at as int, pattern@),
{
    let mut i: usize = from;
    while i < chars.len()
        invariant
            from <= i <= chars.len(),
            find(chars@, i as int, pattern@) == find(chars@, from as int, pattern@),
        decreases chars.len() - i,
    {
        if stands_at(chars, i, pattern) {
            return i;
        }
        i += 1;
    }
    i
}

/// Index at which a directive that has no form of its own ends when it has
/// come as far as `from`.
pub fn directive_stop(chars: &Vec<char>, from: usize) -> (end: usize)
    requires
        from <= chars.len(),
    ensures
        end == directive_end(chars@, from as int),
        from <= end <= chars.len(),
{
    let mut i: usize = from;
    while i < chars.len()
        invariant
            from <= i <= chars.len(),
            directive_end(chars@, i as int) == directive_end(chars@, from as int),
        decreases chars.len() - i,
    {
        if chars[i] == '\n' || stands_at(chars, i, "struct") || stands_at(chars, i, "layout") {
            return i;
        }
        i += 1;
    }
    i
}

/// What the lexer found at one place of the text.
pub enum Scan {
    /// A token, and the index at which it ends.
    Token(Token, usize),
    /// An integer literal that fits no token, and the index at which it
    /// ends.
    Malformed(usize),
}

impl View for Scan {
    type V = Scanned;

    open spec fn view(&self) -> Scanned {
        match self {
            Scan::Token(token, end) => Scanned::Token(token@, *end as int),
            Scan::Malformed(end) => Scanned::Malformed(*end as int),
        }
    }
}

/// The views of an outcome that may be missing.
pub open spec fn scan_view(found: Option<Scan>) -> Option<Scanned> {
    match found {
        Some(scan) => Some(scan@),
        None => None,
    }
}

/// Appending a digit multiplies the value by ten and adds the digit.
pub proof fn lemma_decimal_value_step(text: Seq<char>, from: int, to: int)
    requires
        0 <= from <= to < text.len(),
    ensures
        decimal_value(text.subrange(from, to + 1)) == decimal_value(text.subrange(from, to)) * 10
            + digit_value(text[to]),
{
    assert(text.subrange(from, to + 1).drop_last() =~= text.subrange(from, to));
}

/// The value of the integer literal whose digits are `chars[from..to]`,
/// negated if `negative`; nothing if it does not fit in 64 bits.
pub fn integer_value(chars: &Vec<char>, from: usize, to: usize, negative: bool) -> (r: Option<i64>)
    requires
        from <= to <= chars.len(),
        forall|i: int| from <= i < to ==> is_digit(#[trigger] chars@[i]),
    ensures
        ({
            let size = decimal_value(chars@.subrange(from as int, to as int));
            let value = if negative {
                -size
            } else {
                size as int
            };
            match r {
                Some(v) => v == value,
                None => !(i64::MIN <= value <= i64::MAX),
            }
        }),
{
    let limit: u128 = if negative {
        0x8000_0000_0000_0000
    } else {
        0x7fff_ffff_ffff_ffff
    };
    let mut size: u128 = 0;
    let mut i: usize = from;
    assert(chars@.subrange(from as int, from as int) =~= Seq::<char>::empty());
    while i < to
        invariant
            from <= i <= to <= chars.len(),
            forall|i: int| from <= i < to ==> is_digit(#[trigger] chars@[i]),
            size == decimal_value(chars@.subrange(from as int, i as int)),
            size <= limit,
            limit == if negative {
                0x8000_0000_0000_0000u128
            } else {
                0x7fff_ffff_ffff_ffffu128
            },
        decreases to - i,
    {
        let digit: u32 = chars[i] as u32 - '0' as u32;
        proof {
            lemma_decimal_value_step(chars@, from as int, i as int);
        }
        let next: u128 = size * 10 + digit as u128;
        assert(is_digit(chars@[i as int]));
        assert(next == decimal_value(chars@.subrange(from as int, i + 1)));
        if next > limit {
            proof {
                lemma_decimal_value_grows(chars@, from as int, i + 1, to as int);
            }
            return None;
        }
        size = next;
        i += 1;
    }
    if negative {
        if size == 0x8000_0000_0000_0000 {
            Some(i64::MIN)
        } else {
            Some(-(size as i64))
        }
    } else {
        Some(size as i64)
    }
}

/// More digits never make a smaller number.
pub proof fn lemma_decimal_value_grows(text: Seq<char>, from: int, mid: int, to: int)
    requires
        0 <= from <= mid <= to <= text.len(),
    ensures
        decimal_value(text.subrange(from, mid)) <= decimal_value(text.subrange(from, to)),
    decreases to - mid,
{
    if mid < to {
        lemma_decimal_value_grows(text, from, mid, to - 1);
        lemma_decimal_value_step(text, from, to - 1);
    }
}

/// Every character of a run belongs to the class of the run.
pub proof fn lemma_run_members(text: Seq<char>, from: int, class: CharClass, i: int)
    requires
        0 <= from <= i < run_end(text, from, class),
    ensures
        i < text.len(),
        in_class(text[i], class),
    decreases i - from,
{
    if from < i {
        lemma_run_members(text, from + 1, class, i);
    }
}

/// The number at `p`, if one starts there.
pub fn number(chars: &Vec<char>, p: usize) -> (r: Option<Scan>)
    requires
        p < chars.len(),
    ensures
        scan_view(r) == scan_number(chars@, p as int),
        r is Some ==> p < r->0@.end() <= chars.len(),
        r matches Some(Scan::Malformed(end)) ==> p + 2 <= end,
{
    let negative = chars[p] == '-';
    let first = if negative {
        p + 1
    } else {
        p
    };
    if first < chars.len() && class_has(chars[first], CharClass::Digit) {
        let whole = scan_run(chars, first, CharClass::Digit);
        if whole < chars.len() - 1 && chars[whole] == '.' && class_has(
            chars[whole + 1],
            CharClass::Digit,
        ) {
            let end = scan_run(chars, whole + 1, CharClass::Digit);
            Some(Scan::Token(Token::Float(string_of_range(chars, p, end)), end))
        } else {
            proof {
                assert forall|i: int| first <= i < whole implies is_digit(
                    #[trigger] chars@[i],
                ) by {
                    lemma_run_members(chars@, first as int, CharClass::Digit, i);
                }
            }
            match integer_value(chars, first, whole, negative) {
                Some(value) => Some(Scan::Token(Token::Integer(value), whole)),
                None => {
                    proof {
                        if whole == first + 1 {
                            lemma_decimal_value_step(chars@, first as int, first as int);
                            assert(chars@.subrange(first as int, first as int)
                                =~= Seq::<char>::empty());
                        }
                    }
                    Some(Scan::Malformed(whole))
                },
            }
        }
    } else {
        None
    }
}

/// The comment at `p`, if one starts there.
pub fn comment(chars: &Vec<char>, p: usize) -> (r: Option<Scan>)
    requires
        p < chars.len(),
    ensures
        scan_view(r) == scan_comment(chars@, p as int),
        r is Some ==> p < r->0@.end() <= chars.len(),
{
    proof {
        reveal_strlit("/**");
        reveal_strlit("/*!");
        reveal_strlit("//");
        reveal_strlit("///");
        reveal_strlit("*/");
    }
    if stands_at(chars, p, "/**") || stands_at(chars, p, "/*!") {
        let close = search(chars, p + 3, "*/");
        if close < chars.len() {
            return Some(
                Scan::Token(Token::Comment(string_of_range(chars, p + 3, close)), close + 2),
            );
        }
    }
    if stands_at(chars, p, "//") {
        let body = if stands_at(chars, p, "///") {
            p + 3
        } else {
            p + 2
        };
        let from = scan_run(chars, body, CharClass::Blank);
        let end = scan_run(chars, from, CharClass::InLine);
        Some(Scan::Token(Token::Comment(string_of_range(chars, from, end)), end))
    } else {
        None
    }
}

/// The directive at `p`, if one starts there.
pub fn directive(chars: &Vec<char>, p: usize) -> (r: Option<Scan>)
    requires
        p < chars.len(),
    ensures
        scan_view(r) == scan_directive(chars@, p as int),
        r is Some ==> p < r->0@.end() <= chars.len(),
{
    proof {
        reveal_strlit("#if");
        reveal_strlit("#else");
        reveal_strlit("#elif");
        reveal_strlit("#endif");
    }
    if stands_at(chars, p, "#if") || stands_at(chars, p, "#else") || stands_at(chars, p, "#elif") {
        assert(chars@.subrange(p as int, p + 1)[0] == '#') by {
            if has_at(chars@, p as int, "#if"@) {
                assert(chars@.subrange(p as int, p + 3)[0] == '#');
            } else if has_at(chars@, p as int, "#else"@) {
                assert(chars@.subrange(p as int, p + 5)[0] == '#');
            } else {
                assert(chars@.subrange(p as int, p + 5)[0] == '#');
            }
        }
        let end = scan_run(chars, p, CharClass::InLine);
        Some(Scan::Token(Token::Preprocessor(string_of_range(chars, p, end)), end))
    } else if stands_at(chars, p, "#endif") {
        Some(Scan::Token(Token::Preprocessor(string_of_range(chars, p, p + 6)), p + 6))
    } else if chars[p] == '#' && p + 1 < chars.len() && class_has(chars[p + 1], CharClass::Word)
        && !class_has(chars[p + 1], CharClass::Digit) {
        let name_end = scan_run(chars, p + 1, CharClass::Word);
        let end = directive_stop(chars, name_end);
        Some(Scan::Token(Token::Preprocessor(string_of_range(chars, p, end)), end))
    } else {
        None
    }
}

/// The operator at `p`, if one starts there.
pub fn operator(chars: &Vec<char>, p: usize) -> (r: Option<Scan>)
    requires
        p < chars.len(),
    ensures
        scan_view(r) == scan_operator(chars@, p as int),
        r is Some ==> p < r->0@.end() <= chars.len(),
{
    proof {
        reveal_strlit(">=");
        reveal_strlit("<=");
    }
    if stands_at(chars, p, ">=") || stands_at(chars, p, "<=") {
        Some(Scan::Token(Token::Op(string_of_range(chars, p, p + 2)), p + 2))
    } else if class_has(chars[p], CharClass::Operator) {
        let end = scan_run(chars, p, CharClass::Operator);
        Some(Scan::Token(Token::Op(string_of_range(chars, p, end)), end))
    } else {
        None
    }
}

/// The token that the name `chars[from..to]` is.
pub fn word(chars: &Vec<char>, from: usize, to: usize) -> (token: Token)
    requires
        from <= to <= chars.len(),
    ensures
        token@ == word_token(chars@.subrange(from as int, to as int)),
{
    if range_is(chars, from, to, "true") {
        Token::Bool(true)
    } else if range_is(chars, from, to, "false") {
        Token::Bool(false)
    } else if range_is(chars, from, to, "void") {
        Token::TypeName(Type::Void)
    } else if range_is(chars, from, to, "float") || range_is(chars, from, to, "half") || range_is(
        chars,
        from,
        to,
        "double",
    ) {
        Token::TypeName(Type::Float)
    } else if range_is(chars, from, to, "int") || range_is(chars, from, to, "uint") || range_is(
        chars,
        from,
        to,
        "dword",
    ) {
        Token::TypeName(Type::Integer)
    } else if range_is(chars, from, to, "bool") {
        Token::TypeName(Type::Bool)
    } else if range_is(chars, from, to, "float4") || range_is(chars, from, to, "vec4") || range_is(
        chars,
        from,
        to,
        "float2",
    ) || range_is(chars, from, to, "vec2") || range_is(chars, from, to, "float3") || range_is(
        chars,
        from,
        to,
        "vec3",
    ) || range_is(chars, from, to, "uint4") || range_is(chars, from, to, "uvec4") || range_is(
        chars,
        from,
        to,
        "uint3",
    ) || range_is(chars, from, to, "uvec3") || range_is(chars, from, to, "uint2") || range_is(
        chars,
        from,
        to,
        "uvec2",
    ) {
        Token::TypeName(Type::Vector)
    } else if range_is(chars, from, to, "float4x4") || range_is(chars, from, to, "mat4x4")
        || range_is(chars, from, to, "float3x3") || range_is(chars, from, to, "mat3x3")
        || range_is(chars, from, to, "float2x2") || range_is(chars, from, to, "mat2x2") {
        Token::TypeName(Type::Matrix)
    } else if range_is(chars, from, to, "Texture2D") || range_is(chars, from, to, "sampler2D") {
        Token::TypeName(Type::Texture)
    } else if range_is(chars, from, to, "SamplerState") || range_is(
        chars,
        from,
        to,
        "SamplerComparisonState",
    ) {
        Token::TypeName(Type::Sampler)
    } else if range_is(chars, from, to, "return") {
        Token::Keyword(string_of_range(chars, from, to))
    } else {
        Token::Ident(string_of_range(chars, from, to))
    }
}

/// Whether `c` is a token by itself.
pub fn delimiter(c: char) -> (r: bool)
    ensures
        r == is_delimiter(c),
{
    c == '(' || c == ')' || c == '[' || c == ']' || c == '{' || c == '}' || c == ';' || c == ','
        || c == ':' || c == '<' || c == '>' || c == '.'
}

/// What stands at `p`.
pub fn scan_at(chars: &Vec<char>, p: usize) -> (r: Scan)
    requires
        p < chars.len(),
    ensures
        r@ == scan(chars@, p as int),
        p < r@.end() <= chars.len(),
        r matches Scan::Malformed(end) ==> p + 2 <= end,
{
    if let Some(found) = number(chars, p) {
        return found;
    }
    if let Some(found) = comment(chars, p) {
        return found;
    }
    if let Some(found) = directive(chars, p) {
        return found;
    }
    if let Some(found) = operator(chars, p) {
        return found;
    }
    let c = chars[p];
    if delimiter(c) {
        Scan::Token(Token::Ctrl(c), p + 1)
    } else if class_has(c, CharClass::Word) && !class_has(c, CharClass::Digit) {
        let end = scan_run(chars, p, CharClass::Word);
        Scan::Token(word(chars, p, end), end)
    } else {
        Scan::Token(Token::Other(c), p + 1)
    }
}

/// The byte offset at which each character of `chars` starts, and behind
/// them the offset at which the text ends.
pub fn byte_offsets(chars: &Vec<char>) -> (offsets: Vec<usize>)
    requires
        byte_len(chars@) <= usize::MAX,
    ensures
        offsets.len() == chars.len() + 1,
        forall|i: int| 0 <= i <= chars.len() ==> #[trigger] offsets@[i] == byte_offset(chars@, i),
{
    let mut offsets: Vec<usize> = Vec::new();
    let mut offset: usize = 0;
    let mut i: usize = 0;
    assert(chars@.take(chars.len() as int) =~= chars@);
    while i < chars.len()
        invariant
            i <= chars.len(),
            byte_offset(chars@, chars.len() as int) <= usize::MAX,
            offset == byte_offset(chars@, i as int),
            offsets.len() == i,
            forall|j: int| 0 <= j < i ==> #[trigger] offsets@[j] == byte_offset(chars@, j),
        decreases chars.len() - i,
    {
        proof {
            lemma_byte_offset_step(chars@, i as int);
            lemma_byte_offset_increasing(chars@, i + 1, chars.len() as int);
        }
        offsets.push(offset);
        offset += utf8_width_of(chars[i]);
        i += 1;
    }
    offsets.push(offset);
    offsets
}

/// The outcome of lexing as a mathematical value.
pub open spec fn lexed_view(r: Result<Vec<(Token, Span)>, LexError>) -> Result<
    Seq<(TokenModel, Span)>,
    LexError,
> {
    match r {
        Ok(tokens) => Ok(spanned_tokens(tokens@)),
        Err(e) => Err(e),
    }
}

/// `done` followed by what `rest` holds, or the failure of `rest`.
pub open spec fn after(done: Seq<(TokenModel, Span)>, rest: Result<Seq<(TokenModel, Span)>, LexError>) -> Result<
    Seq<(TokenModel, Span)>,
    LexError,
> {
    match rest {
        Ok(more) => Ok(done + more),
        Err(e) => Err(e),
    }
}

/// The tokens of `text`, each with the bytes that it takes, or the first
/// integer literal among them that does not fit in 64 bits.
pub fn token_parser(text: &str) -> (r: Result<Vec<(Token, Span)>, LexError>)
    ensures
        lexed_view(r) == lex(text@),
        r matches Err(e) ==> e.span.start + 2 <= e.span.end,
{
    let chars = chars_of(text);
    let size = text.as_bytes().len();
    proof {
        lemma_byte_len_is_encoded_len(text@);
    }
    let offsets = byte_offsets(&chars);
    let mut tokens: Vec<(Token, Span)> = Vec::new();
    let mut pos: usize = 0;
    assert(spanned_tokens(tokens@) =~= Seq::<(TokenModel, Span)>::empty());
    assert(after(spanned_tokens(tokens@), lex_from(chars@, 0)) =~= lex_from(chars@, 0)) by {
        match lex_from(chars@, 0) {
            Ok(more) => {
                assert(Seq::<(TokenModel, Span)>::empty() + more =~= more);
            },
            Err(e) => {},
        }
    }
    loop
        invariant
            chars@ == text@,
            pos <= chars.len(),
            offsets.len() == chars.len() + 1,
            forall|i: int|
                0 <= i <= chars.len() ==> #[trigger] offsets@[i] == byte_offset(chars@, i),
            after(spanned_tokens(tokens@), lex_from(chars@, pos as int)) == lex(chars@),
        decreases chars.len() - pos,
    {
        let p = scan_run(&chars, pos, CharClass::Space);
        if p >= chars.len() {
            assert(spanned_tokens(tokens@) + Seq::<(TokenModel, Span)>::empty() =~= spanned_tokens(
                tokens@,
            ));
            return Ok(tokens);
        }
        match scan_at(&chars, p) {
            Scan::Malformed(end) => {
                proof {
                    lemma_byte_offset_increasing(chars@, p as int, end as int);
                }
                return Err(LexError { span: Span { start: offsets[p], end: offsets[end] } });
            },
            Scan::Token(token, end) => {
                let span = Span { start: offsets[p], end: offsets[end] };
                let ghost before = spanned_tokens(tokens@);
                let ghost item = (token@, span);
                tokens.push((token, span));
                proof {
                    assert(spanned_tokens(tokens@) =~= before.push(item));
                    match lex_from(chars@, end as int) {
                        Ok(rest) => {
                            assert(before + (seq![item] + rest) =~= before.push(item) + rest);
                        },
                        Err(e) => {},
                    }
                }
                pos = end;
            },
        }
    }
}

} // verus!
