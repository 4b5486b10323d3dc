//! The formatter: the layout pass, the two parsers and the checker, one
//! after the other.

use vstd::prelude::*;
use crate::config::Config;
use crate::config::ConfigModel;
use crate::helpers::column_at;
use crate::helpers::lemma_line_fits;
use crate::helpers::line_at;
use crate::helpers::span_offset_to_line_and_column;
use crate::helpers::starts_at;
use crate::layout::model::layout;
use crate::layout::model::starts_with_comment;
use crate::layout::pass::lay_out;
use crate::layout::pass::line_is_comment;
use crate::layout::laws::has_plain_ending;
use crate::layout::settle::is_plain_source;
use crate::layout::settle::lemma_second_pass_changes_nothing;
use crate::lint::Scope;
use crate::lint::Verdict;
use crate::lint::argument_names_verdict;
use crate::lint::arguments_documented;
use crate::lint::contains;
use crate::lint::converted_case;
use crate::lint::documented_exist;
use crate::lint::documented_from;
use crate::lint::field_docs_verdict;
use crate::lint::field_names_verdict;
use crate::lint::function_docs_verdict;
use crate::lint::function_verdict;
use crate::lint::has_argument;
use crate::lint::is_excused;
use crate::lint::local_name_verdict;
use crate::lint::name_case_verdict;
use crate::lint::next_space;
use crate::lint::nolint_after;
use crate::lint::prefix_verdict;
use crate::lint::scope_after;
use crate::lint::skip_spaces;
use crate::lint::starts_with;
use crate::lint::struct_docs_verdict;
use crate::lint::struct_verdict;
use crate::lint::variable_verdict;
use crate::lint::verdict;
use crate::lint::verdict_from;
use crate::parser::ComplexToken;
use crate::parser::FuncArgument;
use crate::parser::FunctionInfo;
use crate::parser::Span;
use crate::parser::StructField;
use crate::parser::StructInfo;
use crate::parser::Token;
use crate::parser::Type;
use crate::parser::argument_models;
use crate::parser::complex_token_parser;
use crate::parser::field_models;
use crate::parser::grammar::declarations;
use crate::parser::lexer::LexError;
use crate::parser::lexer::lex;
use crate::parser::lexer::search;
use crate::parser::lexer::stands_at;
use crate::parser::spanned_declarations;
use crate::parser::token_parser;
use crate::rules::Case;
use crate::text::chars_of;
use crate::text::decimal_text;
use crate::text::join3;
use crate::text::join5;
use crate::text::lemma_byte_offset_increasing;
use crate::text::push_decimal;
use crate::text::same_text;
use crate::text::string_of;
use crate::text::string_of_range;

verus! {

/// What a rule says, as a mathematical value.
pub open spec fn verdict_view(r: Result<(), String>) -> Verdict {
    match r {
        Ok(()) => Ok(()),
        Err(e) => Err(e@),
    }
}

/// `Casing::to_case` of convert_case on a string slice: `name` in the
/// naming convention `case`. The result depends on the two alone.
#[verifier::external_body]
fn to_case(name: &str, case: Case) -> (converted: String)
    ensures
        converted@ == converted_case(name@, case),
{
    let target = match case {
        Case::Camel => convert_case::Case::Camel,
        Case::Pascal => convert_case::Case::Pascal,
        Case::Snake => convert_case::Case::Snake,
        Case::UpperSnake => convert_case::Case::UpperSnake,
    };
    convert_case::Casing::to_case(&name, target)
}

/// Whether `text` begins with `prefix`.
pub fn begins_with(text: &str, prefix: &str) -> (r: bool)
    ensures
        r == starts_with(text@, prefix@),
{
    let chars = chars_of(text);
    stands_at(&chars, 0, prefix)
}

/// Applies rules to shader sources.
pub struct Formatter {
    pub config: Config,
}

impl Formatter {
    /// A formatter that works by the rules of `config`.
    pub fn new(config: Config) -> (formatter: Formatter)
        ensures
            formatter.config == config,
    {
        Formatter { config }
    }

    /// Whether the first two characters of `text` that are not blanks are
    /// `//`.
    pub fn is_text_starts_with_comment(text: &str) -> (r: bool)
        ensures
            r == starts_with_comment(text@, 0),
    {
        let chars = chars_of(text);
        line_is_comment(&chars, 0)
    }

    /// Nothing if `test` is what the case converter made of it, `converted`;
    /// else `converted`, the name as it should be.
    pub fn compare_case(test: &str, converted: String) -> (r: Result<(), String>)
        ensures
            match r {
                Ok(()) => test@ == converted@,
                Err(correct) => test@ != converted@ && correct@ == converted@,
            },
    {
        if same_text(test, converted.as_str()) {
            Ok(())
        } else {
            Err(converted)
        }
    }

    /// Nothing if `test` is written in `target_case`; else `test` as that
    /// naming convention writes it.
    pub fn is_case_different(test: &str, target_case: Case) -> (r: Result<(), String>)
        ensures
            match r {
                Ok(()) => test@ == converted_case(test@, target_case),
                Err(correct) => test@ != converted_case(test@, target_case) && correct@
                    == converted_case(test@, target_case),
            },
    {
        Formatter::compare_case(test, to_case(test, target_case))
    }

    /// Holds `name` to the naming convention `case`.
    pub fn check_name_case(name: &str, case: Case) -> (r: Result<(), String>)
        ensures
            verdict_view(r) == name_case_verdict(name@, case),
    {
        match Formatter::is_case_different(name, case) {
            Ok(()) => Ok(()),
            Err(correct) => Err(
                join5(
                    "\"",
                    name,
                    "\" has incorrect case, the correct case is \"",
                    correct.as_str(),
                    "\"",
                ),
            ),
        }
    }

    /// Holds `name` to the prefix `prefix`.
    pub fn check_prefix(name: &str, prefix: &str) -> (r: Result<(), String>)
        ensures
            verdict_view(r) == prefix_verdict(name@, prefix@),
    {
        if !begins_with(name, prefix) {
            return Err(
                join5(
                    "variable \"",
                    name,
                    "\" has incorrect prefix, the correct prefix is \"",
                    prefix,
                    "\"",
                ),
            );
        }
        Ok(())
    }

    /// Holds a struct to the rule that it is documented.
    pub fn check_struct_docs(struct_info: &StructInfo) -> (r: Result<(), String>)
        ensures
            verdict_view(r) == struct_docs_verdict(struct_info@),
    {
        if struct_info.docs.as_str().unicode_len() == 0 {
            return Err(
                join3(
                    "expected to find documentation for the struct \"",
                    struct_info.name.as_str(),
                    "\"",
                ),
            );
        }
        Ok(())
    }

    /// Holds the fields of a struct to the rule that each is documented.
    pub fn check_struct_field_docs(struct_info: &StructInfo) -> (r: Result<(), String>)
        ensures
            verdict_view(r) == field_docs_verdict(struct_info@.fields),
    {
        let ghost fields = field_models(struct_info.fields@);
        let mut i: usize = 0;
        assert(fields.take(0) =~= Seq::empty());
        while i < struct_info.fields.len()
            invariant
                i <= struct_info.fields.len(),
                fields == field_models(struct_info.fields@),
                field_docs_verdict(fields.take(i as int)) is Ok,
            decreases struct_info.fields.len() - i,
        {
            proof {
                assert(fields.take(i + 1).drop_last() =~= fields.take(i as int));
            }
            let info = &struct_info.fields[i];
            if info.docs.as_str().unicode_len() == 0 {
                proof {
                    lemma_field_docs_objection(fields, i + 1);
                }
                return Err(
                    join3(
                        "expected to find documentation for the struct field \"",
                        info.name.as_str(),
                        "\"",
                    ),
                );
            }
            i += 1;
        }
        assert(fields.take(fields.len() as int) =~= fields);
        Ok(())
    }

    /// Holds a variable that is not global, or what follows the prefix for
    /// global variables in the name of one that is, to the naming
    /// convention and to the prefix of its type.
    pub fn check_local_name(&self, name: &str, _type: Type) -> (r: Result<(), String>)
        ensures
            verdict_view(r) == local_name_verdict(name@, _type, self.config@),
    {
        if let Some(case) = self.config.variable_case {
            Formatter::check_name_case(name, case)?;
        }
        if let Some(prefix) = &self.config.bool_prefix {
            if _type == Type::Bool {
                Formatter::check_prefix(name, prefix.as_str())?;
            }
        }
        if let Some(prefix) = &self.config.int_prefix {
            if _type == Type::Integer {
                Formatter::check_prefix(name, prefix.as_str())?;
            }
        }
        if let Some(prefix) = &self.config.float_prefix {
            if _type == Type::Float {
                Formatter::check_prefix(name, prefix.as_str())?;
            }
        }
        Ok(())
    }

    /// Holds the variable `name` of type `_type` to the rules for
    /// variables.
    pub fn check_variable_name(&self, name: &str, _type: Type, is_global_scope: bool) -> (r: Result<
        (),
        String,
    >)
        ensures
            verdict_view(r) == variable_verdict(name@, _type, is_global_scope, self.config@),
    {
        if let Some(global_prefix) = &self.config.global_variable_prefix {
            if is_global_scope {
                let prefix = global_prefix.as_str();
                if !begins_with(name, prefix) {
                    let mut message = join5(
                        "\"",
                        name,
                        "\" has incorrect prefix because it's a global variable, the correct name is probably \"",
                        prefix,
                        name,
                    );
                    message.append("\"");
                    return Err(message);
                }
                if !name.is_ascii() && !prefix.is_ascii() {
                    return Err(
                        join5(
                            "expected global prefix rule \"",
                            prefix,
                            "\" and \"",
                            name,
                            "\" to have an ASCII-only name",
                        ),
                    );
                }
                let chars = chars_of(name);
                let skipped = prefix.unicode_len();
                let rest = string_of_range(&chars, skipped, chars.len());
                return self.check_local_name(rest.as_str(), _type);
            }
        }
        self.check_local_name(name, _type)
    }

    /// Holds the documentation of a function to the rules for it.
    pub fn check_function_docs(func_info: &FunctionInfo) -> (r: Result<(), String>)
        ensures
            verdict_view(r) == function_docs_verdict(func_info@),
    {
        let name = func_info.name.as_str();
        let docs = chars_of(func_info.docs.as_str());
        if docs.len() == 0 {
            return Err(join3("expected to find documentation for the function \"", name, "\""));
        }
        if !func_info.docs.as_str().is_ascii() {
            return Err(
                join3(
                    "expected the documentation for the function \"",
                    name,
                    "\" to only use ASCII characters",
                ),
            );
        }
        let tagged = search(&docs, 0, "@return") < docs.len();
        if func_info.return_type != Type::Void {
            if !tagged {
                return Err(
                    join3(
                        "expected to find documentation of the return value for the function \"",
                        name,
                        "\"",
                    ),
                );
            }
        } else if tagged {
            return Err(
                join3(
                    "found documentation of the VOID return value for the function \"",
                    name,
                    "\"",
                ),
            );
        }
        let documented = documented_names(&docs);
        all_documented(&func_info.args, &documented, name)?;
        all_exist(&documented, &func_info.args, name)
    }

    /// Holds the fields of a struct to the rules for variables.
    pub fn check_field_names(&self, fields: &Vec<StructField>) -> (r: Result<(), String>)
        ensures
            verdict_view(r) == field_names_verdict(field_models(fields@), self.config@),
    {
        let ghost all = field_models(fields@);
        let mut i: usize = 0;
        assert(all.take(0) =~= Seq::empty());
        while i < fields.len()
            invariant
                i <= fields.len(),
                all == field_models(fields@),
                field_names_verdict(all.take(i as int), self.config@) is Ok,
            decreases fields.len() - i,
        {
            proof {
                assert(all.take(i + 1).drop_last() =~= all.take(i as int));
            }
            match self.check_variable_name(fields[i].name.as_str(), fields[i]._type, false) {
                Ok(()) => {},
                Err(e) => {
                    proof {
                        lemma_field_names_objection(all, self.config@, i + 1);
                    }
                    return Err(e);
                },
            }
            i += 1;
        }
        assert(all.take(all.len() as int) =~= all);
        Ok(())
    }

    /// Holds the arguments of a function to the rules for variables.
    pub fn check_argument_names(&self, args: &Vec<FuncArgument>) -> (r: Result<(), String>)
        ensures
            verdict_view(r) == argument_names_verdict(argument_models(args@), self.config@),
    {
        let ghost all = argument_models(args@);
        let mut i: usize = 0;
        assert(all.take(0) =~= Seq::empty());
        while i < args.len()
            invariant
                i <= args.len(),
                all == argument_models(args@),
                argument_names_verdict(all.take(i as int), self.config@) is Ok,
            decreases args.len() - i,
        {
            proof {
                assert(all.take(i + 1).drop_last() =~= all.take(i as int));
            }
            match self.check_variable_name(args[i].name.as_str(), args[i]._type, false) {
                Ok(()) => {},
                Err(e) => {
                    proof {
                        lemma_argument_names_objection(all, self.config@, i + 1);
                    }
                    return Err(e);
                },
            }
            i += 1;
        }
        assert(all.take(all.len() as int) =~= all);
        Ok(())
    }

    /// Holds a struct to the rules for structs.
    pub fn check_struct(&self, info: &StructInfo) -> (r: Result<(), String>)
        ensures
            verdict_view(r) == struct_verdict(info@, self.config@),
    {
        if self.config.require_docs_on_structs {
            Formatter::check_struct_docs(info)?;
        }
        if let Some(case) = self.config.struct_case {
            Formatter::check_name_case(info.name.as_str(), case)?;
        }
        self.check_field_names(&info.fields)?;
        if self.config.require_docs_on_fields {
            Formatter::check_struct_field_docs(info)?;
        }
        Ok(())
    }

    /// Holds the head of a function to the rules for functions.
    pub fn check_function(&self, info: &FunctionInfo) -> (r: Result<(), String>)
        ensures
            verdict_view(r) == function_verdict(info@, self.config@),
    {
        if self.config.require_docs_on_functions {
            Formatter::check_function_docs(info)?;
        }
        if let Some(case) = self.config.function_case {
            Formatter::check_name_case(info.name.as_str(), case)?;
        }
        self.check_argument_names(&info.args)
    }

    /// Holds the declarations to the rules of the configuration, in order,
    /// and says what the first of them that breaks one has to change.
    pub fn check_complex_rules(&self, complex_tokens: &Vec<(ComplexToken, Span)>) -> (r: Result<
        (),
        String,
    >)
        ensures
            verdict_view(r) == verdict(spanned_declarations(complex_tokens@), self.config@),
    {
        let ghost all = spanned_declarations(complex_tokens@);
        let mut scope = Tracker { is_global: true, is_inside_nolint: false, nesting: 0 };
        let mut i: usize = 0;
        while i < complex_tokens.len()
            invariant
                i <= complex_tokens.len(),
                all == spanned_declarations(complex_tokens@),
                scope.nesting <= i,
                verdict_from(scope@, all, i as int, self.config@) == verdict(all, self.config@),
            decreases complex_tokens.len() - i,
        {
            scope.is_inside_nolint = nolint_behind(scope.is_inside_nolint, complex_tokens, i);
            if !scope.is_inside_nolint && !excused(complex_tokens, i) {
                match self.check_declaration(&mut scope, &complex_tokens[i].0) {
                    Ok(()) => {},
                    Err(e) => {
                        return Err(e);
                    },
                }
            }
            i += 1;
        }
        if scope.is_inside_nolint {
            return Err("`NOLINTBEGIN` was found but no matching `NOLINTEND` detected".to_owned());
        }
        Ok(())
    }

    /// Holds one declaration to the rules and moves `scope` behind it.
    pub fn check_declaration(&self, scope: &mut Tracker, declaration: &ComplexToken) -> (r: Result<
        (),
        String,
    >)
        requires
            old(scope).nesting < usize::MAX,
        ensures
            match r {
                Ok(()) => scope_after(old(scope)@, declaration@, self.config@) == Ok::<
                    Scope,
                    Seq<char>,
                >(final(scope)@) && final(scope).nesting <= old(scope).nesting + 1,
                Err(e) => scope_after(old(scope)@, declaration@, self.config@) == Err::<
                    Scope,
                    Seq<char>,
                >(e@),
            },
    {
        match declaration {
            ComplexToken::VariableDeclaration(_type, name) => {
                self.check_variable_name(name.as_str(), *_type, scope.is_global)?;
            },
            ComplexToken::Struct(info) => {
                self.check_struct(info)?;
                scope.is_global = true;
            },
            ComplexToken::Function(info) => {
                self.check_function(info)?;
                scope.is_global = false;
                scope.nesting = 0;
            },
            ComplexToken::Other(token) => {
                if !scope.is_global {
                    match token {
                        Token::Ctrl(c) => {
                            if *c == '{' {
                                scope.nesting += 1;
                            } else if *c == '}' {
                                if scope.nesting == 0 {
                                    return Err(
                                        "found '}' but scope nesting counter is already zero".to_owned(),
                                    );
                                }
                                scope.nesting -= 1;
                                if scope.nesting == 0 {
                                    scope.is_global = true;
                                }
                            }
                        },
                        _ => {},
                    }
                }
            },
        }
        Ok(())
    }

    /// The text that the layout pass makes of `content`.
    pub fn apply_simple_rules(&self, content: &str) -> (r: Result<String, String>)
        ensures
            text_result_view(r) == layout(content@, self.config@),
    {
        match lay_out(content, &self.config) {
            Ok(out) => Ok(string_of(&out)),
            Err(message) => Err(message),
        }
    }

    /// `content` laid out by the rules of the configuration, if its
    /// declarations keep the rules for names and documentation; else what
    /// stands in the way.
    pub fn format(&self, content: &str) -> (r: Result<String, String>)
        ensures
            text_result_view(r) == formatted(content@, self.config@),
    {
        if content.unicode_len() == 0 {
            return Ok(content.to_owned());
        }
        let output = self.apply_simple_rules(content)?;
        let tokens = match token_parser(output.as_str()) {
            Ok(tokens) => tokens,
            Err(error) => {
                proof {
                    lemma_position_is_unique(output@, error.span.start as int);
                    assert forall|i: int|
                        starts_at(output@, i, error.span.start as int) implies line_at(output@, i)
                        <= usize::MAX by {
                        lemma_line_fits(output@, i, error.span.start as int);
                    }
                }
                let (line, column) = span_offset_to_line_and_column(
                    error.span.start,
                    output.as_str(),
                );
                let mut message = "token parser error at line ".to_owned();
                push_decimal(&mut message, line);
                message.append(" column ");
                push_decimal(&mut message, column);
                message.append(", reason: integer literal does not fit in 64 bits");
                return Err(message);
            },
        };
        let complex_tokens = complex_token_parser(&tokens);
        match self.check_complex_rules(&complex_tokens) {
            Ok(()) => Ok(output),
            Err(message) => Err(join3(CHANGES_REQUIRED_ERR_MSG, ": ", message.as_str())),
        }
    }
}

/// Text that opens every message about something that the author of the
/// source has to change by hand.
pub const CHANGES_REQUIRED_ERR_MSG: &'static str = "changes required";

/// What the checker remembers from one declaration to the next.
pub struct Tracker {
    pub is_global: bool,
    pub is_inside_nolint: bool,
    pub nesting: usize,
}

impl View for Tracker {
    type V = Scope;

    open spec fn view(&self) -> Scope {
        Scope {
            is_global: self.is_global,
            is_inside_nolint: self.is_inside_nolint,
            nesting: self.nesting as nat,
        }
    }
}

/// A text or a message, as a mathematical value.
pub open spec fn text_result_view(r: Result<String, String>) -> Result<Seq<char>, Seq<char>> {
    match r {
        Ok(text) => Ok(text@),
        Err(message) => Err(message@),
    }
}

/// Line and column of the character of `text` that starts at byte
/// `offset`, or `(0, 0)` where none starts there.
pub open spec fn position(text: Seq<char>, offset: int) -> (nat, nat) {
    if exists|i: int| starts_at(text, i, offset) {
        let i = choose|i: int| starts_at(text, i, offset);
        (line_at(text, i), column_at(text, i))
    } else {
        (0, 0)
    }
}

/// At most one character starts at a given byte.
pub proof fn lemma_position_is_unique(text: Seq<char>, offset: int)
    ensures
        forall|i: int, j: int| starts_at(text, i, offset) && starts_at(text, j, offset) ==> i == j,
{
    assert forall|i: int, j: int| starts_at(text, i, offset) && starts_at(text, j, offset) implies i
        == j by {
        if i < j {
            lemma_byte_offset_increasing(text, i, j);
        } else if j < i {
            lemma_byte_offset_increasing(text, j, i);
        }
    }
}

/// What a text with an integer literal that does not fit is told; `error`
/// says where the literal stands.
pub open spec fn lex_failure(text: Seq<char>, error: LexError) -> Seq<char> {
    let at = position(text, error.span.start as int);
    "token parser error at line "@ + decimal_text(at.0) + " column "@ + decimal_text(at.1)
        + ", reason: integer literal does not fit in 64 bits"@
}

/// What a source whose declarations break a rule is told; `objection` says
/// which rule and how.
pub open spec fn changes_required(objection: Seq<char>) -> Seq<char> {
    CHANGES_REQUIRED_ERR_MSG@ + ": "@ + objection
}

/// What formatting makes of `content` under `cfg`: nothing of an empty
/// text; else the text that the layout pass makes of it, provided that
/// this text has tokens and that its declarations keep the rules.
pub open spec fn formatted(content: Seq<char>, cfg: ConfigModel) -> Result<Seq<char>, Seq<char>> {
    if content.len() == 0 {
        Ok(content)
    } else {
        match layout(content, cfg) {
            Ok(text) => match lex(text) {
                Ok(tokens) => match verdict(declarations(tokens), cfg) {
                    Ok(()) => Ok(text),
                    Err(objection) => Err(changes_required(objection)),
                },
                Err(error) => Err(lex_failure(text, error)),
            },
            Err(message) => Err(message),
        }
    }
}

/// Whether the rules are switched off once the declaration of index `i`
/// has been seen.
pub fn nolint_behind(was: bool, declarations: &Vec<(ComplexToken, Span)>, i: usize) -> (r: bool)
    requires
        i < declarations.len(),
    ensures
        r == nolint_after(was, spanned_declarations(declarations@), i as int),
{
    match &declarations[i].0 {
        ComplexToken::Other(Token::Comment(text)) => {
            if begins_with(text.as_str(), "NOLINTBEGIN") {
                true
            } else if begins_with(text.as_str(), "NOLINTEND") {
                false
            } else {
                was
            }
        },
        _ => was,
    }
}

/// Whether the declaration of index `i` is exempt because the one behind
/// it is a comment that begins with `NOLINT`.
pub fn excused(declarations: &Vec<(ComplexToken, Span)>, i: usize) -> (r: bool)
    requires
        i < declarations.len(),
    ensures
        r == is_excused(spanned_declarations(declarations@), i as int),
{
    if i + 1 < declarations.len() {
        match &declarations[i + 1].0 {
            ComplexToken::Other(Token::Comment(text)) => begins_with(text.as_str(), "NOLINT"),
            _ => false,
        }
    } else {
        false
    }
}

/// The texts that `names` holds.
pub open spec fn texts(names: Seq<String>) -> Seq<Seq<char>> {
    names.map_values(|name: String| name@)
}

/// Index of the first character of `text` from `from` on that is not a
/// space, or the length of `text`.
pub fn after_spaces(text: &Vec<char>, from: usize) -> (at: usize)
    requires
        from <= text.len(),
    ensures
        at == skip_spaces(text@, from as int),
        from <= at <= text.len(),
{
    let mut i: usize = from;
    while i < text.len() && text[i] == ' '
        invariant
            from <= i <= text.len(),
            skip_spaces(text@, i as int) == skip_spaces(text@, from as int),
        decreases text.len() - i,
    {
        i += 1;
    }
    i
}

/// Index of the first space in `text` from `from` on, or the length of
/// `text`.
pub fn up_to_space(text: &Vec<char>, from: usize) -> (at: usize)
    requires
        from <= text.len(),
    ensures
        at == next_space(text@, from as int),
        from <= at <= text.len(),
{
    let mut i: usize = from;
    while i < text.len() && text[i] != ' '
        invariant
            from <= i <= text.len(),
            next_space(text@, i as int) == next_space(text@, from as int),
        decreases text.len() - i,
    {
        i += 1;
    }
    i
}

/// The names that the `@param` tags of `docs` give, in order.
pub fn documented_names(docs: &Vec<char>) -> (names: Vec<String>)
    ensures
        texts(names@) == documented_from(docs@, 0),
{
    proof {
        reveal_strlit("@param ");
    }
    let mut names: Vec<String> = Vec::new();
    let mut pos: usize = 0;
    assert(texts(names@) + documented_from(docs@, 0) =~= documented_from(docs@, 0));
    loop
        invariant
            pos <= docs.len(),
            "@param "@.len() == 7,
            texts(names@) + documented_from(docs@, pos as int) == documented_from(docs@, 0),
        decreases docs.len() - pos,
    {
        let at = search(docs, pos, "@param ");
        if at >= docs.len() {
            assert(texts(names@) + Seq::<Seq<char>>::empty() =~= texts(names@));
            return names;
        }
        let start = after_spaces(docs, at + 7);
        let end = up_to_space(docs, start);
        let name = string_of_range(docs, start, end);
        let ghost before = texts(names@);
        names.push(name);
        proof {
            assert(texts(names@) =~= before.push(name@));
            let rest = documented_from(docs@, at + 1);
            assert(before + (seq![name@] + rest) =~= before.push(name@) + rest);
        }
        pos = at + 1;
    }
}

/// Whether `name` is among `names`.
pub fn is_documented(names: &Vec<String>, name: &str) -> (r: bool)
    ensures
        r == texts(names@).contains(name@),
{
    let mut i: usize = 0;
    while i < names.len()
        invariant
            i <= names.len(),
            forall|j: int| 0 <= j < i ==> texts(names@)[j] != name@,
        decreases names.len() - i,
    {
        if same_text(names[i].as_str(), name) {
            assert(texts(names@)[i as int] == name@);
            return true;
        }
        i += 1;
    }
    false
}

/// Whether one of `args` is called `name`.
pub fn has_arg(args: &Vec<FuncArgument>, name: &str) -> (r: bool)
    ensures
        r == has_argument(argument_models(args@), name@),
{
    let mut i: usize = 0;
    while i < args.len()
        invariant
            i <= args.len(),
            forall|j: int| 0 <= j < i ==> argument_models(args@)[j].name != name@,
        decreases args.len() - i,
    {
        if same_text(args[i].name.as_str(), name) {
            assert(argument_models(args@)[i as int].name == name@);
            return true;
        }
        i += 1;
    }
    false
}

/// Holds `args` to the rule that each that takes no semantic is among
/// `documented`.
pub fn all_documented(args: &Vec<FuncArgument>, documented: &Vec<String>, function: &str) -> (r:
    Result<(), String>)
    ensures
        verdict_view(r) == arguments_documented(
            argument_models(args@),
            texts(documented@),
            function@,
        ),
{
    let ghost all = argument_models(args@);
    let ghost known = texts(documented@);
    let mut i: usize = 0;
    assert(all.take(0) =~= Seq::empty());
    while i < args.len()
        invariant
            i <= args.len(),
            all == argument_models(args@),
            known == texts(documented@),
            arguments_documented(all.take(i as int), known, function@) is Ok,
        decreases args.len() - i,
    {
        proof {
            assert(all.take(i + 1).drop_last() =~= all.take(i as int));
        }
        let info = &args[i];
        if !info.is_using_semantic && !is_documented(documented, info.name.as_str()) {
            proof {
                lemma_arguments_documented_objection(all, known, function@, i + 1);
            }
            return Err(
                join5(
                    "expected to find documentation for the argument \"",
                    info.name.as_str(),
                    "\" of the function \"",
                    function,
                    "\"",
                ),
            );
        }
        i += 1;
    }
    assert(all.take(all.len() as int) =~= all);
    Ok(())
}

/// Holds `documented` to the rule that each is the name of one of `args`.
pub fn all_exist(documented: &Vec<String>, args: &Vec<FuncArgument>, function: &str) -> (r: Result<
    (),
    String,
>)
    ensures
        verdict_view(r) == documented_exist(texts(documented@), argument_models(args@), function@),
{
    let ghost all = argument_models(args@);
    let ghost known = texts(documented@);
    let mut i: usize = 0;
    assert(known.take(0) =~= Seq::empty());
    while i < documented.len()
        invariant
            i <= documented.len(),
            all == argument_models(args@),
            known == texts(documented@),
            documented_exist(known.take(i as int), all, function@) is Ok,
        decreases documented.len() - i,
    {
        proof {
            assert(known.take(i + 1).drop_last() =~= known.take(i as int));
        }
        if !has_arg(args, documented[i].as_str()) {
            proof {
                lemma_documented_exist_objection(known, all, function@, i + 1);
            }
            return Err(
                join5(
                    "found documentation for a non-existing argument \"",
                    documented[i].as_str(),
                    "\" of the function \"",
                    function,
                    "\"",
                ),
            );
        }
        i += 1;
    }
    assert(known.take(known.len() as int) =~= known);
    Ok(())
}

/// Once a field breaks a rule for variables, more fields behind it change
/// nothing.
pub proof fn lemma_field_names_objection(
    fields: Seq<crate::parser::StructFieldModel>,
    cfg: ConfigModel,
    n: int,
)
    requires
        0 <= n <= fields.len(),
        field_names_verdict(fields.take(n), cfg) is Err,
    ensures
        field_names_verdict(fields, cfg) == field_names_verdict(fields.take(n), cfg),
    decreases fields.len() - n,
{
    if n < fields.len() {
        assert(fields.take(n + 1).drop_last() =~= fields.take(n));
        lemma_field_names_objection(fields, cfg, n + 1);
    } else {
        assert(fields.take(n) =~= fields);
    }
}

/// Once an argument breaks a rule for variables, more arguments behind it
/// change nothing.
pub proof fn lemma_argument_names_objection(
    args: Seq<crate::parser::FuncArgumentModel>,
    cfg: ConfigModel,
    n: int,
)
    requires
        0 <= n <= args.len(),
        argument_names_verdict(args.take(n), cfg) is Err,
    ensures
        argument_names_verdict(args, cfg) == argument_names_verdict(args.take(n), cfg),
    decreases args.len() - n,
{
    if n < args.len() {
        assert(args.take(n + 1).drop_last() =~= args.take(n));
        lemma_argument_names_objection(args, cfg, n + 1);
    } else {
        assert(args.take(n) =~= args);
    }
}

/// Once an argument is not documented, more arguments behind it change
/// nothing.
pub proof fn lemma_arguments_documented_objection(
    args: Seq<crate::parser::FuncArgumentModel>,
    documented: Seq<Seq<char>>,
    function: Seq<char>,
    n: int,
)
    requires
        0 <= n <= args.len(),
        arguments_documented(args.take(n), documented, function) is Err,
    ensures
        arguments_documented(args, documented, function) == arguments_documented(
            args.take(n),
            documented,
            function,
        ),
    decreases args.len() - n,
{
    if n < args.len() {
        assert(args.take(n + 1).drop_last() =~= args.take(n));
        lemma_arguments_documented_objection(args, documented, function, n + 1);
    } else {
        assert(args.take(n) =~= args);
    }
}

/// Once a documented name belongs to no argument, more names behind it
/// change nothing.
pub proof fn lemma_documented_exist_objection(
    documented: Seq<Seq<char>>,
    args: Seq<crate::parser::FuncArgumentModel>,
    function: Seq<char>,
    n: int,
)
    requires
        0 <= n <= documented.len(),
        documented_exist(documented.take(n), args, function) is Err,
    ensures
        documented_exist(documented, args, function) == documented_exist(
            documented.take(n),
            args,
            function,
        ),
    decreases documented.len() - n,
{
    if n < documented.len() {
        assert(documented.take(n + 1).drop_last() =~= documented.take(n));
        lemma_documented_exist_objection(documented, args, function, n + 1);
    } else {
        assert(documented.take(n) =~= documented);
    }
}

/// Once a field has no documentation, more fields behind it change
/// nothing.
pub proof fn lemma_field_docs_objection(fields: Seq<crate::parser::StructFieldModel>, n: int)
    requires
        0 <= n <= fields.len(),
        field_docs_verdict(fields.take(n)) is Err,
    ensures
        field_docs_verdict(fields) == field_docs_verdict(fields.take(n)),
    decreases fields.len() - n,
{
    if n < fields.len() {
        assert(fields.take(n + 1).drop_last() =~= fields.take(n));
        lemma_field_docs_objection(fields, n + 1);
    } else {
        assert(fields.take(n) =~= fields);
    }
}

/// Formatting is a function of the text and the rules: two rule sets that
/// are equal as mathematical values make the same of every text.
pub proof fn lemma_formatting_is_determined(content: Seq<char>, first: Config, second: Config)
    requires
        first@ == second@,
    ensures
        formatted(content, first@) == formatted(content, second@),
{
}

/// Formatting twice is formatting once: under rules that end lines in one
/// of the two usual ways, what formatting makes of code without comments
/// and continued lines, and without directives where directives nest, is a
/// text of which it makes that same text again.
pub proof fn lemma_formatting_twice_is_formatting_once(
    content: Seq<char>,
    cfg: ConfigModel,
    text: Seq<char>,
)
    requires
        has_plain_ending(cfg),
        is_plain_source(content, cfg),
        formatted(content, cfg) == Ok::<Seq<char>, Seq<char>>(text),
    ensures
        formatted(text, cfg) == Ok::<Seq<char>, Seq<char>>(text),
{
    if content.len() > 0 {
        lemma_second_pass_changes_nothing(content, cfg);
    }
}

} // verus!
