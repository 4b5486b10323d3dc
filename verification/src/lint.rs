//! What the naming, prefix and documentation rules ask of declarations.
//!
//! Each rule either finds nothing to object to, or gives the sentence that
//! says what has to change.

use vstd::prelude::*;
use crate::config::ConfigModel;
use crate::parser::ComplexTokenModel;
use crate::parser::FuncArgumentModel;
use crate::parser::FunctionInfoModel;
use crate::parser::Span;
use crate::parser::StructFieldModel;
use crate::parser::StructInfoModel;
use crate::parser::TokenModel;
use crate::parser::Type;
use crate::parser::lexer::find;
use crate::parser::lexer::has_at;
use crate::rules::Case;
use vstd::utf8::is_ascii_chars;

verus! {

/// What a rule says of what it looked at.
pub type Verdict = Result<(), Seq<char>>;

/// The first objection among `first` and `second`.
pub open spec fn both(first: Verdict, second: Verdict) -> Verdict {
    if first is Err {
        first
    } else {
        second
    }
}

/// `rule` where `applies`, and no objection elsewhere.
pub open spec fn if_asked(applies: bool, rule: Verdict) -> Verdict {
    if applies {
        rule
    } else {
        Ok(())
    }
}

/// Whether `text` begins with `prefix`.
pub open spec fn starts_with(text: Seq<char>, prefix: Seq<char>) -> bool {
    has_at(text, 0, prefix)
}

/// Whether `pattern` stands somewhere in `text`.
pub open spec fn contains(text: Seq<char>, pattern: Seq<char>) -> bool {
    find(text, 0, pattern) < text.len()
}

/// `name` in the naming convention `case`, as the case converter gives it.
pub uninterp spec fn converted_case(name: Seq<char>, case: Case) -> Seq<char>;

/// What a name in another case than its rule asks for is told.
pub open spec fn wrong_case(name: Seq<char>, correct: Seq<char>) -> Seq<char> {
    "\""@ + name + "\" has incorrect case, the correct case is \""@ + correct + "\""@
}

/// The rule that `name` is written in the naming convention `case`: the
/// case converter leaves it as it is.
pub open spec fn name_case_verdict(name: Seq<char>, case: Case) -> Verdict {
    if name == converted_case(name, case) {
        Ok(())
    } else {
        Err(wrong_case(name, converted_case(name, case)))
    }
}

/// The rule that `name` is written in the naming convention of `rule`, if
/// there is one.
pub open spec fn case_rule_verdict(name: Seq<char>, rule: Option<Case>) -> Verdict {
    match rule {
        Some(case) => name_case_verdict(name, case),
        None => Ok(()),
    }
}

/// What a variable without the prefix of its type is told.
pub open spec fn wrong_prefix(name: Seq<char>, prefix: Seq<char>) -> Seq<char> {
    "variable \""@ + name + "\" has incorrect prefix, the correct prefix is \""@ + prefix + "\""@
}

/// The rule that `name` begins with `prefix`.
pub open spec fn prefix_verdict(name: Seq<char>, prefix: Seq<char>) -> Verdict {
    if starts_with(name, prefix) {
        Ok(())
    } else {
        Err(wrong_prefix(name, prefix))
    }
}

/// The rule that `name` begins with the prefix of `rule`, if there is one
/// and the variable is of the type that it is for.
pub open spec fn type_prefix_verdict(name: Seq<char>, is_for: bool, rule: Option<Seq<char>>) -> Verdict {
    match rule {
        Some(prefix) => if_asked(is_for, prefix_verdict(name, prefix)),
        None => Ok(()),
    }
}

/// The rules for a variable in a scope of its own: the naming convention,
/// then the prefix of its type.
pub open spec fn local_name_verdict(name: Seq<char>, t: Type, cfg: ConfigModel) -> Verdict {
    both(
        case_rule_verdict(name, cfg.variable_case),
        both(
            type_prefix_verdict(name, t == Type::Bool, cfg.bool_prefix),
            both(
                type_prefix_verdict(name, t == Type::Integer, cfg.int_prefix),
                type_prefix_verdict(name, t == Type::Float, cfg.float_prefix),
            ),
        ),
    )
}

/// What a global variable without the prefix for global variables is told.
pub open spec fn wrong_global_prefix(name: Seq<char>, prefix: Seq<char>) -> Seq<char> {
    "\""@ + name
        + "\" has incorrect prefix because it's a global variable, the correct name is probably \""@
        + prefix + name + "\""@
}

/// What a global variable is told when neither its name nor the prefix for
/// global variables is plain ASCII.
pub open spec fn not_ascii_name(name: Seq<char>, prefix: Seq<char>) -> Seq<char> {
    "expected global prefix rule \""@ + prefix + "\" and \""@ + name
        + "\" to have an ASCII-only name"@
}

/// The rules for the variable `name` of type `t`. Where there is a prefix
/// for global variables and the variable is global, its name begins with
/// that prefix, and the other rules look at what follows the prefix.
pub open spec fn variable_verdict(name: Seq<char>, t: Type, is_global: bool, cfg: ConfigModel) -> Verdict {
    match cfg.global_variable_prefix {
        Some(prefix) => {
            if !is_global {
                local_name_verdict(name, t, cfg)
            } else if !starts_with(name, prefix) {
                Err(wrong_global_prefix(name, prefix))
            } else if !is_ascii_chars(name) && !is_ascii_chars(prefix) {
                Err(not_ascii_name(name, prefix))
            } else {
                local_name_verdict(name.skip(prefix.len() as int), t, cfg)
            }
        },
        None => local_name_verdict(name, t, cfg),
    }
}

/// What a struct without documentation is told.
pub open spec fn no_struct_docs(name: Seq<char>) -> Seq<char> {
    "expected to find documentation for the struct \""@ + name + "\""@
}

/// The rule that a struct is documented.
pub open spec fn struct_docs_verdict(info: StructInfoModel) -> Verdict {
    if info.docs.len() == 0 {
        Err(no_struct_docs(info.name))
    } else {
        Ok(())
    }
}

/// What a field without documentation is told.
pub open spec fn no_field_docs(name: Seq<char>) -> Seq<char> {
    "expected to find documentation for the struct field \""@ + name + "\""@
}

/// The rule that every field is documented; the first that is not is the
/// one that is named.
pub open spec fn field_docs_verdict(fields: Seq<StructFieldModel>) -> Verdict
    decreases fields.len(),
{
    if fields.len() == 0 {
        Ok(())
    } else {
        both(
            field_docs_verdict(fields.drop_last()),
            if fields.last().docs.len() == 0 {
                Err(no_field_docs(fields.last().name))
            } else {
                Ok(())
            },
        )
    }
}

/// The rules for variables on every field, in order.
pub open spec fn field_names_verdict(fields: Seq<StructFieldModel>, cfg: ConfigModel) -> Verdict
    decreases fields.len(),
{
    if fields.len() == 0 {
        Ok(())
    } else {
        both(
            field_names_verdict(fields.drop_last(), cfg),
            variable_verdict(fields.last().name, fields.last()._type, false, cfg),
        )
    }
}

/// The rules for a struct: its documentation, the case of its name, the
/// names of its fields, the documentation of its fields.
pub open spec fn struct_verdict(info: StructInfoModel, cfg: ConfigModel) -> Verdict {
    both(
        if_asked(cfg.require_docs_on_structs, struct_docs_verdict(info)),
        both(
            case_rule_verdict(info.name, cfg.struct_case),
            both(
                field_names_verdict(info.fields, cfg),
                if_asked(cfg.require_docs_on_fields, field_docs_verdict(info.fields)),
            ),
        ),
    )
}

/// Index of the first character of `text` from `from` on that is not a
/// space, or the length of `text`.
pub open spec fn skip_spaces(text: Seq<char>, from: int) -> int
    decreases text.len() - from,
{
    if 0 <= from < text.len() && text[from] == ' ' {
        skip_spaces(text, from + 1)
    } else {
        from
    }
}

/// Index of the first space in `text` from `from` on, or the length of
/// `text`.
pub open spec fn next_space(text: Seq<char>, from: int) -> int
    decreases text.len() - from,
{
    if 0 <= from < text.len() && text[from] != ' ' {
        next_space(text, from + 1)
    } else {
        from
    }
}

/// The tag that introduces the documentation of an argument.
pub open spec fn param_tag() -> Seq<char> {
    "@param "@
}

/// The names that the `@param` tags of `docs` from `from` on give, in
/// order: each is what stands behind the tag and the spaces after it, up
/// to the next space.
pub open spec fn documented_from(docs: Seq<char>, from: int) -> Seq<Seq<char>>
    decreases docs.len() - from,
{
    let at = find(docs, from, param_tag());
    if 0 <= from <= at < docs.len() {
        let start = skip_spaces(docs, at + 7);
        seq![docs.subrange(start, next_space(docs, start))] + documented_from(docs, at + 1)
    } else {
        Seq::empty()
    }
}

/// Whether one of `args` is called `name`.
pub open spec fn has_argument(args: Seq<FuncArgumentModel>, name: Seq<char>) -> bool {
    exists|i: int| 0 <= i < args.len() && #[trigger] args[i].name == name
}

/// What an argument without documentation is told.
pub open spec fn no_argument_docs(argument: Seq<char>, function: Seq<char>) -> Seq<char> {
    "expected to find documentation for the argument \""@ + argument + "\" of the function \""@
        + function + "\""@
}

/// What documentation for an argument that does not exist is told.
pub open spec fn stray_argument_docs(argument: Seq<char>, function: Seq<char>) -> Seq<char> {
    "found documentation for a non-existing argument \""@ + argument + "\" of the function \""@
        + function + "\""@
}

/// The rule that every argument that takes no semantic is among
/// `documented`; the first that is not is the one that is named.
pub open spec fn arguments_documented(
    args: Seq<FuncArgumentModel>,
    documented: Seq<Seq<char>>,
    function: Seq<char>,
) -> Verdict
    decreases args.len(),
{
    if args.len() == 0 {
        Ok(())
    } else {
        both(
            arguments_documented(args.drop_last(), documented, function),
            if args.last().is_using_semantic || documented.contains(args.last().name) {
                Ok(())
            } else {
                Err(no_argument_docs(args.last().name, function))
            },
        )
    }
}

/// The rule that every name among `documented` is the name of one of
/// `args`; the first that is not is the one that is named.
pub open spec fn documented_exist(
    documented: Seq<Seq<char>>,
    args: Seq<FuncArgumentModel>,
    function: Seq<char>,
) -> Verdict
    decreases documented.len(),
{
    if documented.len() == 0 {
        Ok(())
    } else {
        both(
            documented_exist(documented.drop_last(), args, function),
            if has_argument(args, documented.last()) {
                Ok(())
            } else {
                Err(stray_argument_docs(documented.last(), function))
            },
        )
    }
}

/// What a function without documentation is told.
pub open spec fn no_function_docs(name: Seq<char>) -> Seq<char> {
    "expected to find documentation for the function \""@ + name + "\""@
}

/// What a function whose documentation is not plain ASCII is told.
pub open spec fn not_ascii_docs(name: Seq<char>) -> Seq<char> {
    "expected the documentation for the function \""@ + name
        + "\" to only use ASCII characters"@
}

/// What a function that returns a value and does not document it is told.
pub open spec fn no_return_docs(name: Seq<char>) -> Seq<char> {
    "expected to find documentation of the return value for the function \""@ + name + "\""@
}

/// What a function that returns nothing and documents a value is told.
pub open spec fn void_return_docs(name: Seq<char>) -> Seq<char> {
    "found documentation of the VOID return value for the function \""@ + name + "\""@
}

/// The rule on the `@return` tag: it is there if and only if the function
/// returns a value.
pub open spec fn return_docs_verdict(info: FunctionInfoModel) -> Verdict {
    let tagged = contains(info.docs, "@return"@);
    if info.return_type != Type::Void && !tagged {
        Err(no_return_docs(info.name))
    } else if info.return_type == Type::Void && tagged {
        Err(void_return_docs(info.name))
    } else {
        Ok(())
    }
}

/// The rules for the documentation of a function: there is some, it is
/// plain ASCII, it has `@return` if and only if the function returns a
/// value, and its `@param` tags name the arguments, all that take no
/// semantic and nothing else.
pub open spec fn function_docs_verdict(info: FunctionInfoModel) -> Verdict {
    if info.docs.len() == 0 {
        Err(no_function_docs(info.name))
    } else if !is_ascii_chars(info.docs) {
        Err(not_ascii_docs(info.name))
    } else {
        let documented = documented_from(info.docs, 0);
        both(
            return_docs_verdict(info),
            both(
                arguments_documented(info.args, documented, info.name),
                documented_exist(documented, info.args, info.name),
            ),
        )
    }
}

/// The rules for variables on every argument, in order.
pub open spec fn argument_names_verdict(args: Seq<FuncArgumentModel>, cfg: ConfigModel) -> Verdict
    decreases args.len(),
{
    if args.len() == 0 {
        Ok(())
    } else {
        both(
            argument_names_verdict(args.drop_last(), cfg),
            variable_verdict(args.last().name, args.last()._type, false, cfg),
        )
    }
}

/// The rules for a function: its documentation, the case of its name, the
/// names of its arguments.
pub open spec fn function_verdict(info: FunctionInfoModel, cfg: ConfigModel) -> Verdict {
    both(
        if_asked(cfg.require_docs_on_functions, function_docs_verdict(info)),
        both(case_rule_verdict(info.name, cfg.function_case), argument_names_verdict(info.args, cfg)),
    )
}

/// What the checker remembers from one declaration to the next.
pub struct Scope {
    /// Nothing is open: a variable here is global.
    pub is_global: bool,
    /// A marker has switched the rules off.
    pub is_inside_nolint: bool,
    /// Number of braces that are open behind the head of a function.
    pub nesting: nat,
}

/// The declarations that the checker goes through.
pub type Declarations = Seq<(ComplexTokenModel, Span)>;

/// The text of the comment that the declaration of index `i` is, if it is
/// one.
pub open spec fn lone_comment(declarations: Declarations, i: int) -> Option<Seq<char>> {
    if 0 <= i < declarations.len() {
        match declarations[i].0 {
            ComplexTokenModel::Other(TokenModel::Comment(text)) => Some(text),
            _ => None,
        }
    } else {
        None
    }
}

/// Whether the rules are switched off once the declaration of index `i`
/// has been seen: a comment that begins with `NOLINTBEGIN` switches them
/// off, one that begins with `NOLINTEND` switches them on.
pub open spec fn nolint_after(was: bool, declarations: Declarations, i: int) -> bool {
    match lone_comment(declarations, i) {
        Some(text) => {
            if starts_with(text, "NOLINTBEGIN"@) {
                true
            } else if starts_with(text, "NOLINTEND"@) {
                false
            } else {
                was
            }
        },
        None => was,
    }
}

/// Whether the declaration of index `i` is exempt because the one behind
/// it is a comment that begins with `NOLINT`.
pub open spec fn is_excused(declarations: Declarations, i: int) -> bool {
    match lone_comment(declarations, i + 1) {
        Some(text) => starts_with(text, "NOLINT"@),
        None => false,
    }
}

/// What a closing brace that closes nothing is told.
pub open spec fn stray_brace() -> Seq<char> {
    "found '}' but scope nesting counter is already zero"@
}

/// What a source that leaves the rules switched off is told.
pub open spec fn unmatched_nolint() -> Seq<char> {
    "`NOLINTBEGIN` was found but no matching `NOLINTEND` detected"@
}

/// The scope behind a token that belongs to no declaration: outside the
/// global scope braces are counted, and the brace that closes the last
/// open one leads back to the global scope.
pub open spec fn scope_after_token(scope: Scope, token: TokenModel) -> Result<Scope, Seq<char>> {
    if scope.is_global {
        Ok(scope)
    } else if token == TokenModel::Ctrl('{') {
        Ok(Scope { nesting: scope.nesting + 1, ..scope })
    } else if token == TokenModel::Ctrl('}') {
        if scope.nesting == 0 {
            Err(stray_brace())
        } else {
            Ok(
                Scope {
                    nesting: (scope.nesting - 1) as nat,
                    is_global: scope.nesting == 1,
                    ..scope
                },
            )
        }
    } else {
        Ok(scope)
    }
}

/// The scope behind the declaration `declaration`, which is held to the
/// rules, or the first objection to it.
pub open spec fn scope_after(scope: Scope, declaration: ComplexTokenModel, cfg: ConfigModel) -> Result<
    Scope,
    Seq<char>,
> {
    match declaration {
        ComplexTokenModel::VariableDeclaration(t, name) => match variable_verdict(
            name,
            t,
            scope.is_global,
            cfg,
        ) {
            Ok(()) => Ok(scope),
            Err(e) => Err(e),
        },
        ComplexTokenModel::Struct(info) => match struct_verdict(info, cfg) {
            Ok(()) => Ok(Scope { is_global: true, ..scope }),
            Err(e) => Err(e),
        },
        ComplexTokenModel::Function(info) => match function_verdict(info, cfg) {
            Ok(()) => Ok(Scope { is_global: false, nesting: 0, ..scope }),
            Err(e) => Err(e),
        },
        ComplexTokenModel::Other(token) => scope_after_token(scope, token),
    }
}

/// The verdict on the declarations from index `i` on, when `scope` is what
/// is known of those before.
pub open spec fn verdict_from(scope: Scope, declarations: Declarations, i: int, cfg: ConfigModel) -> Verdict
    decreases declarations.len() - i,
{
    if i < 0 || i >= declarations.len() {
        if scope.is_inside_nolint {
            Err(unmatched_nolint())
        } else {
            Ok(())
        }
    } else {
        let is_inside_nolint = nolint_after(scope.is_inside_nolint, declarations, i);
        let scope = Scope { is_inside_nolint, ..scope };
        if is_inside_nolint || is_excused(declarations, i) {
            verdict_from(scope, declarations, i + 1, cfg)
        } else {
            match scope_after(scope, declarations[i].0, cfg) {
                Ok(next) => verdict_from(next, declarations, i + 1, cfg),
                Err(e) => Err(e),
            }
        }
    }
}

/// The verdict on `declarations`: the first objection that a rule of `cfg`
/// has to one of them, going through them in order.
pub open spec fn verdict(declarations: Declarations, cfg: ConfigModel) -> Verdict {
    verdict_from(
        Scope { is_global: true, is_inside_nolint: false, nesting: 0 },
        declarations,
        0,
        cfg,
    )
}

/// A name that the case converter leaves as it is keeps the rule for its
/// case.
pub proof fn lemma_name_in_case_is_accepted(name: Seq<char>, case: Case)
    requires
        name == converted_case(name, case),
    ensures
        name_case_verdict(name, case) is Ok,
{
}

/// A name that the case converter changes breaks the rule for its case,
/// and is told what the converter made of it.
pub proof fn lemma_name_out_of_case_is_corrected(name: Seq<char>, case: Case)
    requires
        name != converted_case(name, case),
    ensures
        name_case_verdict(name, case) == Err::<(), Seq<char>>(
            wrong_case(name, converted_case(name, case)),
        ),
{
}

/// Where the case converter leaves alone what it made of `name`, the name
/// that a broken rule suggests keeps the rule.
pub proof fn lemma_settled_correction_is_accepted(name: Seq<char>, case: Case)
    requires
        converted_case(converted_case(name, case), case) == converted_case(name, case),
    ensures
        name_case_verdict(converted_case(name, case), case) is Ok,
{
}

/// A function that returns a value and has no `@return` tag in its
/// documentation breaks the rules for documentation, and so the rules for
/// functions where documentation is asked for.
pub proof fn lemma_missing_return_tag_is_rejected(info: FunctionInfoModel, cfg: ConfigModel)
    requires
        info.return_type != Type::Void,
        !contains(info.docs, "@return"@),
    ensures
        function_docs_verdict(info) is Err,
        cfg.require_docs_on_functions ==> function_verdict(info, cfg) is Err,
{
}

/// A function that returns a value and has a `@return` tag in its
/// documentation keeps the rules for documentation if that documentation
/// is plain ASCII and its `@param` tags name the arguments, all that take
/// no semantic and nothing else.
pub proof fn lemma_return_tag_is_accepted(info: FunctionInfoModel)
    requires
        info.return_type != Type::Void,
        contains(info.docs, "@return"@),
        is_ascii_chars(info.docs),
        arguments_documented(info.args, documented_from(info.docs, 0), info.name) is Ok,
        documented_exist(documented_from(info.docs, 0), info.args, info.name) is Ok,
    ensures
        function_docs_verdict(info) is Ok,
{
    assert(info.docs.len() > 0);
}

} // verus!
