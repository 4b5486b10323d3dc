//! The rule set that drives formatting and linting.

use vstd::prelude::*;
use crate::rules::Case;
use crate::rules::IndentationRule;
use crate::rules::NewLineOnOpenBrace;
use crate::text::join3;
use crate::text::join5;
use crate::text::same_text;

verus! {

/// Every rule the formatter knows, with the choice made for each.
#[derive(Clone, Debug)]
pub struct Config {
    pub new_line_around_braces: NewLineOnOpenBrace,
    pub indentation: IndentationRule,
    pub max_empty_lines: usize,
    pub spaces_in_brackets: bool,
    pub variable_case: Option<Case>,
    pub function_case: Option<Case>,
    pub struct_case: Option<Case>,
    pub bool_prefix: Option<String>,
    pub int_prefix: Option<String>,
    pub float_prefix: Option<String>,
    pub global_variable_prefix: Option<String>,
    pub force_line_ending: Option<String>,
    pub require_docs_on_functions: bool,
    pub require_docs_on_structs: bool,
    pub require_docs_on_fields: bool,
    pub indent_preprocessor: bool,
    pub preprocessor_if_creates_nesting: bool,
}

/// A [`Config`] as a mathematical value.
pub struct ConfigModel {
    pub new_line_around_braces: NewLineOnOpenBrace,
    pub indentation: IndentationRule,
    pub max_empty_lines: usize,
    pub spaces_in_brackets: bool,
    pub variable_case: Option<Case>,
    pub function_case: Option<Case>,
    pub struct_case: Option<Case>,
    pub bool_prefix: Option<Seq<char>>,
    pub int_prefix: Option<Seq<char>>,
    pub float_prefix: Option<Seq<char>>,
    pub global_variable_prefix: Option<Seq<char>>,
    pub force_line_ending: Option<Seq<char>>,
    pub require_docs_on_functions: bool,
    pub require_docs_on_structs: bool,
    pub require_docs_on_fields: bool,
    pub indent_preprocessor: bool,
    pub preprocessor_if_creates_nesting: bool,
}

/// The text that `s` holds, if it holds one.
pub open spec fn text_view(s: Option<String>) -> Option<Seq<char>> {
    match s {
        Some(text) => Some(text@),
        None => None,
    }
}

impl View for Config {
    type V = ConfigModel;

    open spec fn view(&self) -> ConfigModel {
        ConfigModel {
            new_line_around_braces: self.new_line_around_braces,
            indentation: self.indentation,
            max_empty_lines: self.max_empty_lines,
            spaces_in_brackets: self.spaces_in_brackets,
            variable_case: self.variable_case,
            function_case: self.function_case,
            struct_case: self.struct_case,
            bool_prefix: text_view(self.bool_prefix),
            int_prefix: text_view(self.int_prefix),
            float_prefix: text_view(self.float_prefix),
            global_variable_prefix: text_view(self.global_variable_prefix),
            force_line_ending: text_view(self.force_line_ending),
            require_docs_on_functions: self.require_docs_on_functions,
            require_docs_on_structs: self.require_docs_on_structs,
            require_docs_on_fields: self.require_docs_on_fields,
            indent_preprocessor: self.indent_preprocessor,
            preprocessor_if_creates_nesting: self.preprocessor_if_creates_nesting,
        }
    }
}

/// The built-in rule set: four-space indentation, braces followed by a line
/// break, one blank line at most, and every optional rule switched off.
pub open spec fn default_rules() -> ConfigModel {
    ConfigModel {
        new_line_around_braces: NewLineOnOpenBrace::After,
        indentation: IndentationRule::FourSpaces,
        max_empty_lines: 1,
        spaces_in_brackets: false,
        variable_case: None,
        function_case: None,
        struct_case: None,
        bool_prefix: None,
        int_prefix: None,
        float_prefix: None,
        global_variable_prefix: None,
        force_line_ending: None,
        require_docs_on_functions: false,
        require_docs_on_structs: false,
        require_docs_on_fields: false,
        indent_preprocessor: false,
        preprocessor_if_creates_nesting: false,
    }
}

/// The value of one rule as a rules file gives it.
#[derive(Clone, Debug, PartialEq, Eq)]
pub enum RuleValue {
    Text(String),
    Integer(i64),
    Float,
    Boolean(bool),
    Datetime,
    Array,
    Table,
}

/// A [`RuleValue`] as a mathematical value.
pub enum RuleValueModel {
    Text(Seq<char>),
    Integer(i64),
    Float,
    Boolean(bool),
    Datetime,
    Array,
    Table,
}

impl View for RuleValue {
    type V = RuleValueModel;

    open spec fn view(&self) -> RuleValueModel {
        match self {
            RuleValue::Text(text) => RuleValueModel::Text(text@),
            RuleValue::Integer(i) => RuleValueModel::Integer(*i),
            RuleValue::Float => RuleValueModel::Float,
            RuleValue::Boolean(b) => RuleValueModel::Boolean(*b),
            RuleValue::Datetime => RuleValueModel::Datetime,
            RuleValue::Array => RuleValueModel::Array,
            RuleValue::Table => RuleValueModel::Table,
        }
    }
}

/// The rules of a rules file, by name, in the order in which they are
/// read.
pub type Rules = Seq<(Seq<char>, RuleValueModel)>;

/// The rules `rules` as mathematical values.
pub open spec fn rule_models(rules: Seq<(String, RuleValue)>) -> Rules {
    rules.map_values(|r: (String, RuleValue)| (r.0@, r.1@))
}

/// What a rule with a name that is not known is told.
pub open spec fn unknown_rule(key: Seq<char>) -> Seq<char> {
    "found unknown rule \""@ + key + "\""@
}

/// What a rule with a text that is none of its choices is told.
pub open spec fn unknown_value(key: Seq<char>, value: Seq<char>) -> Seq<char> {
    "found unknown value \""@ + value + "\" for rule \""@ + key + "\""@
}

/// What a rule with a value of another kind than it takes is told;
/// `kind` is the end of the sentence, which names the kind.
pub open spec fn expected_kind(key: Seq<char>, kind: Seq<char>) -> Seq<char> {
    "expected value for key \""@ + key + kind
}

/// The text that the rule `key` is given.
pub open spec fn rule_text(key: Seq<char>, value: RuleValueModel) -> Result<Seq<char>, Seq<char>> {
    match value {
        RuleValueModel::Text(text) => Ok(text),
        _ => Err(expected_kind(key, "\" to be a string"@)),
    }
}

/// The naming convention that the rule `key` is given.
pub open spec fn rule_case(key: Seq<char>, value: RuleValueModel) -> Result<Case, Seq<char>> {
    match rule_text(key, value) {
        Ok(text) => if text == "Camel"@ {
            Ok(Case::Camel)
        } else if text == "Pascal"@ {
            Ok(Case::Pascal)
        } else if text == "Snake"@ {
            Ok(Case::Snake)
        } else if text == "UpperSnake"@ {
            Ok(Case::UpperSnake)
        } else {
            Err(unknown_value(key, text))
        },
        Err(e) => Err(e),
    }
}

/// The count that the rule `key` is given. A count that the machine cannot
/// hold stands for the largest that it can.
pub open spec fn rule_count(key: Seq<char>, value: RuleValueModel) -> Result<usize, Seq<char>> {
    match value {
        RuleValueModel::Integer(i) => if i < 0 {
            Err(expected_kind(key, "\" to be an unsigned integer"@))
        } else if i > usize::MAX {
            Ok(usize::MAX)
        } else {
            Ok(i as usize)
        },
        _ => Err(expected_kind(key, "\" to be an integer"@)),
    }
}

/// The switch that the rule `key` is given.
pub open spec fn rule_flag(key: Seq<char>, value: RuleValueModel) -> Result<bool, Seq<char>> {
    match value {
        RuleValueModel::Boolean(b) => Ok(b),
        _ => Err(expected_kind(key, "\" to be a boolean"@)),
    }
}

/// The indentation that the rule `key` is given.
pub open spec fn rule_indentation(key: Seq<char>, value: RuleValueModel) -> Result<
    IndentationRule,
    Seq<char>,
> {
    match rule_text(key, value) {
        Ok(text) => if text == "Tab"@ {
            Ok(IndentationRule::Tab)
        } else if text == "TwoSpaces"@ {
            Ok(IndentationRule::TwoSpaces)
        } else if text == "FourSpaces"@ {
            Ok(IndentationRule::FourSpaces)
        } else {
            Err(unknown_value(key, text))
        },
        Err(e) => Err(e),
    }
}

/// The brace placement that the rule `key` is given.
pub open spec fn rule_brace(key: Seq<char>, value: RuleValueModel) -> Result<
    NewLineOnOpenBrace,
    Seq<char>,
> {
    match rule_text(key, value) {
        Ok(text) => if text == "After"@ {
            Ok(NewLineOnOpenBrace::After)
        } else if text == "Before"@ {
            Ok(NewLineOnOpenBrace::Before)
        } else {
            Err(unknown_value(key, text))
        },
        Err(e) => Err(e),
    }
}

/// The rule set `cfg` with the rule `key` set to `value`, or the reason why
/// that rule cannot be set so.
pub open spec fn with_rule(cfg: ConfigModel, key: Seq<char>, value: RuleValueModel) -> Result<
    ConfigModel,
    Seq<char>,
> {
    if key == "Indentation"@ {
        match rule_indentation(key, value) {
            Ok(v) => Ok(ConfigModel { indentation: v, ..cfg }),
            Err(e) => Err(e),
        }
    } else if key == "VariableCase"@ {
        match rule_case(key, value) {
            Ok(v) => Ok(ConfigModel { variable_case: Some(v), ..cfg }),
            Err(e) => Err(e),
        }
    } else if key == "FunctionCase"@ {
        match rule_case(key, value) {
            Ok(v) => Ok(ConfigModel { function_case: Some(v), ..cfg }),
            Err(e) => Err(e),
        }
    } else if key == "StructCase"@ {
        match rule_case(key, value) {
            Ok(v) => Ok(ConfigModel { struct_case: Some(v), ..cfg }),
            Err(e) => Err(e),
        }
    } else if key == "NewLineOnOpenBrace"@ {
        match rule_brace(key, value) {
            Ok(v) => Ok(ConfigModel { new_line_around_braces: v, ..cfg }),
            Err(e) => Err(e),
        }
    } else if key == "MaxEmptyLines"@ {
        match rule_count(key, value) {
            Ok(v) => Ok(ConfigModel { max_empty_lines: v, ..cfg }),
            Err(e) => Err(e),
        }
    } else if key == "SpacesInBrackets"@ {
        match rule_flag(key, value) {
            Ok(v) => Ok(ConfigModel { spaces_in_brackets: v, ..cfg }),
            Err(e) => Err(e),
        }
    } else if key == "BoolPrefix"@ {
        match rule_text(key, value) {
            Ok(v) => Ok(ConfigModel { bool_prefix: Some(v), ..cfg }),
            Err(e) => Err(e),
        }
    } else if key == "IntPrefix"@ {
        match rule_text(key, value) {
            Ok(v) => Ok(ConfigModel { int_prefix: Some(v), ..cfg }),
            Err(e) => Err(e),
        }
    } else if key == "FloatPrefix"@ {
        match rule_text(key, value) {
            Ok(v) => Ok(ConfigModel { float_prefix: Some(v), ..cfg }),
            Err(e) => Err(e),
        }
    } else if key == "GlobalVariablePrefix"@ {
        match rule_text(key, value) {
            Ok(v) => Ok(ConfigModel { global_variable_prefix: Some(v), ..cfg }),
            Err(e) => Err(e),
        }
    } else if key == "ForceLineEnding"@ {
        match rule_text(key, value) {
            Ok(v) => Ok(ConfigModel { force_line_ending: Some(v), ..cfg }),
            Err(e) => Err(e),
        }
    } else if key == "RequireDocsOnFunctions"@ {
        match rule_flag(key, value) {
            Ok(v) => Ok(ConfigModel { require_docs_on_functions: v, ..cfg }),
            Err(e) => Err(e),
        }
    } else if key == "RequireDocsOnStructs"@ {
        match rule_flag(key, value) {
            Ok(v) => Ok(ConfigModel { require_docs_on_structs: v, ..cfg }),
            Err(e) => Err(e),
        }
    } else if key == "RequireDocsOnFields"@ {
        match rule_flag(key, value) {
            Ok(v) => Ok(ConfigModel { require_docs_on_fields: v, ..cfg }),
            Err(e) => Err(e),
        }
    } else if key == "IndentPreprocessor"@ {
        match rule_flag(key, value) {
            Ok(v) => Ok(ConfigModel { indent_preprocessor: v, ..cfg }),
            Err(e) => Err(e),
        }
    } else if key == "PreprocessorIfCreatesNesting"@ {
        match rule_flag(key, value) {
            Ok(v) => Ok(ConfigModel { preprocessor_if_creates_nesting: v, ..cfg }),
            Err(e) => Err(e),
        }
    } else {
        Err(unknown_rule(key))
    }
}

/// The rule set `cfg` with the rules `rules` set one after the other, or
/// the reason why the first of them that cannot be set cannot.
pub open spec fn with_rules(cfg: ConfigModel, rules: Rules) -> Result<ConfigModel, Seq<char>>
    decreases rules.len(),
{
    if rules.len() == 0 {
        Ok(cfg)
    } else {
        match with_rules(cfg, rules.drop_last()) {
            Ok(before) => with_rule(before, rules.last().0, rules.last().1),
            Err(e) => Err(e),
        }
    }
}

/// The outcome of reading rules as a mathematical value.
pub open spec fn loaded_view(r: Result<Config, String>) -> Result<ConfigModel, Seq<char>> {
    match r {
        Ok(cfg) => Ok(cfg@),
        Err(e) => Err(e@),
    }
}

impl Config {
    /// Whether this is the built-in rule set: four-space indentation, braces
    /// followed by a line break, one blank line at most, and every optional
    /// rule switched off.
    pub open spec fn is_default(&self) -> bool {
        &&& self.new_line_around_braces == NewLineOnOpenBrace::After
        &&& self.indentation == IndentationRule::FourSpaces
        &&& self.max_empty_lines == 1
        &&& !self.spaces_in_brackets
        &&& self.variable_case is None
        &&& self.function_case is None
        &&& self.struct_case is None
        &&& self.bool_prefix is None
        &&& self.int_prefix is None
        &&& self.float_prefix is None
        &&& self.global_variable_prefix is None
        &&& self.force_line_ending is None
        &&& !self.require_docs_on_functions
        &&& !self.require_docs_on_structs
        &&& !self.require_docs_on_fields
        &&& !self.indent_preprocessor
        &&& !self.preprocessor_if_creates_nesting
    }
}

/// The parsed rules that the text of a rules file holds, or what the TOML
/// parser says of a text that it turns down.
pub uninterp spec fn toml_table(text: Seq<char>) -> Result<Rules, Seq<char>>;

/// The outcome of parsing as a mathematical value.
pub open spec fn parsed_view(r: Result<Vec<(String, RuleValue)>, String>) -> Result<
    Rules,
    Seq<char>,
> {
    match r {
        Ok(rules) => Ok(rule_models(rules@)),
        Err(e) => Err(e@),
    }
}

/// `str::parse` to a `toml::Table`: the entries of the table that `text`
/// spells, in the order in which the table hands them out, each value by
/// its kind and, where it is a string, an integer or a boolean, with what
/// it holds; or the parser's message. Both depend on `text` alone.
#[verifier::external_body]
fn parse_rules(text: &str) -> (r: Result<Vec<(String, RuleValue)>, String>)
    ensures
        parsed_view(r) == toml_table(text@),
{
    match text.parse::<toml::Table>() {
        Ok(table) => Ok(table.into_iter().map(|(key, value)| (key, match value {
            toml::Value::String(text) => RuleValue::Text(text),
            toml::Value::Integer(i) => RuleValue::Integer(i),
            toml::Value::Float(_) => RuleValue::Float,
            toml::Value::Boolean(b) => RuleValue::Boolean(b),
            toml::Value::Datetime(_) => RuleValue::Datetime,
            toml::Value::Array(_) => RuleValue::Array,
            toml::Value::Table(_) => RuleValue::Table,
        })).collect()),
        Err(e) => Err(e.to_string()),
    }
}

/// What a rules file that is no TOML is told.
pub open spec fn parse_failure(path: Seq<char>, error: Seq<char>) -> Seq<char> {
    "failed to parse config file at "@ + path + ", error: "@ + error
}

/// The rule set that a rules file at `path` gives when parsing its text
/// gave `parsed`.
pub open spec fn loaded(path: Seq<char>, parsed: Result<Rules, Seq<char>>) -> Result<
    ConfigModel,
    Seq<char>,
> {
    match parsed {
        Ok(rules) => with_rules(default_rules(), rules),
        Err(error) => Err(parse_failure(path, error)),
    }
}

/// The text that the rule `key` is given.
pub fn text_of<'a>(key: &str, value: &'a RuleValue) -> (r: Result<&'a str, String>)
    ensures
        match r {
            Ok(text) => rule_text(key@, value@) == Ok::<Seq<char>, Seq<char>>(text@),
            Err(e) => rule_text(key@, value@) == Err::<Seq<char>, Seq<char>>(e@),
        },
{
    match value {
        RuleValue::Text(text) => Ok(text.as_str()),
        _ => Err(join3("expected value for key \"", key, "\" to be a string")),
    }
}

/// The naming convention that the rule `key` is given.
pub fn case_of(key: &str, value: &RuleValue) -> (r: Result<Case, String>)
    ensures
        match r {
            Ok(case) => rule_case(key@, value@) == Ok::<Case, Seq<char>>(case),
            Err(e) => rule_case(key@, value@) == Err::<Case, Seq<char>>(e@),
        },
{
    match text_of(key, value) {
        Ok(text) => {
            if same_text(text, "Camel") {
                Ok(Case::Camel)
            } else if same_text(text, "Pascal") {
                Ok(Case::Pascal)
            } else if same_text(text, "Snake") {
                Ok(Case::Snake)
            } else if same_text(text, "UpperSnake") {
                Ok(Case::UpperSnake)
            } else {
                Err(join5("found unknown value \"", text, "\" for rule \"", key, "\""))
            }
        },
        Err(e) => Err(e),
    }
}

/// The count that the rule `key` is given.
pub fn count_of(key: &str, value: &RuleValue) -> (r: Result<usize, String>)
    ensures
        match r {
            Ok(count) => rule_count(key@, value@) == Ok::<usize, Seq<char>>(count),
            Err(e) => rule_count(key@, value@) == Err::<usize, Seq<char>>(e@),
        },
{
    match value {
        RuleValue::Integer(i) => {
            if *i < 0 {
                Err(join3("expected value for key \"", key, "\" to be an unsigned integer"))
            } else if *i as u64 > usize::MAX as u64 {
                Ok(usize::MAX)
            } else {
                Ok(*i as usize)
            }
        },
        _ => Err(join3("expected value for key \"", key, "\" to be an integer")),
    }
}

/// The switch that the rule `key` is given.
pub fn flag_of(key: &str, value: &RuleValue) -> (r: Result<bool, String>)
    ensures
        match r {
            Ok(flag) => rule_flag(key@, value@) == Ok::<bool, Seq<char>>(flag),
            Err(e) => rule_flag(key@, value@) == Err::<bool, Seq<char>>(e@),
        },
{
    match value {
        RuleValue::Boolean(b) => Ok(*b),
        _ => Err(join3("expected value for key \"", key, "\" to be a boolean")),
    }
}

/// The optional text that the rule `key` is given.
pub fn prefix_of(key: &str, value: &RuleValue) -> (r: Result<Option<String>, String>)
    ensures
        match r {
            Ok(text) => text is Some && rule_text(key@, value@) == Ok::<Seq<char>, Seq<char>>(
                text->0@,
            ),
            Err(e) => rule_text(key@, value@) == Err::<Seq<char>, Seq<char>>(e@),
        },
{
    match text_of(key, value) {
        Ok(text) => Ok(Some(text.to_owned())),
        Err(e) => Err(e),
    }
}

/// The indentation that the rule `key` is given.
pub fn indentation_of(key: &str, value: &RuleValue) -> (r: Result<IndentationRule, String>)
    ensures
        match r {
            Ok(rule) => rule_indentation(key@, value@) == Ok::<IndentationRule, Seq<char>>(rule),
            Err(e) => rule_indentation(key@, value@) == Err::<IndentationRule, Seq<char>>(e@),
        },
{
    match text_of(key, value) {
        Ok(text) => {
            if same_text(text, "Tab") {
                Ok(IndentationRule::Tab)
            } else if same_text(text, "TwoSpaces") {
                Ok(IndentationRule::TwoSpaces)
            } else if same_text(text, "FourSpaces") {
                Ok(IndentationRule::FourSpaces)
            } else {
                Err(join5("found unknown value \"", text, "\" for rule \"", key, "\""))
            }
        },
        Err(e) => Err(e),
    }
}

/// The brace placement that the rule `key` is given.
pub fn brace_of(key: &str, value: &RuleValue) -> (r: Result<NewLineOnOpenBrace, String>)
    ensures
        match r {
            Ok(rule) => rule_brace(key@, value@) == Ok::<NewLineOnOpenBrace, Seq<char>>(rule),
            Err(e) => rule_brace(key@, value@) == Err::<NewLineOnOpenBrace, Seq<char>>(e@),
        },
{
    match text_of(key, value) {
        Ok(text) => {
            if same_text(text, "After") {
                Ok(NewLineOnOpenBrace::After)
            } else if same_text(text, "Before") {
                Ok(NewLineOnOpenBrace::Before)
            } else {
                Err(join5("found unknown value \"", text, "\" for rule \"", key, "\""))
            }
        },
        Err(e) => Err(e),
    }
}

impl Config {
    /// Sets the rule `key` to `value`, or says why it cannot be set so and
    /// leaves the rule set as it is.
    pub fn set(&mut self, key: &str, value: &RuleValue) -> (r: Result<(), String>)
        ensures
            match r {
                Ok(()) => with_rule(old(self)@, key@, value@) == Ok::<ConfigModel, Seq<char>>(
                    final(self)@,
                ),
                Err(e) => with_rule(old(self)@, key@, value@) == Err::<ConfigModel, Seq<char>>(e@)
                    && final(self)@ == old(self)@,
            },
    {
        if same_text(key, "Indentation") {
            self.indentation = indentation_of(key, value)?;
        } else if same_text(key, "VariableCase") {
            self.variable_case = Some(case_of(key, value)?);
        } else if same_text(key, "FunctionCase") {
            self.function_case = Some(case_of(key, value)?);
        } else if same_text(key, "StructCase") {
            self.struct_case = Some(case_of(key, value)?);
        } else if same_text(key, "NewLineOnOpenBrace") {
            self.new_line_around_braces = brace_of(key, value)?;
        } else if same_text(key, "MaxEmptyLines") {
            self.max_empty_lines = count_of(key, value)?;
        } else if same_text(key, "SpacesInBrackets") {
            self.spaces_in_brackets = flag_of(key, value)?;
        } else if same_text(key, "BoolPrefix") {
            self.bool_prefix = prefix_of(key, value)?;
        } else if same_text(key, "IntPrefix") {
            self.int_prefix = prefix_of(key, value)?;
        } else if same_text(key, "FloatPrefix") {
            self.float_prefix = prefix_of(key, value)?;
        } else if same_text(key, "GlobalVariablePrefix") {
            self.global_variable_prefix = prefix_of(key, value)?;
        } else if same_text(key, "ForceLineEnding") {
            self.force_line_ending = prefix_of(key, value)?;
        } else if same_text(key, "RequireDocsOnFunctions") {
            self.require_docs_on_functions = flag_of(key, value)?;
        } else if same_text(key, "RequireDocsOnStructs") {
            self.require_docs_on_structs = flag_of(key, value)?;
        } else if same_text(key, "RequireDocsOnFields") {
            self.require_docs_on_fields = flag_of(key, value)?;
        } else if same_text(key, "IndentPreprocessor") {
            self.indent_preprocessor = flag_of(key, value)?;
        } else if same_text(key, "PreprocessorIfCreatesNesting") {
            self.preprocessor_if_creates_nesting = flag_of(key, value)?;
        } else {
            return Err(join3("found unknown rule \"", key, "\""));
        }
        Ok(())
    }

    /// The built-in rule set with the rules `rules` set one after the
    /// other, or the reason why the first of them that cannot be set
    /// cannot.
    pub fn from_rules(rules: &Vec<(String, RuleValue)>) -> (r: Result<Config, String>)
        ensures
            loaded_view(r) == with_rules(default_rules(), rule_models(rules@)),
    {
        let mut config = Config::default();
        let mut i: usize = 0;
        let ghost all = rule_models(rules@);
        assert(all.take(0) =~= Seq::empty());
        while i < rules.len()
            invariant
                i <= rules.len(),
                all == rule_models(rules@),
                with_rules(default_rules(), all.take(i as int)) == Ok::<ConfigModel, Seq<char>>(
                    config@,
                ),
            decreases rules.len() - i,
        {
            proof {
                assert(all.take(i + 1).drop_last() =~= all.take(i as int));
            }
            match config.set(rules[i].0.as_str(), &rules[i].1) {
                Ok(()) => {},
                Err(e) => {
                    proof {
                        lemma_first_failure_stays(default_rules(), all, i + 1);
                    }
                    return Err(e);
                },
            }
            i += 1;
        }
        assert(all.take(rules.len() as int) =~= all);
        Ok(config)
    }

    /// The rule set of a rules file at `path` whose text gave `parsed` when
    /// it was parsed.
    pub fn from_parsed(path: &str, parsed: Result<Vec<(String, RuleValue)>, String>) -> (r: Result<
        Config,
        String,
    >)
        ensures
            loaded_view(r) == loaded(path@, parsed_view(parsed)),
    {
        match parsed {
            Ok(rules) => Config::from_rules(&rules),
            Err(error) => {
                let mut message = join3("failed to parse config file at ", path, ", error: ");
                message.append(error.as_str());
                Err(message)
            },
        }
    }

    /// The rule set of the rules file at `path` whose text is `content`.
    pub fn load_from_file(path: &str, content: &str) -> (r: Result<Config, String>)
        ensures
            loaded_view(r) == loaded(path@, toml_table(content@)),
    {
        Config::from_parsed(path, parse_rules(content))
    }

    /// The rule set to work with when the search for a rules file has found
    /// `found`, the path and the text of the closest one: the rules of that
    /// file, or the built-in rule set where there is none.
    pub fn get(found: Option<(&str, &str)>) -> (r: Result<Config, String>)
        ensures
            loaded_view(r) == match found {
                Some((path, content)) => loaded(path@, toml_table(content@)),
                None => Ok(default_rules()),
            },
    {
        match found {
            Some((path, content)) => Config::load_from_file(path, content),
            None => Ok(Config::default()),
        }
    }
}

/// Once a rule cannot be set, more rules behind it change nothing.
pub proof fn lemma_first_failure_stays(cfg: ConfigModel, rules: Rules, n: int)
    requires
        0 <= n <= rules.len(),
        with_rules(cfg, rules.take(n)) is Err,
    ensures
        with_rules(cfg, rules) == with_rules(cfg, rules.take(n)),
    decreases rules.len() - n,
{
    if n < rules.len() {
        assert(rules.take(n + 1).drop_last() =~= rules.take(n));
        lemma_first_failure_stays(cfg, rules, n + 1);
    } else {
        assert(rules.take(n) =~= rules);
    }
}

impl Default for Config {
    fn default() -> (config: Self)
        ensures
            config.is_default(),
            config@ == default_rules(),
    {
        Config {
            max_empty_lines: 1,
            new_line_around_braces: NewLineOnOpenBrace::After,
            indentation: IndentationRule::FourSpaces,
            spaces_in_brackets: false,
            variable_case: None,
            function_case: None,
            struct_case: None,
            bool_prefix: None,
            int_prefix: None,
            float_prefix: None,
            global_variable_prefix: None,
            force_line_ending: None,
            require_docs_on_functions: false,
            require_docs_on_structs: false,
            require_docs_on_fields: false,
            indent_preprocessor: false,
            preprocessor_if_creates_nesting: false,
        }
    }
}

} // verus!
