//! The keyword table: which words stand for the definition sigils.
use vstd::prelude::*;
use crate::text::str_eq;

verus! {

/// The sigil of a function definition in the symbolic syntax.
pub open spec fn function_symbol() -> Seq<char> {
    seq!['#']
}

/// The sigil of a variable definition in the symbolic syntax.
pub open spec fn variable_symbol() -> Seq<char> {
    seq!['$']
}

/// The built-in word for a function definition.
pub open spec fn default_function_word() -> Seq<char> {
    seq!['f', 'u', 'n', 'c', 't', 'i', 'o', 'n']
}

/// The built-in word for a variable definition.
pub open spec fn default_variable_word() -> Seq<char> {
    seq!['v', 'a', 'r']
}

/// The function-definition sigil, as text.
pub fn function_definition_character() -> (r: &'static str)
    ensures
        r@ == function_symbol(),
{
    proof {
        reveal_strlit("#");
    }
    "#"
}

/// The variable-definition sigil, as text.
pub fn variable_definition_character() -> (r: &'static str)
    ensures
        r@ == variable_symbol(),
{
    proof {
        reveal_strlit("$");
    }
    "$"
}

fn default_function_keyword() -> (r: &'static str)
    ensures
        r@ == default_function_word(),
{
    proof {
        reveal_strlit("function");
    }
    "function"
}

fn default_variable_keyword() -> (r: &'static str)
    ensures
        r@ == default_variable_word(),
{
    proof {
        reveal_strlit("var");
    }
    "var"
}

/// The two configurable keywords. Read once at start-up and shared read-only.
pub struct Config {
    pub function_keyword: String,
    pub variable_keyword: String,
}

impl Config {
    /// Whether `keyword` introduces a function definition: the sigil, the
    /// built-in word, or the configured word.
    pub open spec fn is_function_keyword(&self, keyword: Seq<char>) -> bool {
        keyword == function_symbol() || keyword == default_function_word()
            || keyword == self.function_keyword@
    }

    /// Whether `keyword` introduces a variable definition: the sigil, the
    /// built-in word, or the configured word.
    pub open spec fn is_variable_keyword(&self, keyword: Seq<char>) -> bool {
        keyword == variable_symbol() || keyword == default_variable_word()
            || keyword == self.variable_keyword@
    }

    /// A table with the given words.
    pub fn with_keywords(function_keyword: String, variable_keyword: String) -> (r: Config)
        ensures
            r.function_keyword == function_keyword,
            r.variable_keyword == variable_keyword,
    {
        Config { function_keyword, variable_keyword }
    }

    pub fn match_function_keyword(&self, keyword: &str) -> (r: bool)
        ensures
            r == self.is_function_keyword(keyword@),
    {
        if str_eq(keyword, function_definition_character()) {
            return true;
        }
        if str_eq(keyword, default_function_keyword()) {
            return true;
        }
        str_eq(keyword, self.function_keyword.as_str())
    }

    pub fn match_variable_keyword(&self, keyword: &str) -> (r: bool)
        ensures
            r == self.is_variable_keyword(keyword@),
    {
        if str_eq(keyword, variable_definition_character()) {
            return true;
        }
        if str_eq(keyword, default_variable_keyword()) {
            return true;
        }
        str_eq(keyword, self.variable_keyword.as_str())
    }
}

impl Default for Config {
    /// The built-in words.
    fn default() -> (r: Config)
        ensures
            r.function_keyword@ == default_function_word(),
            r.variable_keyword@ == default_variable_word(),
    {
        Config {
            function_keyword: default_function_keyword().to_owned(),
            variable_keyword: default_variable_keyword().to_owned(),
        }
    }
}

} // verus!
