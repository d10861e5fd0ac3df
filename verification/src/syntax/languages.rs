//! The languages the highlighter knows, and how a file extension or an
//! injection name selects one.
use vstd::prelude::*;
use crate::text::{chars_of, chars_equal};

verus! {

/// A language with a tree-sitter grammar.
#[derive(Debug, Clone, Copy, PartialEq, Eq, Hash, Structural)]
pub enum Language {
    Rust,
    JavaScript,
    TypeScript,
    Tsx,
    Python,
    Go,
    C,
    Cpp,
    Java,
    Ruby,
    Bash,
    Html,
    Css,
    Json,
    Yaml,
    Markdown,
}

/// The language an injection name selects (only what HTML embeds).
pub open spec fn injection_language(name: Seq<char>) -> Option<Language> {
    if name == seq!['j', 'a', 'v', 'a', 's', 'c', 'r', 'i', 'p', 't'] {
        Some(Language::JavaScript)
    } else if name == seq!['c', 's', 's'] {
        Some(Language::Css)
    } else {
        None
    }
}

/// The language a file extension selects.
pub open spec fn extension_language(e: Seq<char>) -> Option<Language> {
    if e == seq!['r', 's'] {
        Some(Language::Rust)
    } else if e == seq!['j', 's'] || e == seq!['m', 'j', 's'] || e == seq!['c', 'j', 's'] || e
        == seq!['j', 's', 'x'] {
        Some(Language::JavaScript)
    } else if e == seq!['t', 's'] || e == seq!['m', 't', 's'] || e == seq!['c', 't', 's'] {
        Some(Language::TypeScript)
    } else if e == seq!['t', 's', 'x'] {
        Some(Language::Tsx)
    } else if e == seq!['p', 'y'] || e == seq!['p', 'y', 'i'] {
        Some(Language::Python)
    } else if e == seq!['g', 'o'] {
        Some(Language::Go)
    } else if e.len() == 1 && (e[0] == 'c' || e[0] == 'h') {
        Some(Language::C)
    } else if e == seq!['c', 'p', 'p'] || e == seq!['c', 'c'] || e == seq!['c', 'x', 'x'] || e
        == seq!['h', 'p', 'p'] || e == seq!['h', 'x', 'x'] || e == seq!['h', 'h'] {
        Some(Language::Cpp)
    } else if e == seq!['j', 'a', 'v', 'a'] {
        Some(Language::Java)
    } else if e == seq!['r', 'b'] || e == seq!['r', 'a', 'k', 'e'] || e == seq![
        'g',
        'e',
        'm',
        's',
        'p',
        'e',
        'c',
    ] {
        Some(Language::Ruby)
    } else if e == seq!['s', 'h'] || e == seq!['b', 'a', 's', 'h'] || e == seq!['z', 's', 'h'] {
        Some(Language::Bash)
    } else if e == seq!['h', 't', 'm', 'l'] || e == seq!['h', 't', 'm'] {
        Some(Language::Html)
    } else if e == seq!['c', 's', 's'] || e == seq!['s', 'c', 's', 's'] {
        Some(Language::Css)
    } else if e == seq!['j', 's', 'o', 'n'] {
        Some(Language::Json)
    } else if e == seq!['y', 'a', 'm', 'l'] || e == seq!['y', 'm', 'l'] {
        Some(Language::Yaml)
    } else if e == seq!['m', 'd'] || e == seq!['m', 'a', 'r', 'k', 'd', 'o', 'w', 'n'] || e
        == seq!['m', 'd', 'x'] {
        Some(Language::Markdown)
    } else {
        None
    }
}

/// How many languages there are.
pub const LANGUAGE_COUNT: usize = 16;

/// The variant's name, as `Debug` writes it.
pub open spec fn debug_name_spec(l: Language) -> Seq<char> {
    match l {
        Language::Rust => "Rust"@,
        Language::JavaScript => "JavaScript"@,
        Language::TypeScript => "TypeScript"@,
        Language::Tsx => "Tsx"@,
        Language::Python => "Python"@,
        Language::Go => "Go"@,
        Language::C => "C"@,
        Language::Cpp => "Cpp"@,
        Language::Java => "Java"@,
        Language::Ruby => "Ruby"@,
        Language::Bash => "Bash"@,
        Language::Html => "Html"@,
        Language::Css => "Css"@,
        Language::Json => "Json"@,
        Language::Yaml => "Yaml"@,
        Language::Markdown => "Markdown"@,
    }
}

/// The language's place among the languages.
pub open spec fn slot_spec(l: Language) -> int {
    match l {
        Language::Rust => 0,
        Language::JavaScript => 1,
        Language::TypeScript => 2,
        Language::Tsx => 3,
        Language::Python => 4,
        Language::Go => 5,
        Language::C => 6,
        Language::Cpp => 7,
        Language::Java => 8,
        Language::Ruby => 9,
        Language::Bash => 10,
        Language::Html => 11,
        Language::Css => 12,
        Language::Json => 13,
        Language::Yaml => 14,
        Language::Markdown => 15,
    }
}

/// Distinct languages have distinct places.
pub proof fn law_slots_distinct(a: Language, b: Language)
    ensures
        slot_spec(a) == slot_spec(b) ==> a == b,
        0 <= slot_spec(a) < LANGUAGE_COUNT,
{
}

/// The name a language's grammar configuration is registered under: the
/// variant's name in lower case.
pub open spec fn config_name_spec(l: Language) -> Seq<char> {
    match l {
        Language::Rust => "rust"@,
        Language::JavaScript => "javascript"@,
        Language::TypeScript => "typescript"@,
        Language::Tsx => "tsx"@,
        Language::Python => "python"@,
        Language::Go => "go"@,
        Language::C => "c"@,
        Language::Cpp => "cpp"@,
        Language::Java => "java"@,
        Language::Ruby => "ruby"@,
        Language::Bash => "bash"@,
        Language::Html => "html"@,
        Language::Css => "css"@,
        Language::Json => "json"@,
        Language::Yaml => "yaml"@,
        Language::Markdown => "markdown"@,
    }
}

impl Language {
    /// Resolve a tree-sitter injection language name to a Language variant.
    /// Used by the injection callback when tree-sitter requests highlighting
    /// for an embedded language (e.g., "javascript" inside HTML `<script>`).
    pub fn from_injection_name(name: &str) -> (r: Option<Language>)
        ensures
            r == injection_language(name@),
    {
        let c = chars_of(name);
        if chars_equal(&c, &['j', 'a', 'v', 'a', 's', 'c', 'r', 'i', 'p', 't']) {
            Some(Language::JavaScript)
        } else if chars_equal(&c, &['c', 's', 's']) {
            Some(Language::Css)
        } else {
            None
        }
    }

    /// Resolve a file extension (without the dot) to the language whose
    /// grammar highlights it.
    pub fn from_extension(ext: &str) -> (r: Option<Language>)
        ensures
            r == extension_language(ext@),
    {
        let e = chars_of(ext);
        if chars_equal(&e, &['r', 's']) {
            Some(Language::Rust)
        } else if chars_equal(&e, &['j', 's']) || chars_equal(&e, &['m', 'j', 's']) || chars_equal(
            &e,
            &['c', 'j', 's'],
        ) || chars_equal(&e, &['j', 's', 'x']) {
            Some(Language::JavaScript)
        } else if chars_equal(&e, &['t', 's']) || chars_equal(&e, &['m', 't', 's']) || chars_equal(
            &e,
            &['c', 't', 's'],
        ) {
            Some(Language::TypeScript)
        } else if chars_equal(&e, &['t', 's', 'x']) {
            Some(Language::Tsx)
        } else if chars_equal(&e, &['p', 'y']) || chars_equal(&e, &['p', 'y', 'i']) {
            Some(Language::Python)
        } else if chars_equal(&e, &['g', 'o']) {
            Some(Language::Go)
        } else if (e.len() == 1 && (e[0] == 'c' || e[0] == 'h')) {
            Some(Language::C)
        } else if chars_equal(&e, &['c', 'p', 'p']) || chars_equal(&e, &['c', 'c']) || chars_equal(
            &e,
            &['c', 'x', 'x'],
        ) || chars_equal(&e, &['h', 'p', 'p']) || chars_equal(&e, &['h', 'x', 'x'])
            || chars_equal(&e, &['h', 'h']) {
            Some(Language::Cpp)
        } else if chars_equal(&e, &['j', 'a', 'v', 'a']) {
            Some(Language::Java)
        } else if chars_equal(&e, &['r', 'b']) || chars_equal(&e, &['r', 'a', 'k', 'e'])
            || chars_equal(&e, &['g', 'e', 'm', 's', 'p', 'e', 'c']) {
            Some(Language::Ruby)
        } else if chars_equal(&e, &['s', 'h']) || chars_equal(&e, &['b', 'a', 's', 'h'])
            || chars_equal(&e, &['z', 's', 'h']) {
            Some(Language::Bash)
        } else if chars_equal(&e, &['h', 't', 'm', 'l']) || chars_equal(&e, &['h', 't', 'm']) {
            Some(Language::Html)
        } else if chars_equal(&e, &['c', 's', 's']) || chars_equal(&e, &['s', 'c', 's', 's']) {
            Some(Language::Css)
        } else if chars_equal(&e, &['j', 's', 'o', 'n']) {
            Some(Language::Json)
        } else if chars_equal(&e, &['y', 'a', 'm', 'l']) || chars_equal(&e, &['y', 'm', 'l']) {
            Some(Language::Yaml)
        } else if chars_equal(&e, &['m', 'd']) || chars_equal(
            &e,
            &['m', 'a', 'r', 'k', 'd', 'o', 'w', 'n'],
        ) || chars_equal(&e, &['m', 'd', 'x']) {
            Some(Language::Markdown)
        } else {
            None
        }
    }

    /// The name the grammar's configuration is registered under: the
    /// variant's name in lower case.
    pub fn config_name(&self) -> (r: &'static str)
        ensures
            r@ == config_name_spec(*self),
    {
        match self {
            Language::Rust => "rust",
            Language::JavaScript => "javascript",
            Language::TypeScript => "typescript",
            Language::Tsx => "tsx",
            Language::Python => "python",
            Language::Go => "go",
            Language::C => "c",
            Language::Cpp => "cpp",
            Language::Java => "java",
            Language::Ruby => "ruby",
            Language::Bash => "bash",
            Language::Html => "html",
            Language::Css => "css",
            Language::Json => "json",
            Language::Yaml => "yaml",
            Language::Markdown => "markdown",
        }
    }

    /// The variant's name, as `Debug` writes it.
    pub fn debug_name(&self) -> (r: &'static str)
        ensures
            r@ == debug_name_spec(*self),
    {
        match self {
            Language::Rust => "Rust",
            Language::JavaScript => "JavaScript",
            Language::TypeScript => "TypeScript",
            Language::Tsx => "Tsx",
            Language::Python => "Python",
            Language::Go => "Go",
            Language::C => "C",
            Language::Cpp => "Cpp",
            Language::Java => "Java",
            Language::Ruby => "Ruby",
            Language::Bash => "Bash",
            Language::Html => "Html",
            Language::Css => "Css",
            Language::Json => "Json",
            Language::Yaml => "Yaml",
            Language::Markdown => "Markdown",
        }
    }

    /// The language's place among the languages (0..16), for per-language
    /// tables.
    pub fn slot(&self) -> (r: usize)
        ensures
            r == slot_spec(*self),
            r < LANGUAGE_COUNT,
    {
        match self {
            Language::Rust => 0,
            Language::JavaScript => 1,
            Language::TypeScript => 2,
            Language::Tsx => 3,
            Language::Python => 4,
            Language::Go => 5,
            Language::C => 6,
            Language::Cpp => 7,
            Language::Java => 8,
            Language::Ruby => 9,
            Language::Bash => 10,
            Language::Html => 11,
            Language::Css => 12,
            Language::Json => 13,
            Language::Yaml => 14,
            Language::Markdown => 15,
        }
    }

    /// Whether this language's grammar injects other languages (only HTML:
    /// JavaScript in `<script>`, CSS in `<style>`).
    pub fn has_injections(&self) -> (r: bool)
        ensures
            r == (*self == Language::Html),
    {
        match self {
            Language::Html => true,
            _ => false,
        }
    }
}

/// Every injection name selects a language whose own grammar injects nothing.
pub proof fn law_injected_languages_are_leaves(name: Seq<char>)
    ensures
        injection_language(name) matches Some(l) ==> l != Language::Html,
{
}

} // verus!
