//! The tree-sitter highlighting engine: grammar configurations per language
//! (created on first use and cached), and highlighting of a diff's two
//! reconstructed sides.
use vstd::prelude::*;
use std::sync::Arc;
use tree_sitter_highlight::{Highlighter, HighlightConfiguration, HighlightEvent};
use crate::code_review::diff_view::{Highlight, HighlightKind, flatten_diff_for_copy, hunks_rows, rows_model, after_last_dot, last_dot_segment, spans_of};
use crate::git::types::{DiffHunk, FileDiff};
use crate::syntax::languages::{Language, config_name_spec, extension_language, injection_language, debug_name_spec, slot_spec, LANGUAGE_COUNT};
use crate::syntax::theme::HIGHLIGHT_NAMES;
use crate::syntax::highlighter::{
    HlEvent, reconstruct_sides, rows_from_events, empty_highlights, rows_spans, no_spans,
    merged_spans, side_spans, side_of_hunks, offsets_model, lemma_side_of_hunks_ok,
    law_headers_get_no_spans, MAX_HIGHLIGHT_BYTES, events_view, SideModel, removed_rows, removed_flags,
};
use crate::text::{chars_of, string_from_chars, utf8_len};
use crate::syntax::configured::{ConfiguredHighlight, configure_capture_names};

verus! {

#[verifier::external_type_specification]
#[verifier::external_body]
pub struct ExHighlighter(Highlighter);

#[verifier::external_type_specification]
#[verifier::external_body]
pub struct ExHighlightConfiguration(HighlightConfiguration);

/// `Highlighter::new`: a highlighter with a fresh parser.
pub assume_specification[ Highlighter::new ]() -> Highlighter;

/// What `HighlightConfiguration::new` reports for the grammar of `grammar`
/// with its highlights query (for C++, the C query followed by the C++ one;
/// for HTML also its injections query), no locals query, registered under
/// `name`: `None` when it succeeds, else the error's message. It depends on
/// these values alone.
pub uninterp spec fn highlight_config_error(grammar: Language, name: Seq<char>) -> Option<Seq<char>>;

/// `HighlightConfiguration::new` for the Rust grammar and its highlights
/// query; a query error comes back as its message.
#[verifier::external_body]
fn rust_config(name: &str) -> (r: Result<HighlightConfiguration, String>)
    ensures
        match r {
            Ok(_) => highlight_config_error(Language::Rust, name@) is None,
            Err(e) => highlight_config_error(Language::Rust, name@) == Some(e@),
        },
{
    HighlightConfiguration::new(tree_sitter_rust::LANGUAGE.into(), name, tree_sitter_rust::HIGHLIGHTS_QUERY, "", "").map_err(|e| e.to_string())
}

/// `HighlightConfiguration::new` for the JavaScript grammar and its
/// highlights query; a query error comes back as its message.
#[verifier::external_body]
fn javascript_config(name: &str) -> (r: Result<HighlightConfiguration, String>)
    ensures
        match r {
            Ok(_) => highlight_config_error(Language::JavaScript, name@) is None,
            Err(e) => highlight_config_error(Language::JavaScript, name@) == Some(e@),
        },
{
    HighlightConfiguration::new(tree_sitter_javascript::LANGUAGE.into(), name, tree_sitter_javascript::HIGHLIGHT_QUERY, "", "").map_err(|e| e.to_string())
}

/// `HighlightConfiguration::new` for the TypeScript grammar and the
/// TypeScript highlights query; a query error comes back as its message.
#[verifier::external_body]
fn typescript_config(name: &str) -> (r: Result<HighlightConfiguration, String>)
    ensures
        match r {
            Ok(_) => highlight_config_error(Language::TypeScript, name@) is None,
            Err(e) => highlight_config_error(Language::TypeScript, name@) == Some(e@),
        },
{
    HighlightConfiguration::new(tree_sitter_typescript::LANGUAGE_TYPESCRIPT.into(), name, tree_sitter_typescript::HIGHLIGHTS_QUERY, "", "").map_err(|e| e.to_string())
}

/// `HighlightConfiguration::new` for the TSX grammar and the TypeScript
/// highlights query; a query error comes back as its message.
#[verifier::external_body]
fn tsx_config(name: &str) -> (r: Result<HighlightConfiguration, String>)
    ensures
        match r {
            Ok(_) => highlight_config_error(Language::Tsx, name@) is None,
            Err(e) => highlight_config_error(Language::Tsx, name@) == Some(e@),
        },
{
    HighlightConfiguration::new(tree_sitter_typescript::LANGUAGE_TSX.into(), name, tree_sitter_typescript::HIGHLIGHTS_QUERY, "", "").map_err(|e| e.to_string())
}

/// `HighlightConfiguration::new` for the Python grammar and its highlights
/// query; a query error comes back as its message.
#[verifier::external_body]
fn python_config(name: &str) -> (r: Result<HighlightConfiguration, String>)
    ensures
        match r {
            Ok(_) => highlight_config_error(Language::Python, name@) is None,
            Err(e) => highlight_config_error(Language::Python, name@) == Some(e@),
        },
{
    HighlightConfiguration::new(tree_sitter_python::LANGUAGE.into(), name, tree_sitter_python::HIGHLIGHTS_QUERY, "", "").map_err(|e| e.to_string())
}

/// `HighlightConfiguration::new` for the Go grammar and its highlights
/// query; a query error comes back as its message.
#[verifier::external_body]
fn go_config(name: &str) -> (r: Result<HighlightConfiguration, String>)
    ensures
        match r {
            Ok(_) => highlight_config_error(Language::Go, name@) is None,
            Err(e) => highlight_config_error(Language::Go, name@) == Some(e@),
        },
{
    HighlightConfiguration::new(tree_sitter_go::LANGUAGE.into(), name, tree_sitter_go::HIGHLIGHTS_QUERY, "", "").map_err(|e| e.to_string())
}

/// `HighlightConfiguration::new` for the C grammar and its highlights query;
/// a query error comes back as its message.
#[verifier::external_body]
fn c_config(name: &str) -> (r: Result<HighlightConfiguration, String>)
    ensures
        match r {
            Ok(_) => highlight_config_error(Language::C, name@) is None,
            Err(e) => highlight_config_error(Language::C, name@) == Some(e@),
        },
{
    HighlightConfiguration::new(tree_sitter_c::LANGUAGE.into(), name, tree_sitter_c::HIGHLIGHT_QUERY, "", "").map_err(|e| e.to_string())
}

/// The text of the highlights query that the grammar crate of `grammar`
/// bundles (for C, `tree_sitter_c::HIGHLIGHT_QUERY`; for C++,
/// `tree_sitter_cpp::HIGHLIGHT_QUERY`, which covers only what C++ adds to C).
pub uninterp spec fn bundled_highlights(grammar: Language) -> Seq<char>;

/// `tree_sitter_c::HIGHLIGHT_QUERY`.
#[verifier::external_body]
fn c_highlights_query() -> (q: &'static str)
    ensures
        q@ == bundled_highlights(Language::C),
{
    tree_sitter_c::HIGHLIGHT_QUERY
}

/// `tree_sitter_cpp::HIGHLIGHT_QUERY`.
#[verifier::external_body]
fn cpp_highlights_query() -> (q: &'static str)
    ensures
        q@ == bundled_highlights(Language::Cpp),
{
    tree_sitter_cpp::HIGHLIGHT_QUERY
}

/// The highlights query used for C++: the C query, a newline, the C++ query.
pub open spec fn cpp_query_spec() -> Seq<char> {
    bundled_highlights(Language::C) + "\n"@ + bundled_highlights(Language::Cpp)
}

/// Two highlights queries joined by a newline (one query text holding the
/// patterns of both).
pub fn join_queries(first: &str, second: &str) -> (r: String)
    ensures
        r@ == first@ + "\n"@ + second@,
{
    let mut s = String::from_str(first);
    s.append("\n");
    s.append(second);
    s
}

/// `HighlightConfiguration::new` for the C++ grammar with the highlights
/// query `query`; a query error comes back as its message. What the name
/// `highlight_config_error` holds for C++ is the outcome with the C query
/// followed by the C++ one; with any other query nothing is stated.
#[verifier::external_body]
fn cpp_config(name: &str, query: &str) -> (r: Result<HighlightConfiguration, String>)
    ensures
        query@ == cpp_query_spec() ==> match r {
            Ok(_) => highlight_config_error(Language::Cpp, name@) is None,
            Err(e) => highlight_config_error(Language::Cpp, name@) == Some(e@),
        },
{
    HighlightConfiguration::new(tree_sitter_cpp::LANGUAGE.into(), name, query, "", "").map_err(|e| e.to_string())
}

/// `HighlightConfiguration::new` for the Java grammar and its highlights
/// query; a query error comes back as its message.
#[verifier::external_body]
fn java_config(name: &str) -> (r: Result<HighlightConfiguration, String>)
    ensures
        match r {
            Ok(_) => highlight_config_error(Language::Java, name@) is None,
            Err(e) => highlight_config_error(Language::Java, name@) == Some(e@),
        },
{
    HighlightConfiguration::new(tree_sitter_java::LANGUAGE.into(), name, tree_sitter_java::HIGHLIGHTS_QUERY, "", "").map_err(|e| e.to_string())
}

/// `HighlightConfiguration::new` for the Ruby grammar and its highlights
/// query; a query error comes back as its message.
#[verifier::external_body]
fn ruby_config(name: &str) -> (r: Result<HighlightConfiguration, String>)
    ensures
        match r {
            Ok(_) => highlight_config_error(Language::Ruby, name@) is None,
            Err(e) => highlight_config_error(Language::Ruby, name@) == Some(e@),
        },
{
    HighlightConfiguration::new(tree_sitter_ruby::LANGUAGE.into(), name, tree_sitter_ruby::HIGHLIGHTS_QUERY, "", "").map_err(|e| e.to_string())
}

/// `HighlightConfiguration::new` for the Bash grammar and its highlights
/// query; a query error comes back as its message.
#[verifier::external_body]
fn bash_config(name: &str) -> (r: Result<HighlightConfiguration, String>)
    ensures
        match r {
            Ok(_) => highlight_config_error(Language::Bash, name@) is None,
            Err(e) => highlight_config_error(Language::Bash, name@) == Some(e@),
        },
{
    HighlightConfiguration::new(tree_sitter_bash::LANGUAGE.into(), name, tree_sitter_bash::HIGHLIGHT_QUERY, "", "").map_err(|e| e.to_string())
}

/// `HighlightConfiguration::new` for the HTML grammar, its highlights
/// query and its injections query; a query error comes back as its message.
#[verifier::external_body]
fn html_config(name: &str) -> (r: Result<HighlightConfiguration, String>)
    ensures
        match r {
            Ok(_) => highlight_config_error(Language::Html, name@) is None,
            Err(e) => highlight_config_error(Language::Html, name@) == Some(e@),
        },
{
    HighlightConfiguration::new(tree_sitter_html::LANGUAGE.into(), name, tree_sitter_html::HIGHLIGHTS_QUERY, tree_sitter_html::INJECTIONS_QUERY, "").map_err(|e| e.to_string())
}

/// `HighlightConfiguration::new` for the CSS grammar and its highlights
/// query; a query error comes back as its message.
#[verifier::external_body]
fn css_config(name: &str) -> (r: Result<HighlightConfiguration, String>)
    ensures
        match r {
            Ok(_) => highlight_config_error(Language::Css, name@) is None,
            Err(e) => highlight_config_error(Language::Css, name@) == Some(e@),
        },
{
    HighlightConfiguration::new(tree_sitter_css::LANGUAGE.into(), name, tree_sitter_css::HIGHLIGHTS_QUERY, "", "").map_err(|e| e.to_string())
}

/// `HighlightConfiguration::new` for the JSON grammar and its highlights
/// query; a query error comes back as its message.
#[verifier::external_body]
fn json_config(name: &str) -> (r: Result<HighlightConfiguration, String>)
    ensures
        match r {
            Ok(_) => highlight_config_error(Language::Json, name@) is None,
            Err(e) => highlight_config_error(Language::Json, name@) == Some(e@),
        },
{
    HighlightConfiguration::new(tree_sitter_json::LANGUAGE.into(), name, tree_sitter_json::HIGHLIGHTS_QUERY, "", "").map_err(|e| e.to_string())
}

/// `HighlightConfiguration::new` for the YAML grammar and its highlights
/// query; a query error comes back as its message.
#[verifier::external_body]
fn yaml_config(name: &str) -> (r: Result<HighlightConfiguration, String>)
    ensures
        match r {
            Ok(_) => highlight_config_error(Language::Yaml, name@) is None,
            Err(e) => highlight_config_error(Language::Yaml, name@) == Some(e@),
        },
{
    HighlightConfiguration::new(tree_sitter_yaml::LANGUAGE.into(), name, tree_sitter_yaml::HIGHLIGHTS_QUERY, "", "").map_err(|e| e.to_string())
}

/// `HighlightConfiguration::new` for the Markdown block grammar and its
/// block highlights query; a query error comes back as its message.
#[verifier::external_body]
fn markdown_config(name: &str) -> (r: Result<HighlightConfiguration, String>)
    ensures
        match r {
            Ok(_) => highlight_config_error(Language::Markdown, name@) is None,
            Err(e) => highlight_config_error(Language::Markdown, name@) == Some(e@),
        },
{
    HighlightConfiguration::new(tree_sitter_md::LANGUAGE.into(), name, tree_sitter_md::HIGHLIGHT_QUERY_BLOCK, "", "").map_err(|e| e.to_string())
}

/// The HTML grammar's injections query (JavaScript in `<script>`, CSS in
/// `<style>`): `tree_sitter_html::INJECTIONS_QUERY`, the crate's embedded
/// `queries/injections.scm`, which is not empty. Its text is not stated.
#[verifier::external_body]
fn html_injections_query() -> (q: &'static str)
    ensures
        q@.len() > 0,
{
    tree_sitter_html::INJECTIONS_QUERY
}

/// What `Highlighter::highlight` yields for `source` with the configuration
/// of `grammar` (its grammar and highlights query, configured with the
/// library's capture names) and the library's injection configurations
/// (JavaScript and CSS, where they can be created): the events up to the
/// first error, or `None` when highlighting could not start. It depends on
/// these values alone.
pub uninterp spec fn highlighted(grammar: Language, source: Seq<char>) -> Option<Seq<HlEvent>>;

/// `Highlighter::highlight` on `source` with `config`, embedded languages
/// resolved through `injections`; the events up to the first error, or
/// `None` when highlighting could not start.
#[verifier::external_body]
fn highlight_events(hl: &mut Highlighter, config: &LangConfig, source: &str, injections: &Injections) -> (r: Option<Vec<HlEvent>>)
    ensures
        events_view(r) == highlighted(config@, source@),
{
    let events = hl.highlight(config.config.configuration(), source.as_bytes(), None, None, |name| injections.lookup(name).map(|c| c.config.configuration())).ok()?;
    let mut out = Vec::new();
    for event in events {
        match event {
            Ok(HighlightEvent::Source { start, end }) => out.push(HlEvent::Source { start, end }),
            Ok(HighlightEvent::HighlightStart(h)) => out.push(HlEvent::Start(h.0)),
            Ok(HighlightEvent::HighlightEnd) => out.push(HlEvent::End),
            Err(_) => break,
        }
    }
    Some(out)
}

/// Whether the configuration of `lang` can be created.
pub open spec fn config_ok(lang: Language) -> bool {
    highlight_config_error(lang, config_name_spec(lang)) is None
}

/// A configuration created for a language, shared between its users.
pub struct LangConfig {
    lang: Language,
    config: Arc<ConfiguredHighlight>,
}

impl View for LangConfig {
    type V = Language;

    /// The language the configuration was created for.
    closed spec fn view(&self) -> Language {
        self.lang
    }
}

impl LangConfig {
    /// Only a language whose configuration can be created has one.
    #[verifier::type_invariant]
    closed spec fn created(self) -> bool {
        config_ok(self.lang)
    }

    /// Another handle on the same configuration.
    pub fn share(&self) -> (r: LangConfig)
        ensures
            r@ == self@,
    {
        proof {
            use_type_invariant(self);
        }
        LangConfig { lang: self.lang, config: self.config.clone() }
    }
}

/// The grammar configurations that HTML can inject: JavaScript and CSS,
/// each present exactly when it can be created.
pub struct Injections {
    javascript: Option<LangConfig>,
    css: Option<LangConfig>,
}

impl Injections {
    #[verifier::type_invariant]
    closed spec fn complete(self) -> bool {
        &&& (self.javascript is Some <==> config_ok(Language::JavaScript))
        &&& (self.javascript matches Some(c) ==> c@ == Language::JavaScript)
        &&& (self.css is Some <==> config_ok(Language::Css))
        &&& (self.css matches Some(c) ==> c@ == Language::Css)
    }

    /// Whether an injected language name has a configuration.
    pub open spec fn resolves(name: Seq<char>) -> bool {
        match injection_language(name) {
            Some(Language::JavaScript) => config_ok(Language::JavaScript),
            Some(Language::Css) => config_ok(Language::Css),
            _ => false,
        }
    }

    /// The configuration of an injected language name (that language's own),
    /// if it has one.
    pub fn lookup(&self, name: &str) -> (r: Option<&LangConfig>)
        ensures
            r is Some <==> Self::resolves(name@),
            r matches Some(c) ==> Some(c@) == injection_language(name@),
    {
        proof {
            use_type_invariant(self);
        }
        match Language::from_injection_name(name) {
            Some(Language::JavaScript) => match &self.javascript {
                Some(c) => Some(c),
                None => None,
            },
            Some(Language::Css) => match &self.css {
                Some(c) => Some(c),
                None => None,
            },
            _ => None,
        }
    }
}

/// The message of a configuration that could not be created.
pub open spec fn config_error(lang: Language, detail: Seq<char>) -> Seq<char> {
    "Failed to create highlight config for "@ + debug_name_spec(lang) + ": "@ + detail
}

fn append_str(out: &mut Vec<char>, s: &str)
    ensures
        final(out)@ == old(out)@ + s@,
{
    let cs = chars_of(s);
    let ghost start = out@;
    let mut i: usize = 0;
    while i < cs.len()
        invariant
            i <= cs@.len(),
            out@ == start + cs@.take(i as int),
        decreases cs@.len() - i,
    {
        out.push(cs[i]);
        assert(start + cs@.take(i + 1) =~= (start + cs@.take(i as int)).push(cs@[i as int]));
        i = i + 1;
    }
    assert(cs@.take(i as int) =~= cs@);
}

impl Language {
    /// The tree-sitter injection query of this language: HTML's query
    /// (JavaScript in `<script>`, CSS in `<style>`), and the empty query for
    /// every other language.
    pub fn injection_query(&self) -> (r: &'static str)
        ensures
            *self == Language::Html <==> r@.len() > 0,
    {
        match self {
            Language::Html => html_injections_query(),
            _ => {
                proof {
                    reveal_strlit("");
                }
                ""
            },
        }
    }

    /// Create the highlighting configuration for this language's grammar
    /// and highlights query, registered under the lower-case name, with the
    /// HTML injections for HTML, and configured with the capture names.
    pub fn create_highlight_config(&self) -> (r: Result<ConfiguredHighlight, String>)
        ensures
            match r {
                Ok(_) => highlight_config_error(*self, config_name_spec(*self)) is None,
                Err(m) => highlight_config_error(*self, config_name_spec(*self)) matches Some(detail)
                    && m@ == config_error(*self, detail),
            },
    {
        let name = self.config_name();
        let made = match self {
            Language::Rust => rust_config(name),
            Language::JavaScript => javascript_config(name),
            Language::TypeScript => typescript_config(name),
            Language::Tsx => tsx_config(name),
            Language::Python => python_config(name),
            Language::Go => go_config(name),
            Language::C => c_config(name),
            Language::Cpp => {
                let query = join_queries(c_highlights_query(), cpp_highlights_query());
                cpp_config(name, query.as_str())
            },
            Language::Java => java_config(name),
            Language::Ruby => ruby_config(name),
            Language::Bash => bash_config(name),
            Language::Html => html_config(name),
            Language::Css => css_config(name),
            Language::Json => json_config(name),
            Language::Yaml => yaml_config(name),
            Language::Markdown => markdown_config(name),
        };
        match made {
            Ok(config) => Ok(configure_capture_names(config, HIGHLIGHT_NAMES.as_slice())),
            Err(detail) => {
                let mut msg: Vec<char> = Vec::new();
                append_str(&mut msg, "Failed to create highlight config for ");
                append_str(&mut msg, self.debug_name());
                append_str(&mut msg, ": ");
                append_str(&mut msg, detail.as_str());
                assert(msg@ =~= config_error(*self, detail@));
                Err(string_from_chars(&msg))
            },
        }
    }
}

/// Rows without spans leave every row, hunk headers included, empty.
proof fn lemma_unspanned(r: Seq<Vec<Highlight>>, hunks: Seq<DiffHunk>)
    requires
        rows_spans(r) == no_spans(hunks_rows(hunks).len()),
    ensures
        forall|i: int| 0 <= i < r.len() && (#[trigger] hunks_rows(hunks)[i]) is Header ==> r[i]@.len() == 0,
{
    assert forall|i: int| 0 <= i < r.len() && (#[trigger] hunks_rows(hunks)[i]) is Header implies r[i]@.len() == 0 by {
        assert(rows_spans(r).len() == r.len());
        assert(rows_spans(r)[i] == spans_of(r[i]@));
        assert(no_spans(hunks_rows(hunks).len())[i].len() == 0);
    }
}

/// The events of one reconstructed side: none for an empty side or one
/// without lines, else what highlighting its text gives.
pub open spec fn side_events(lang: Language, side: SideModel) -> Option<Seq<HlEvent>> {
    if side.0.len() == 0 || side.1.len() == 0 {
        None
    } else {
        highlighted(lang, side.0)
    }
}

/// The syntax spans of each flattened row of a diff of the file at `path`:
/// none without a known language, with a side over the size limit, or when
/// the language's configuration cannot be created; else each side's events
/// mapped onto its rows, removed lines taking the old side's spans and all
/// other rows the new side's.
pub open spec fn diff_highlight_spans(path: Seq<char>, hunks: Seq<DiffHunk>) -> Seq<Seq<(int, int, HighlightKind)>> {
    let n = hunks_rows(hunks).len();
    let new_side = side_of_hunks(hunks, true);
    let old_side = side_of_hunks(hunks, false);
    match extension_language(after_last_dot(path)) {
        None => no_spans(n),
        Some(lang) => if utf8_len(new_side.0) > MAX_HIGHLIGHT_BYTES || utf8_len(old_side.0) > MAX_HIGHLIGHT_BYTES
            || !config_ok(lang) {
            no_spans(n)
        } else {
            merged_spans(
                side_spans(side_events(lang, new_side), new_side.1, n),
                side_spans(side_events(lang, old_side), old_side.1, n),
                removed_rows(hunks_rows(hunks)),
            )
        },
    }
}

/// Syntax highlighter with lazily created, cached language configurations.
pub struct SyntaxHighlighter {
    highlighter: Highlighter,
    configs: Vec<Option<LangConfig>>,
}

impl SyntaxHighlighter {
    /// One configuration slot per language, each holding its own language's.
    pub closed spec fn wf(&self) -> bool {
        &&& self.configs@.len() == LANGUAGE_COUNT
        &&& forall|k: int| 0 <= k < self.configs@.len() ==> (#[trigger] self.configs@[k] matches Some(c) ==> slot_spec(c@) == k)
    }

    /// Whether the configuration of `lang` has been created.
    pub closed spec fn has_config(&self, lang: Language) -> bool {
        self.configs@[slot_spec(lang)] is Some
    }

    /// Create a highlighter with no configuration created yet.
    pub fn new() -> (s: Self)
        ensures
            s.wf(),
            forall|l: Language| !s.has_config(l),
    {
        let mut configs: Vec<Option<LangConfig>> = Vec::new();
        let mut i: usize = 0;
        while i < LANGUAGE_COUNT
            invariant
                i <= LANGUAGE_COUNT,
                configs@.len() == i,
                forall|k: int| 0 <= k < i ==> (#[trigger] configs@[k]) is None,
            decreases LANGUAGE_COUNT - i,
        {
            configs.push(None);
            i = i + 1;
        }
        SyntaxHighlighter { highlighter: Highlighter::new(), configs }
    }

    /// The configuration of `lang`: the cached one, or a new one (cached on
    /// success). `None` exactly when the grammar fails to initialize.
    fn get_or_create_config(&mut self, lang: Language) -> (r: Option<LangConfig>)
        requires
            old(self).wf(),
        ensures
            final(self).wf(),
            r is Some <==> config_ok(lang),
            r matches Some(c) ==> c@ == lang,
            r is Some <==> final(self).has_config(lang),
            forall|l: Language| old(self).has_config(l) ==> final(self).has_config(l),
    {
        let slot = lang.slot();
        match &self.configs[slot] {
            Some(c) => {
                proof {
                    crate::syntax::languages::law_slots_distinct(c@, lang);
                    use_type_invariant(c);
                }
                return Some(c.share());
            },
            None => {},
        }
        match lang.create_highlight_config() {
            Ok(config) => {
                let made = LangConfig { lang, config: Arc::new(config) };
                let mut entry = Some(made.share());
                std::mem::swap(&mut entry, &mut self.configs[slot]);
                proof {
                    assert forall|l: Language| old(self).has_config(l) implies final(self).has_config(l) by {}
                }
                Some(made)
            },
            Err(_) => None,
        }
    }

    /// Highlight a diff, returning the highlight spans of each flattened row
    /// (hunk headers get none). The language comes from the path's extension;
    /// added and context lines take the new side's colours, removed lines the
    /// old side's. Without a
    /// known language, without a grammar, or with a side over the size limit,
    /// no row gets spans.
    pub fn highlight_diff(&mut self, file_diff: &FileDiff) -> (r: Vec<Vec<Highlight>>)
        requires
            old(self).wf(),
        ensures
            final(self).wf(),
            r@.len() == hunks_rows(file_diff.hunks@).len(),
            forall|i: int|
                0 <= i < r@.len() && (#[trigger] hunks_rows(file_diff.hunks@)[i]) is Header ==> r@[i]@.len()
                    == 0,
            rows_spans(r@) == diff_highlight_spans(file_diff.path@, file_diff.hunks@),
    {
        let ext = last_dot_segment(file_diff.path.as_str());
        let ext_text = string_from_chars(&ext);
        let lang = Language::from_extension(ext_text.as_str());
        let rows = flatten_diff_for_copy(file_diff);
        let total_rows = rows.len();
        proof {
            assert(rows_model(rows@).len() == rows@.len());
        }
        let lang = match lang {
            Some(l) => l,
            None => {
                let r = empty_highlights(total_rows);
                proof {
                    lemma_unspanned(r@, file_diff.hunks@);
                }
                return r;
            },
        };
        let (new_side, new_offsets, old_side, old_offsets) = reconstruct_sides(file_diff);
        if new_side.as_str().as_bytes().len() > MAX_HIGHLIGHT_BYTES || old_side.as_str().as_bytes().len() > MAX_HIGHLIGHT_BYTES {
            proof {
                crate::text::lemma_utf8_len_encoding(new_side@);
                crate::text::lemma_utf8_len_encoding(old_side@);
            }
            let r = empty_highlights(total_rows);
            proof {
                lemma_unspanned(r@, file_diff.hunks@);
            }
            return r;
        }
        proof {
            crate::text::lemma_utf8_len_encoding(new_side@);
            crate::text::lemma_utf8_len_encoding(old_side@);
        }
        let config = match self.get_or_create_config(lang) {
            Some(c) => c,
            None => {
                let r = empty_highlights(total_rows);
                proof {
                    lemma_unspanned(r@, file_diff.hunks@);
                }
                return r;
            },
        };
        let javascript = self.get_or_create_config(Language::JavaScript);
        let css = self.get_or_create_config(Language::Css);
        let injections = Injections { javascript, css };
        proof {
            lemma_side_of_hunks_ok(file_diff.hunks@, true);
            lemma_side_of_hunks_ok(file_diff.hunks@, false);
        }
        let new_events = if new_side.as_str().len() == 0 || new_offsets.len() == 0 {
            None
        } else {
            highlight_events(&mut self.highlighter, &config, new_side.as_str(), &injections)
        };
        let old_events = if old_side.as_str().len() == 0 || old_offsets.len() == 0 {
            None
        } else {
            highlight_events(&mut self.highlighter, &config, old_side.as_str(), &injections)
        };
        let ghost ne = events_view(new_events);
        let ghost oe = events_view(old_events);
        let ghost new_model = side_of_hunks(file_diff.hunks@, true);
        let ghost old_model = side_of_hunks(file_diff.hunks@, false);
        assert(ne == side_events(lang, new_model));
        assert(oe == side_events(lang, old_model));
        let removed = removed_flags(&rows);
        let r = rows_from_events(total_rows, &removed, &new_offsets, new_events, &old_offsets, old_events);
        assert(rows_spans(r@) == merged_spans(
            side_spans(ne, offsets_model(new_offsets@), total_rows as nat),
            side_spans(oe, offsets_model(old_offsets@), total_rows as nat),
            removed_rows(hunks_rows(file_diff.hunks@)),
        ));
        proof {
            assert forall|i: int|
                0 <= i < r@.len() && (#[trigger] hunks_rows(file_diff.hunks@)[i]) is Header implies r@[i]@.len()
                    == 0 by {
                law_headers_get_no_spans(file_diff.hunks@, ne, oe, i);
                assert(rows_spans(r@)[i] == spans_of(r@[i]@));
            }
        }
        r
    }
}

} // verus!
