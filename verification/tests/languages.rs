//! Tests of language detection and grammar configuration.
use ade::syntax::languages::{Language, LANGUAGE_COUNT};


#[test]
fn test_language_from_extension_rust() {
    assert_eq!(Language::from_extension("rs"), Some(Language::Rust));
}

#[test]
fn test_language_from_extension_javascript() {
    assert_eq!(Language::from_extension("js"), Some(Language::JavaScript));
    assert_eq!(Language::from_extension("mjs"), Some(Language::JavaScript));
    assert_eq!(Language::from_extension("cjs"), Some(Language::JavaScript));
    assert_eq!(Language::from_extension("jsx"), Some(Language::JavaScript));
}

#[test]
fn test_language_from_extension_typescript() {
    assert_eq!(Language::from_extension("ts"), Some(Language::TypeScript));
    assert_eq!(Language::from_extension("mts"), Some(Language::TypeScript));
    assert_eq!(Language::from_extension("cts"), Some(Language::TypeScript));
}

#[test]
fn test_language_from_extension_tsx() {
    assert_eq!(Language::from_extension("tsx"), Some(Language::Tsx));
}

#[test]
fn test_language_from_extension_python() {
    assert_eq!(Language::from_extension("py"), Some(Language::Python));
    assert_eq!(Language::from_extension("pyi"), Some(Language::Python));
}

#[test]
fn test_language_from_extension_go() {
    assert_eq!(Language::from_extension("go"), Some(Language::Go));
}

#[test]
fn test_language_from_extension_c() {
    assert_eq!(Language::from_extension("c"), Some(Language::C));
    assert_eq!(Language::from_extension("h"), Some(Language::C));
}

#[test]
fn test_language_from_extension_cpp() {
    assert_eq!(Language::from_extension("cpp"), Some(Language::Cpp));
    assert_eq!(Language::from_extension("cc"), Some(Language::Cpp));
    assert_eq!(Language::from_extension("cxx"), Some(Language::Cpp));
    assert_eq!(Language::from_extension("hpp"), Some(Language::Cpp));
    assert_eq!(Language::from_extension("hxx"), Some(Language::Cpp));
    assert_eq!(Language::from_extension("hh"), Some(Language::Cpp));
}

#[test]
fn test_language_from_extension_java() {
    assert_eq!(Language::from_extension("java"), Some(Language::Java));
}

#[test]
fn test_language_from_extension_ruby() {
    assert_eq!(Language::from_extension("rb"), Some(Language::Ruby));
    assert_eq!(Language::from_extension("rake"), Some(Language::Ruby));
    assert_eq!(Language::from_extension("gemspec"), Some(Language::Ruby));
}

#[test]
fn test_language_from_extension_bash() {
    assert_eq!(Language::from_extension("sh"), Some(Language::Bash));
    assert_eq!(Language::from_extension("bash"), Some(Language::Bash));
    assert_eq!(Language::from_extension("zsh"), Some(Language::Bash));
}

#[test]
fn test_language_from_extension_html() {
    assert_eq!(Language::from_extension("html"), Some(Language::Html));
    assert_eq!(Language::from_extension("htm"), Some(Language::Html));
}

#[test]
fn test_language_from_extension_css() {
    assert_eq!(Language::from_extension("css"), Some(Language::Css));
    assert_eq!(Language::from_extension("scss"), Some(Language::Css));
}

#[test]
fn test_language_from_extension_json() {
    assert_eq!(Language::from_extension("json"), Some(Language::Json));
}

#[test]
fn test_language_from_extension_yaml() {
    assert_eq!(Language::from_extension("yaml"), Some(Language::Yaml));
    assert_eq!(Language::from_extension("yml"), Some(Language::Yaml));
}

#[test]
fn test_language_from_extension_unknown() {
    assert_eq!(Language::from_extension("unknown"), None);
    assert_eq!(Language::from_extension(""), None);
    assert_eq!(Language::from_extension("xyz"), None);
}

#[test]
fn test_all_languages_create_highlight_config() {
    let all_languages = [
        Language::Rust,
        Language::JavaScript,
        Language::TypeScript,
        Language::Tsx,
        Language::Python,
        Language::Go,
        Language::C,
        Language::Cpp,
        Language::Java,
        Language::Ruby,
        Language::Bash,
        Language::Html,
        Language::Css,
        Language::Json,
        Language::Yaml,
        Language::Markdown,
    ];

    for lang in &all_languages {
        let result = lang.create_highlight_config();
        match result {
            Ok(_) => {}
            Err(e) => panic!("Failed to create highlight config for {:?}: {}", lang, e),
        }
    }
}

#[test]
fn test_from_injection_name_javascript() {
    assert_eq!(
        Language::from_injection_name("javascript"),
        Some(Language::JavaScript)
    );
}

#[test]
fn test_from_injection_name_css() {
    assert_eq!(Language::from_injection_name("css"), Some(Language::Css));
}

#[test]
fn test_from_injection_name_unknown() {
    assert_eq!(Language::from_injection_name("rust"), None);
    assert_eq!(Language::from_injection_name("unknown"), None);
    assert_eq!(Language::from_injection_name(""), None);
}

#[test]
fn test_injection_query_html_non_empty() {
    assert!(
        !Language::Html.injection_query().is_empty(),
        "Html injection query should be non-empty"
    );
}

#[test]
fn test_injection_query_non_html_empty() {
    assert!(
        Language::Rust.injection_query().is_empty(),
        "Non-Html languages should have empty injection query"
    );
    assert!(
        Language::JavaScript.injection_query().is_empty(),
        "Non-Html languages should have empty injection query"
    );
}

#[test]
fn test_language_enum_has_15_variants() {
    // Verify all 15 variants exist by constructing them
    let variants = [
        Language::Rust,
        Language::JavaScript,
        Language::TypeScript,
        Language::Tsx,
        Language::Python,
        Language::Go,
        Language::C,
        Language::Cpp,
        Language::Java,
        Language::Ruby,
        Language::Bash,
        Language::Html,
        Language::Css,
        Language::Json,
        Language::Yaml,
        Language::Markdown,
    ];
    assert_eq!(variants.len(), 16);
}

// ---------------------------------------------------------------------------
// Additional cases
// ---------------------------------------------------------------------------

#[test]
fn test_language_from_extension_markdown() {
    assert_eq!(Language::from_extension("md"), Some(Language::Markdown));
    assert_eq!(Language::from_extension("markdown"), Some(Language::Markdown));
    assert_eq!(Language::from_extension("mdx"), Some(Language::Markdown));
    assert_eq!(Language::from_extension("RS"), None);
}

#[test]
fn test_language_slots_are_distinct() {
    let all = [
        Language::Rust,
        Language::JavaScript,
        Language::TypeScript,
        Language::Tsx,
        Language::Python,
        Language::Go,
        Language::C,
        Language::Cpp,
        Language::Java,
        Language::Ruby,
        Language::Bash,
        Language::Html,
        Language::Css,
        Language::Json,
        Language::Yaml,
        Language::Markdown,
    ];
    let mut seen = vec![false; LANGUAGE_COUNT];
    for lang in &all {
        let s = lang.slot();
        assert!(s < LANGUAGE_COUNT);
        assert!(!seen[s]);
        seen[s] = true;
    }
}

#[test]
fn test_config_and_debug_names() {
    assert_eq!(Language::Rust.config_name(), "rust");
    assert_eq!(Language::JavaScript.config_name(), "javascript");
    assert_eq!(Language::JavaScript.debug_name(), "JavaScript");
    assert_eq!(Language::Tsx.debug_name(), format!("{:?}", Language::Tsx));
    assert!(Language::Html.has_injections());
    assert!(!Language::Css.has_injections());
}
