//! A highlighting configuration whose capture names have been registered:
//! the only kind the highlighter is handed.
use vstd::prelude::*;
use tree_sitter_highlight::HighlightConfiguration;

verus! {

/// A highlighting configuration configured with the capture names that
/// highlight indices refer to. Only `configure_capture_names` makes one.
pub struct ConfiguredHighlight {
    config: HighlightConfiguration,
}

impl ConfiguredHighlight {
    /// The configuration itself.
    pub fn configuration(&self) -> &HighlightConfiguration {
        &self.config
    }
}

/// `HighlightConfiguration::configure`: register the capture names that
/// highlight indices refer to (index `i` stands for `names[i]`).
#[verifier::external_body]
pub(crate) fn configure_capture_names(config: HighlightConfiguration, names: &[&str]) -> ConfiguredHighlight {
    let mut config = config;
    config.configure(names);
    ConfiguredHighlight { config }
}

} // verus!
