//! What the site's configuration file can set.
use vstd::prelude::*;

verus! {

/// The settings of a build. A setting that the configuration file does not
/// name is off.
#[derive(Debug, Clone, Copy, PartialEq, Eq, Structural)]
pub struct Config {
    /// Whether style sheets are minified.
    pub minify_css: bool,
    /// Whether drafts are built like other pages.
    pub include_drafts: bool,
    /// Whether the state file is written in a form made for reading.
    pub pretty_print_state_cache: bool,
}

impl Default for Config {
    fn default() -> (config: Self)
        ensures
            config == (Config {
                minify_css: false,
                include_drafts: false,
                pretty_print_state_cache: false,
            }),
    {
        Config { minify_css: false, include_drafts: false, pretty_print_state_cache: false }
    }
}

impl Config {
    /// Whether a page is built: a draft is built only where drafts are
    /// included.
    pub fn builds_page(&self, draft: bool) -> (r: bool)
        ensures
            r == (!draft || self.include_drafts),
    {
        !draft || self.include_drafts
    }
}

} // verus!
