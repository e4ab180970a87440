//! Shortcodes: calls of template functions inside the text of a page,
//! rendered before the text is taken as markdown.
use crate::pattern::is_match;
use crate::pattern::regex_is_match;
use crate::render::context_new;
use crate::render::render_outcome;
use crate::render::tera_render_str;
use crate::render::RenderError;
use vstd::prelude::*;

verus! {

/// The form of the start of a shortcode: two opening braces, an optional
/// `-`, a name, and an opening parenthesis, with optional space around the
/// name.
pub open spec fn shortcode_pattern() -> Seq<char> {
    r"\{\{-?\s*[a-zA-Z_][a-zA-Z0-9_]*\s*\("@
}

/// Whether `content` holds the start of a shortcode.
pub open spec fn holds_shortcode(content: Seq<char>) -> bool {
    regex_is_match(shortcode_pattern(), content) == Some(true)
}

/// Whether `content` holds the start of a shortcode.
pub fn has_shortcode(content: &str) -> (r: bool)
    ensures
        r == holds_shortcode(content@),
{
    match is_match(r"\{\{-?\s*[a-zA-Z_][a-zA-Z0-9_]*\s*\(", content) {
        Some(found) => found,
        None => false,
    }
}

/// The shortcodes of a site: an engine that holds one function for each
/// shortcode template, or nothing where the site has no such template.
pub struct ShortcodeManager {
    engine: Option<tera::Tera>,
}

impl ShortcodeManager {
    /// Whether the site has shortcode templates.
    pub closed spec fn has_templates(&self) -> bool {
        self.engine is Some
    }

    /// The shortcodes that `engine` holds; `None` for a site without
    /// shortcode templates.
    pub fn new(engine: Option<tera::Tera>) -> (manager: ShortcodeManager)
        ensures
            manager.has_templates() == engine is Some,
    {
        ShortcodeManager { engine }
    }

    /// Whether `render_shortcodes` hands `content` to the engine: only where
    /// the site has shortcode templates and the content holds a shortcode.
    pub open spec fn renders(&self, content: Seq<char>) -> bool {
        self.has_templates() && holds_shortcode(content)
    }

    /// Renders the shortcodes in `content`. Content without a shortcode, and
    /// any content on a site without shortcode templates, comes back as it
    /// is; other content is rendered by the engine, whose text or failure
    /// comes back.
    pub fn render_shortcodes(&mut self, content: String) -> (r: Result<String, RenderError>)
        ensures
            !old(self).renders(content@) ==> r == Ok::<String, RenderError>(content),
            final(self).has_templates() == old(self).has_templates(),
    {
        match &mut self.engine {
            None => Ok(content),
            Some(engine) => {
                if !has_shortcode(content.as_str()) {
                    return Ok(content);
                }
                let context = context_new();
                render_outcome(tera_render_str(engine, content.as_str(), &context))
            },
        }
    }
}

} // verus!
