//! Pages: what the front matter of a source file says of a page, the page as
//! it is rendered, and the part of it that the index lists.
use crate::keyed::KeyedMap;
use crate::render::context_entries;
use crate::render::context_insert;
use crate::render::context_new;
use crate::render::escape_html;
use crate::render::html_escaped;
use crate::render::json_of;
use crate::render::no_entries;
use crate::render::object_insert;
use crate::render::object_new;
use crate::render::optional_text_json;
use crate::render::render_outcome;
use crate::render::reports_missing;
use crate::render::template_names;
use crate::render::tera_render;
use crate::render::value_flag;
use crate::render::value_object;
use crate::render::value_optional_text;
use crate::render::value_text;
use crate::render::Json;
use crate::render::RenderError;
use crate::text::split_once;
use crate::text::split_once_at;
use vstd::prelude::*;

verus! {

/// The file stem of `path`: the final component of the path without its
/// extension, where the path has a final component.
pub uninterp spec fn path_file_stem(path: Seq<char>) -> Option<Seq<char>>;

/// Calls `std::path::Path::file_stem` on `path`. Trusted: what it returns is
/// a function of the text of the path alone.
#[verifier::external_body]
fn file_stem(path: &str) -> (stem: Option<String>)
    ensures
        match stem {
            Some(s) => path_file_stem(path@) == Some(s@),
            None => path_file_stem(path@) is None,
        },
{
    match std::path::Path::new(path).file_stem() {
        Some(stem) => match stem.to_str() {
            Some(s) => Some(s.to_owned()),
            None => None,
        },
        None => None,
    }
}

/// The slug that a file stem gives: what follows its first `_`, where
/// something does.
pub open spec fn slug_of_stem(stem: Seq<char>) -> Option<Seq<char>> {
    match split_once_at(stem, '_') {
        Some((_, slug)) if slug.len() > 0 => Some(slug),
        _ => None,
    }
}

/// The slug that the name of a source file gives.
pub open spec fn slug_of_path(path: Seq<char>) -> Option<Seq<char>> {
    match path_file_stem(path) {
        Some(stem) => slug_of_stem(stem),
        None => None,
    }
}

/// The slug that a file stem gives: a stem is a date, a `_` and the slug.
pub fn try_get_slug_from_stem(stem: &str) -> (r: Option<String>)
    ensures
        match r {
            Some(slug) => slug_of_stem(stem@) == Some(slug@),
            None => slug_of_stem(stem@) is None,
        },
{
    match split_once(stem, '_') {
        Some((_, slug)) => {
            if slug.as_str().unicode_len() == 0 {
                None
            } else {
                Some(slug)
            }
        },
        None => None,
    }
}

/// The slug that the name of a source file gives.
pub fn try_get_slug_from_path(path: &str) -> (r: Option<String>)
    ensures
        match r {
            Some(slug) => slug_of_path(path@) == Some(slug@),
            None => slug_of_path(path@) is None,
        },
{
    match file_stem(path) {
        Some(stem) => try_get_slug_from_stem(stem.as_str()),
        None => None,
    }
}

/// The view of an optional text.
pub open spec fn text_view(t: Option<String>) -> Option<Seq<char>> {
    match t {
        Some(t) => Some(t@),
        None => None,
    }
}

/// What the front matter of a source file says of a page.
pub struct PageFrontMatter {
    title: Option<String>,
    date: String,
    slug: Option<String>,
    draft: bool,
    extra: KeyedMap<String>,
}

/// A `PageFrontMatter` as a mathematical value.
pub struct PageFrontMatterView {
    pub title: Option<Seq<char>>,
    pub date: Seq<char>,
    pub slug: Option<Seq<char>>,
    pub draft: bool,
    pub extra: Map<Seq<char>, Seq<char>>,
}

impl View for PageFrontMatter {
    type V = PageFrontMatterView;

    closed spec fn view(&self) -> PageFrontMatterView {
        PageFrontMatterView {
            title: text_view(self.title),
            date: self.date@,
            slug: text_view(self.slug),
            draft: self.draft,
            extra: self.extra@,
        }
    }
}

impl PageFrontMatter {
    /// Front matter with these fields.
    pub fn new(
        title: Option<String>,
        date: String,
        slug: Option<String>,
        draft: bool,
        extra: KeyedMap<String>,
    ) -> (fm: PageFrontMatter)
        ensures
            fm@ == (PageFrontMatterView {
                title: text_view(title),
                date: date@,
                slug: text_view(slug),
                draft,
                extra: extra@,
            }),
    {
        PageFrontMatter { title, date, slug, draft, extra }
    }

    /// The slug that the front matter names, if it names one.
    pub fn slug(&self) -> (r: Option<&str>)
        ensures
            match r {
                Some(s) => self@.slug == Some(s@),
                None => self@.slug is None,
            },
    {
        match &self.slug {
            Some(s) => Some(s.as_str()),
            None => None,
        }
    }

    /// Whether the page is a draft.
    pub fn draft(&self) -> (r: bool)
        ensures
            r == self@.draft,
    {
        self.draft
    }
}

/// Why front matter does not make a page.
#[derive(Debug, Clone, Copy, PartialEq, Eq, Structural)]
pub enum PageError {
    /// Neither the front matter nor the name of the file gives a slug.
    NoSlug,
}

/// A page.
pub struct Page {
    slug: String,
    content: Option<String>,
    title: Option<String>,
    date: String,
    has_code_block: bool,
    draft: bool,
    extra: KeyedMap<String>,
}

/// A `Page` as a mathematical value.
pub struct PageView {
    pub slug: Seq<char>,
    pub content: Option<Seq<char>>,
    pub title: Option<Seq<char>>,
    pub date: Seq<char>,
    pub has_code_block: bool,
    pub draft: bool,
    pub extra: Map<Seq<char>, Seq<char>>,
}

impl View for Page {
    type V = PageView;

    closed spec fn view(&self) -> PageView {
        PageView {
            slug: self.slug@,
            content: text_view(self.content),
            title: text_view(self.title),
            date: self.date@,
            has_code_block: self.has_code_block,
            draft: self.draft,
            extra: self.extra@,
        }
    }
}

/// The slug of the page of a source file: the one that the front matter
/// names, else the one that the name of the file gives.
pub open spec fn page_slug(fm: PageFrontMatterView, path: Seq<char>) -> Option<Seq<char>> {
    match fm.slug {
        Some(slug) => Some(slug),
        None => slug_of_path(path),
    }
}

/// The page that front matter makes under a slug: no content yet, and no
/// code block seen.
pub open spec fn fresh_page(fm: PageFrontMatterView, slug: Seq<char>) -> PageView {
    PageView {
        slug,
        content: None,
        title: fm.title,
        date: fm.date,
        has_code_block: false,
        draft: fm.draft,
        extra: fm.extra,
    }
}

impl Page {
    /// The page of a source file, from its front matter and its path. There
    /// is no page where neither names a slug.
    pub fn try_from_front_matter(front_matter: PageFrontMatter, file_path: &str) -> (r: Result<
        Page,
        PageError,
    >)
        ensures
            match r {
                Ok(page) => page_slug(front_matter@, file_path@) is Some && page@ == fresh_page(
                    front_matter@,
                    page_slug(front_matter@, file_path@)->0,
                ),
                Err(e) => page_slug(front_matter@, file_path@) is None && e == PageError::NoSlug,
            },
    {
        let PageFrontMatter { title, date, slug, draft, extra } = front_matter;
        let slug = match slug {
            Some(slug) => slug,
            None => match try_get_slug_from_path(file_path) {
                Some(slug) => slug,
                None => {
                    return Err(PageError::NoSlug);
                },
            },
        };
        Ok(Page { slug, content: None, title, date, has_code_block: false, draft, extra })
    }

    /// The slug of the page.
    pub fn slug(&self) -> (s: &str)
        ensures
            s@ == self@.slug,
    {
        self.slug.as_str()
    }

    /// Sets the rendered content of the page.
    pub fn set_content(&mut self, content: String) -> (page: &mut Self)
        ensures
            page@ == (PageView { content: Some(content@), ..old(self)@ }),
            *final(self) == *final(page),
    {
        self.content = Some(content);
        self
    }

    /// Says whether the content of the page holds a code block.
    pub fn set_has_code_block(&mut self, has_code_block: bool) -> (page: &mut Self)
        ensures
            page@ == (PageView { has_code_block, ..old(self)@ }),
            *final(self) == *final(page),
    {
        self.has_code_block = has_code_block;
        self
    }
}

/// What the index lists of a page. The title is escaped for HTML.
pub struct PartialPage {
    slug: String,
    title: Option<String>,
    date: String,
    draft: bool,
}

/// A `PartialPage` as a mathematical value.
pub struct PartialPageView {
    pub slug: Seq<char>,
    pub title: Option<Seq<char>>,
    pub date: Seq<char>,
    pub draft: bool,
}

impl View for PartialPage {
    type V = PartialPageView;

    closed spec fn view(&self) -> PartialPageView {
        PartialPageView {
            slug: self.slug@,
            title: text_view(self.title),
            date: self.date@,
            draft: self.draft,
        }
    }
}

/// What the index lists of a page: its slug, its title escaped for HTML,
/// its date, and whether it is a draft.
pub open spec fn partial_of(page: PageView) -> PartialPageView {
    PartialPageView {
        slug: page.slug,
        title: match page.title {
            Some(title) => Some(html_escaped(title)),
            None => None,
        },
        date: page.date,
        draft: page.draft,
    }
}

impl PartialPage {
    /// What the index lists of `page`.
    pub fn from(page: Page) -> (partial: PartialPage)
        ensures
            partial@ == partial_of(page@),
    {
        let Page { slug, title, date, draft, .. } = page;
        let title = match title {
            Some(title) => Some(escape_html(title.as_str())),
            None => None,
        };
        PartialPage { slug, title, date, draft }
    }

    /// The slug of the page.
    pub fn slug(&self) -> (s: &str)
        ensures
            s@ == self@.slug,
    {
        self.slug.as_str()
    }

    /// The escaped title of the page, if it has one.
    pub fn title(&self) -> (r: Option<&str>)
        ensures
            match r {
                Some(s) => self@.title == Some(s@),
                None => self@.title is None,
            },
    {
        match &self.title {
            Some(s) => Some(s.as_str()),
            None => None,
        }
    }

    /// The date of the page.
    pub fn date(&self) -> (s: &str)
        ensures
            s@ == self@.date,
    {
        self.date.as_str()
    }

    /// Whether the page is a draft.
    pub fn draft(&self) -> (r: bool)
        ensures
            r == self@.draft,
    {
        self.draft
    }
}

/// The escaped form of an optional text.
pub open spec fn escaped_option(text: Option<Seq<char>>) -> Option<Seq<char>> {
    match text {
        Some(t) => Some(html_escaped(t)),
        None => None,
    }
}

/// What the page template reads of a page's own fields. The title is
/// escaped; the content is not.
pub open spec fn page_fields(page: PageView) -> Map<Seq<char>, Json> {
    no_entries().insert("content"@, optional_text_json(page.content)).insert(
        "slug"@,
        Json::Text(page.slug),
    ).insert("title"@, optional_text_json(escaped_option(page.title))).insert(
        "date"@,
        Json::Text(page.date),
    ).insert("has_code_block"@, Json::Flag(page.has_code_block)).insert(
        "draft"@,
        Json::Flag(page.draft),
    )
}

/// What the page template reads of a page: its own fields, and what else
/// the front matter declared, escaped. A declared name takes the place of a
/// field of the same name.
pub open spec fn page_context(page: PageView) -> Map<Seq<char>, Json> {
    Map::new(
        |k: Seq<char>| page_fields(page).contains_key(k) || page.extra.contains_key(k),
        |k: Seq<char>|
            if page.extra.contains_key(k) {
                Json::Text(html_escaped(page.extra[k]))
            } else {
                page_fields(page)[k]
            },
    )
}

/// The fields of a page with those of the declared names in `done` put in
/// their place.
pub open spec fn with_declared(
    fields: Map<Seq<char>, Json>,
    extra: Map<Seq<char>, Seq<char>>,
    done: Set<Seq<char>>,
) -> Map<Seq<char>, Json> {
    Map::new(
        |k: Seq<char>| fields.contains_key(k) || done.contains(k),
        |k: Seq<char>|
            if done.contains(k) {
                Json::Text(html_escaped(extra[k]))
            } else {
                fields[k]
            },
    )
}

/// What the index template reads of one page.
pub open spec fn partial_fields(page: PartialPageView) -> Map<Seq<char>, Json> {
    no_entries().insert("slug"@, Json::Text(page.slug)).insert(
        "title"@,
        optional_text_json(page.title),
    ).insert("date"@, Json::Text(page.date)).insert("draft"@, Json::Flag(page.draft))
}

impl PartialPage {
    /// The page as a value for the index template: an object with the
    /// fields `slug`, `title`, `date` and `draft`.
    pub fn to_value(&self) -> (value: tera::Value)
        ensures
            json_of(value) == Json::Object(partial_fields(self@)),
    {
        let mut fields = object_new();
        object_insert(&mut fields, "slug".to_owned(), value_text(self.slug.as_str()));
        object_insert(&mut fields, "title".to_owned(), value_optional_text(self.title()));
        object_insert(&mut fields, "date".to_owned(), value_text(self.date.as_str()));
        object_insert(&mut fields, "draft".to_owned(), value_flag(self.draft));
        value_object(fields)
    }
}

impl Page {
    /// What the page template reads of the page.
    pub fn context(&self) -> (context: tera::Context)
        ensures
            context_entries(context) == page_context(self@),
    {
        let mut context = context_new();
        context_insert(&mut context, "content", &value_optional_text(
            match &self.content {
                Some(c) => Some(c.as_str()),
                None => None,
            },
        ));
        context_insert(&mut context, "slug", &value_text(self.slug.as_str()));
        let title = match &self.title {
            Some(t) => Some(escape_html(t.as_str())),
            None => None,
        };
        context_insert(&mut context, "title", &value_optional_text(
            match &title {
                Some(t) => Some(t.as_str()),
                None => None,
            },
        ));
        context_insert(&mut context, "date", &value_text(self.date.as_str()));
        context_insert(&mut context, "has_code_block", &value_flag(self.has_code_block));
        context_insert(&mut context, "draft", &value_flag(self.draft));
        let n = self.extra.len();
        let ghost keys = self.extra.keys();
        let ghost fields = page_fields(self@);
        let ghost extra = self@.extra;
        let mut i: usize = 0;
        proof {
            assert(keys.subrange(0, 0).to_set() =~= Set::<Seq<char>>::empty());
            assert(context_entries(context) =~= with_declared(fields, extra, Set::empty()));
        }
        while i < n
            invariant
                i <= n,
                n == keys.len(),
                keys == self.extra.keys(),
                extra == self.extra@,
                self.extra.listed(),
                context_entries(context) == with_declared(
                    fields,
                    extra,
                    keys.subrange(0, i as int).to_set(),
                ),
            decreases n - i,
        {
            let key = self.extra.key_at(i);
            let value = escape_html(self.extra.value_at(i).as_str());
            context_insert(&mut context, key.as_str(), &value_text(value.as_str()));
            proof {
                let done = keys.subrange(0, i as int);
                assert(keys.subrange(0, i + 1) =~= done.push(key@));
                done.lemma_push_to_set_commute(key@);
                assert(context_entries(context) =~= with_declared(
                    fields,
                    extra,
                    done.to_set().insert(key@),
                ));
            }
            i += 1;
        }
        proof {
            assert(keys.subrange(0, n as int) =~= keys);
            assert(context_entries(context) =~= page_context(self@));
        }
        context
    }

    /// Renders the page with the template `page.html` of `engine`, which
    /// reads what `context` gives. The text is the engine's; a failure is
    /// the engine's too. An engine without a template `page.html` fails,
    /// and the failure names that template.
    pub fn parbake(&self, engine: &tera::Tera) -> (r: Result<String, RenderError>)
        ensures
            !template_names(*engine).contains("page.html"@) ==> r is Err && reports_missing(
                r->Err_0,
                "page.html"@,
            ),
    {
        let context = self.context();
        render_outcome(tera_render(engine, "page.html", &context))
    }
}

} // verus!
