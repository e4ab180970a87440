//! The front matter of a post and what the front page shows of it.
use crate::keyed::KeyedMap;
use crate::page::text_view;
use vstd::prelude::*;

verus! {

/// The front matter of a post: a title and a date, and what else the post
/// declares.
pub struct PageFrontMatter {
    title: String,
    date: String,
    slug: Option<String>,
    draft: bool,
    all_else: KeyedMap<String>,
}

/// A `PageFrontMatter` as a mathematical value.
pub struct PageFrontMatterView {
    pub title: Seq<char>,
    pub date: Seq<char>,
    pub slug: Option<Seq<char>>,
    pub draft: bool,
    pub all_else: Map<Seq<char>, Seq<char>>,
}

impl View for PageFrontMatter {
    type V = PageFrontMatterView;

    closed spec fn view(&self) -> PageFrontMatterView {
        PageFrontMatterView {
            title: self.title@,
            date: self.date@,
            slug: text_view(self.slug),
            draft: self.draft,
            all_else: self.all_else@,
        }
    }
}

impl PageFrontMatter {
    /// Front matter with these fields.
    pub fn new(
        title: String,
        date: String,
        slug: Option<String>,
        draft: bool,
        all_else: KeyedMap<String>,
    ) -> (fm: PageFrontMatter)
        ensures
            fm@ == (PageFrontMatterView {
                title: title@,
                date: date@,
                slug: text_view(slug),
                draft,
                all_else: all_else@,
            }),
    {
        PageFrontMatter { title, date, slug, draft, all_else }
    }

    /// The title of the post.
    pub fn title(&self) -> (s: &str)
        ensures
            s@ == self@.title,
    {
        self.title.as_str()
    }

    /// The date of the post.
    pub fn date(&self) -> (s: &str)
        ensures
            s@ == self@.date,
    {
        self.date.as_str()
    }

    /// The slug that the front matter names, if it names one.
    pub fn slug(&self) -> (r: Option<&str>)
        ensures
            match r {
                Some(s) => self@.slug == Some(s@),
                None => self@.slug is None,
            },
    {
        match &self.slug {
            Some(s) => Some(s.as_str()),
            None => None,
        }
    }

    /// Whether the post is a draft.
    pub fn draft(&self) -> (r: bool)
        ensures
            r == self@.draft,
    {
        self.draft
    }

    /// What the front matter declares besides title, date, slug and draft.
    pub fn all_else(&self) -> (m: &KeyedMap<String>)
        ensures
            m@ == self@.all_else,
    {
        &self.all_else
    }
}

/// What the front page shows of a post.
pub struct FrontPageInfo {
    title: String,
    date: String,
    slug: String,
}

/// A `FrontPageInfo` as a mathematical value.
pub struct FrontPageInfoView {
    pub title: Seq<char>,
    pub date: Seq<char>,
    pub slug: Seq<char>,
}

impl View for FrontPageInfo {
    type V = FrontPageInfoView;

    closed spec fn view(&self) -> FrontPageInfoView {
        FrontPageInfoView { title: self.title@, date: self.date@, slug: self.slug@ }
    }
}

/// The map from the names `title`, `date` and `slug` to what `info` holds
/// under them.
pub open spec fn info_map(info: FrontPageInfoView) -> Map<Seq<char>, Seq<char>> {
    Map::<Seq<char>, Seq<char>>::empty().insert("title"@, info.title).insert(
        "date"@,
        info.date,
    ).insert("slug"@, info.slug)
}

impl FrontPageInfo {
    /// What the front page shows of a post with this title, date and slug.
    pub fn new(title: String, date: String, slug: String) -> (info: FrontPageInfo)
        ensures
            info@ == (FrontPageInfoView { title: title@, date: date@, slug: slug@ }),
    {
        FrontPageInfo { title, date, slug }
    }

    /// The title of the post.
    pub fn title(&self) -> (s: &str)
        ensures
            s@ == self@.title,
    {
        self.title.as_str()
    }

    /// The date of the post.
    pub fn date(&self) -> (s: &str)
        ensures
            s@ == self@.date,
    {
        self.date.as_str()
    }

    /// The slug of the post.
    pub fn slug(&self) -> (s: &str)
        ensures
            s@ == self@.slug,
    {
        self.slug.as_str()
    }

    /// The three fields by name, as a template takes them.
    pub fn to_map(&self) -> (m: KeyedMap<String>)
        ensures
            m@ == info_map(self@),
    {
        let mut m: KeyedMap<String> = KeyedMap::new();
        m.insert("title".to_owned(), self.title.clone());
        m.insert("date".to_owned(), self.date.clone());
        m.insert("slug".to_owned(), self.slug.clone());
        m
    }
}

} // verus!
