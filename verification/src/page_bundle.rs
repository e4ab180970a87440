//! The pages that the index lists.
use crate::page::Page;
use crate::page::PartialPage;
use crate::page::partial_fields;
use crate::page::PartialPageView;
use crate::render::context_entries;
use crate::render::context_insert;
use crate::render::context_new;
use crate::render::json_of;
use crate::render::jsons_of;
use crate::render::no_entries;
use crate::render::render_outcome;
use crate::render::reports_missing;
use crate::render::template_names;
use crate::render::tera_render;
use crate::render::value_list;
use crate::render::Json;
use crate::render::RenderError;
use crate::sorting::is_stable_sort_of;
use crate::sorting::sort_stable;
use crate::sorting::views;
use crate::sorting::Ranking;
use crate::text::str_le;
use crate::text::text_le;
use vstd::prelude::*;

verus! {

/// The ranking of pages for the index: by date, the latest first. Dates are
/// compared as text.
pub struct NewestFirst;

impl Ranking<PartialPage> for NewestFirst {
    open spec fn rank_le(a: PartialPageView, b: PartialPageView) -> bool {
        text_le(b.date, a.date)
    }

    proof fn lemma_rank_total(a: PartialPageView, b: PartialPageView) {
        crate::text::lemma_text_le_total_order();
    }

    proof fn lemma_rank_transitive(a: PartialPageView, b: PartialPageView, c: PartialPageView) {
        crate::text::lemma_text_le_total_order();
    }

    fn ranks_before(a: &PartialPage, b: &PartialPage) -> (r: bool) {
        str_le(b.date(), a.date())
    }
}

/// The pages that the index lists, in the order in which it lists them.
pub struct PageBundle {
    pages: Vec<PartialPage>,
}

impl View for PageBundle {
    type V = Seq<PartialPageView>;

    closed spec fn view(&self) -> Seq<PartialPageView> {
        views(self.pages@)
    }
}

impl Default for PageBundle {
    fn default() -> (bundle: Self)
        ensures
            bundle@ == Seq::<PartialPageView>::empty(),
    {
        let bundle = PageBundle { pages: Vec::new() };
        proof {
            assert(bundle@ =~= Seq::<PartialPageView>::empty());
        }
        bundle
    }
}

impl PageBundle {
    /// The pages, in the order of the bundle.
    pub fn pages(&self) -> (pages: &[PartialPage])
        ensures
            views(pages@) == self@,
    {
        self.pages.as_slice()
    }

    /// Adds what the index lists of `page` at the end of the bundle.
    pub fn add_page(&mut self, page: Page) -> (bundle: &mut Self)
        ensures
            bundle@ == old(self)@.push(crate::page::partial_of(page@)),
            *final(self) == *final(bundle),
    {
        let partial = PartialPage::from(page);
        let ghost before = self@;
        self.pages.push(partial);
        proof {
            assert(self@ =~= before.push(partial@));
        }
        self
    }

    /// Puts the pages in the order of the index: the latest date first, and
    /// pages of one date in the order in which they were added.
    pub fn sort_pages(&mut self)
        ensures
            is_stable_sort_of::<PartialPage, NewestFirst>(final(self)@, old(self)@),
    {
        let mut pages: Vec<PartialPage> = Vec::new();
        core::mem::swap(&mut pages, &mut self.pages);
        self.pages = sort_stable::<PartialPage, NewestFirst>(pages);
    }
}

/// What the index template reads of a bundle: under `pages`, the list of
/// its pages in order, each with its four fields.
pub open spec fn bundle_context(pages: Seq<PartialPageView>) -> Map<Seq<char>, Json> {
    no_entries().insert(
        "pages"@,
        Json::List(pages.map_values(|p: PartialPageView| Json::Object(partial_fields(p)))),
    )
}

impl PageBundle {
    /// What the index template reads of the bundle.
    pub fn context(&self) -> (context: tera::Context)
        ensures
            context_entries(context) == bundle_context(self@),
    {
        let mut values: Vec<tera::Value> = Vec::new();
        let mut i: usize = 0;
        while i < self.pages.len()
            invariant
                i <= self.pages@.len(),
                values@.len() == i,
                forall|j: int|
                    0 <= j < i ==> json_of(#[trigger] values@[j]) == Json::Object(
                        partial_fields(self.pages@[j]@),
                    ),
            decreases self.pages@.len() - i,
        {
            values.push(self.pages[i].to_value());
            i += 1;
        }
        proof {
            assert(jsons_of(values@) =~= self@.map_values(
                |p: PartialPageView| Json::Object(partial_fields(p)),
            ));
        }
        let mut context = context_new();
        context_insert(&mut context, "pages", &value_list(values));
        context
    }

    /// Renders the index with the template `index.html` of `engine`, which
    /// reads what `context` gives. Sort the pages first: the template lists
    /// them in the order of the bundle. An engine without a template
    /// `index.html` fails, and the failure names that template.
    pub fn parbake(&self, engine: &tera::Tera) -> (r: Result<String, RenderError>)
        ensures
            !template_names(*engine).contains("index.html"@) ==> r is Err && reports_missing(
                r->Err_0,
                "index.html"@,
            ),
    {
        let context = self.context();
        render_outcome(tera_render(engine, "index.html", &context))
    }
}

} // verus!
