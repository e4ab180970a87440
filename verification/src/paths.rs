//! Paths as lists of components, and the order in which paths are compared:
//! component by component, each name by its bytes.
use crate::sorting::views;
use crate::text::str_eq;
use crate::text::str_le;
use crate::text::text_le;
use vstd::prelude::*;

verus! {

/// One component of a path.
#[derive(Debug)]
pub enum PathPart {
    /// A prefix such as a drive, with its text.
    Prefix(String),
    /// The root directory.
    Root,
    /// The directory itself, `.`.
    Current,
    /// The directory above, `..`.
    Parent,
    /// A file or directory, by its name.
    Name(String),
}

/// A `PathPart` as a mathematical value.
pub enum PathPartView {
    Prefix(Seq<char>),
    Root,
    Current,
    Parent,
    Name(Seq<char>),
}

impl View for PathPart {
    type V = PathPartView;

    open spec fn view(&self) -> PathPartView {
        match self {
            PathPart::Prefix(text) => PathPartView::Prefix(text@),
            PathPart::Root => PathPartView::Root,
            PathPart::Current => PathPartView::Current,
            PathPart::Parent => PathPartView::Parent,
            PathPart::Name(name) => PathPartView::Name(name@),
        }
    }
}

/// The place of a kind of component among the kinds: a prefix first, then
/// the root, `.`, `..`, and names last.
pub open spec fn part_rank(part: PathPartView) -> int {
    match part {
        PathPartView::Prefix(_) => 0,
        PathPartView::Root => 1,
        PathPartView::Current => 2,
        PathPartView::Parent => 3,
        PathPartView::Name(_) => 4,
    }
}

/// The text that a component carries: none but for a prefix and a name.
pub open spec fn part_text(part: PathPartView) -> Seq<char> {
    match part {
        PathPartView::Prefix(text) => text,
        PathPartView::Name(name) => name,
        _ => Seq::empty(),
    }
}

/// The order of two components: by kind, and within a kind by the bytes of
/// the text.
pub open spec fn part_le(a: PathPartView, b: PathPartView) -> bool {
    part_rank(a) < part_rank(b) || (part_rank(a) == part_rank(b) && text_le(
        part_text(a),
        part_text(b),
    ))
}

/// The order of two paths: the first components that differ decide, and a
/// path comes before the paths that continue it.
pub open spec fn parts_le(a: Seq<PathPartView>, b: Seq<PathPartView>) -> bool
    decreases a.len(),
{
    if a.len() == 0 {
        true
    } else if b.len() == 0 {
        false
    } else if a[0] != b[0] {
        part_le(a[0], b[0])
    } else {
        parts_le(a.drop_first(), b.drop_first())
    }
}

/// Components of one kind with one text are the same component.
pub proof fn lemma_part_by_rank_and_text(a: PathPartView, b: PathPartView)
    requires
        part_rank(a) == part_rank(b),
        part_text(a) == part_text(b),
    ensures
        a == b,
{
}

/// `parts_le` is reflexive.
pub proof fn lemma_parts_le_reflexive(a: Seq<PathPartView>)
    ensures
        parts_le(a, a),
    decreases a.len(),
{
    if a.len() > 0 {
        lemma_parts_le_reflexive(a.drop_first());
    }
}

/// `parts_le` is antisymmetric.
pub proof fn lemma_parts_le_antisymmetric(a: Seq<PathPartView>, b: Seq<PathPartView>)
    requires
        parts_le(a, b),
        parts_le(b, a),
    ensures
        a == b,
    decreases a.len(),
{
    crate::text::lemma_text_le_total_order();
    if a.len() > 0 && b.len() > 0 {
        if a[0] != b[0] {
            lemma_part_by_rank_and_text(a[0], b[0]);
        }
        lemma_parts_le_antisymmetric(a.drop_first(), b.drop_first());
        assert(a =~= seq![a[0]] + a.drop_first());
        assert(b =~= seq![b[0]] + b.drop_first());
    } else {
        assert(a =~= b);
    }
}

/// `parts_le` is transitive.
pub proof fn lemma_parts_le_transitive(
    a: Seq<PathPartView>,
    b: Seq<PathPartView>,
    c: Seq<PathPartView>,
)
    requires
        parts_le(a, b),
        parts_le(b, c),
    ensures
        parts_le(a, c),
    decreases a.len(),
{
    crate::text::lemma_text_le_total_order();
    if a.len() > 0 && b.len() > 0 && c.len() > 0 {
        if a[0] == b[0] && b[0] == c[0] {
            lemma_parts_le_transitive(a.drop_first(), b.drop_first(), c.drop_first());
        } else if a[0] == c[0] {
            lemma_part_by_rank_and_text(a[0], b[0]);
        }
    }
}

/// Any two paths are comparable under `parts_le`.
pub proof fn lemma_parts_le_total(a: Seq<PathPartView>, b: Seq<PathPartView>)
    ensures
        parts_le(a, b) || parts_le(b, a),
    decreases a.len(),
{
    crate::text::lemma_text_le_total_order();
    if a.len() > 0 && b.len() > 0 && a[0] == b[0] {
        lemma_parts_le_total(a.drop_first(), b.drop_first());
    }
}

/// Two paths that agree on their first `i` components compare as their
/// remainders do.
pub proof fn lemma_parts_le_skip(a: Seq<PathPartView>, b: Seq<PathPartView>, i: int)
    requires
        0 <= i <= a.len(),
        i <= b.len(),
        a.subrange(0, i) == b.subrange(0, i),
    ensures
        parts_le(a, b) == parts_le(a.skip(i), b.skip(i)),
        (a == b) == (a.skip(i) == b.skip(i)),
    decreases i,
{
    if i == 0 {
        assert(a.skip(0) =~= a);
        assert(b.skip(0) =~= b);
    } else {
        assert(a[0] == a.subrange(0, i)[0]);
        assert(b[0] == b.subrange(0, i)[0]);
        let a1 = a.drop_first();
        let b1 = b.drop_first();
        assert(a1.subrange(0, i - 1) =~= a.subrange(0, i).drop_first());
        assert(b1.subrange(0, i - 1) =~= b.subrange(0, i).drop_first());
        lemma_parts_le_skip(a1, b1, i - 1);
        assert(a1.skip(i - 1) =~= a.skip(i));
        assert(b1.skip(i - 1) =~= b.skip(i));
        assert(a =~= seq![a[0]] + a1);
        assert(b =~= seq![b[0]] + b1);
    }
}

impl PathPart {
    /// The place of the component's kind among the kinds.
    pub fn rank(&self) -> (r: u8)
        ensures
            r == part_rank(self@),
    {
        match self {
            PathPart::Prefix(_) => 0,
            PathPart::Root => 1,
            PathPart::Current => 2,
            PathPart::Parent => 3,
            PathPart::Name(_) => 4,
        }
    }

    /// The text that the component carries.
    pub fn text(&self) -> (s: &str)
        ensures
            s@ == part_text(self@),
    {
        match self {
            PathPart::Prefix(text) => text.as_str(),
            PathPart::Name(name) => name.as_str(),
            _ => {
                let none = "";
                proof {
                    reveal_strlit("");
                    assert(none@ =~= Seq::<char>::empty());
                }
                none
            },
        }
    }

    /// Whether two components are the same.
    pub fn same_as(&self, other: &PathPart) -> (r: bool)
        ensures
            r == (self@ == other@),
    {
        let r = self.rank() == other.rank() && str_eq(self.text(), other.text());
        proof {
            if r {
                lemma_part_by_rank_and_text(self@, other@);
            }
        }
        r
    }

    /// Whether the component comes at or before `other`.
    pub fn comes_before(&self, other: &PathPart) -> (r: bool)
        ensures
            r == part_le(self@, other@),
    {
        let a = self.rank();
        let b = other.rank();
        a < b || (a == b && str_le(self.text(), other.text()))
    }
}

/// How two paths compare: whether they are the same, and whether the first
/// comes at or before the second.
pub fn compare_paths(a: &Vec<PathPart>, b: &Vec<PathPart>) -> (r: (bool, bool))
    ensures
        r.0 == (views(a@) == views(b@)),
        r.1 == parts_le(views(a@), views(b@)),
{
    let ghost x = views(a@);
    let ghost y = views(b@);
    let mut i: usize = 0;
    while i < a.len() && i < b.len()
        invariant
            i <= a@.len(),
            i <= b@.len(),
            x == views(a@),
            y == views(b@),
            x.subrange(0, i as int) == y.subrange(0, i as int),
        decreases a@.len() - i,
    {
        proof {
            lemma_parts_le_skip(x, y, i as int);
            assert(x.skip(i as int)[0] == a@[i as int]@);
            assert(y.skip(i as int)[0] == b@[i as int]@);
        }
        if !a[i].same_as(&b[i]) {
            return (false, a[i].comes_before(&b[i]));
        }
        proof {
            assert(x.subrange(0, i + 1) =~= x.subrange(0, i as int).push(x[i as int]));
            assert(y.subrange(0, i + 1) =~= y.subrange(0, i as int).push(y[i as int]));
        }
        i += 1;
    }
    proof {
        lemma_parts_le_skip(x, y, i as int);
        if i == a@.len() && i == b@.len() {
            assert(x.skip(i as int) =~= y.skip(i as int));
        } else {
            assert(x.skip(i as int).len() != y.skip(i as int).len());
        }
    }
    (i == a.len() && i == b.len(), i == a.len())
}

} // verus!
