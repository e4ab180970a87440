//! The staleness cache: two generations of known resources, the questions
//! that the difference between them answers, and the step that makes the
//! new generation the current one.
use crate::checksum::checksum_text;
use crate::checksum::Checksum;
use crate::file_state::needs_checksum;
use crate::file_state::resolve;
use crate::file_state::same_state;
use crate::file_state::state_view;
use crate::file_state::ChecksumNeeded;
use crate::file_state::EntryStat;
use crate::file_state::FastCheck;
use crate::file_state::FileState;
use crate::file_state::FileStateView;
use crate::file_state::Observation;
use crate::file_state::Timestamp;
use crate::file_state::ObservationView;
use crate::keyed::KeyedMap;
use crate::sorting::rank_relation;
use crate::sorting::sort_stable;
use crate::sorting::views;
use crate::sorting::Ranking;
use crate::text::count_occurrences;
use crate::text::occurrences;
use vstd::prelude::*;
use vstd::utf8::encode_utf8;

verus! {

/// One snapshot of what is known of the resources.
pub struct Generation {
    content: KeyedMap<Checksum>,
    bulk: KeyedMap<FileState>,
    statics: KeyedMap<FileState>,
    index: Option<Checksum>,
}

/// A `Generation` as a mathematical value.
pub struct GenerationView {
    /// Page slug to the checksum of the page's source.
    pub content: Map<Seq<char>, Seq<char>>,
    /// Path to state, for the files whose change rebuilds every page.
    pub bulk: Map<Seq<char>, FileStateView>,
    /// Relative path to state, for the entries under the static root.
    pub statics: Map<Seq<char>, FileStateView>,
    /// The checksum of the sorted page list.
    pub index: Option<Seq<char>>,
}

/// The generation that knows nothing.
pub open spec fn empty_generation() -> GenerationView {
    GenerationView {
        content: Map::empty(),
        bulk: Map::empty(),
        statics: Map::empty(),
        index: None,
    }
}

/// The view of an optional checksum.
pub open spec fn checksum_view(c: Option<Checksum>) -> Option<Seq<char>> {
    match c {
        Some(c) => Some(c@),
        None => None,
    }
}

impl View for Generation {
    type V = GenerationView;

    closed spec fn view(&self) -> GenerationView {
        GenerationView {
            content: self.content@,
            bulk: self.bulk@,
            statics: self.statics@,
            index: checksum_view(self.index),
        }
    }
}

impl Generation {
    /// A generation that knows nothing.
    pub fn new() -> (g: Generation)
        ensures
            g@ == empty_generation(),
    {
        Generation {
            content: KeyedMap::new(),
            bulk: KeyedMap::new(),
            statics: KeyedMap::new(),
            index: None,
        }
    }

    /// The checksums of the pages, by slug.
    pub fn content(&self) -> (m: &KeyedMap<Checksum>)
        ensures
            m@ == self@.content,
    {
        &self.content
    }

    /// The states of the files whose change rebuilds every page.
    pub fn bulk(&self) -> (m: &KeyedMap<FileState>)
        ensures
            m@ == self@.bulk,
    {
        &self.bulk
    }

    /// The states of the entries under the static root.
    pub fn statics(&self) -> (m: &KeyedMap<FileState>)
        ensures
            m@ == self@.statics,
    {
        &self.statics
    }

    /// The checksum of the sorted page list, if one is known.
    pub fn index(&self) -> (c: Option<&Checksum>)
        ensures
            match c {
                Some(c) => self@.index == Some(c@),
                None => self@.index is None,
            },
    {
        match &self.index {
            Some(c) => Some(c),
            None => None,
        }
    }
}

/// The cache: the generation of the last committed run, the generation that
/// this run is building, and whether this run found the bulk files changed.
pub struct StateManager {
    current: Generation,
    next: Generation,
    bulk_changed: bool,
}

/// A `StateManager` as a mathematical value.
pub struct StateView {
    pub current: GenerationView,
    pub next: GenerationView,
    pub bulk_changed: bool,
}

impl View for StateManager {
    type V = StateView;

    closed spec fn view(&self) -> StateView {
        StateView { current: self.current@, next: self.next@, bulk_changed: self.bulk_changed }
    }
}

/// What `key` maps to, if anything.
pub open spec fn lookup<V>(m: Map<Seq<char>, V>, key: Seq<char>) -> Option<V> {
    if m.contains_key(key) {
        Some(m[key])
    } else {
        None
    }
}

/// A page is rebuilt where the bulk files changed in this run, where the last
/// committed run did not know the page, or where the page's checksum is not
/// the one of the last committed run.
pub open spec fn should_rebuild_page_of(s: StateView, slug: Seq<char>) -> bool {
    ||| s.bulk_changed
    ||| !s.current.content.contains_key(slug)
    ||| lookup(s.current.content, slug) != lookup(s.next.content, slug)
}

/// The index is rebuilt where the bulk files changed in this run or the
/// checksum of the page list is not the one of the last committed run.
pub open spec fn should_rebuild_index_of(s: StateView) -> bool {
    s.bulk_changed || s.current.index != s.next.index
}

/// A page's content has changed where the last committed run did not know
/// the page or knew it with another checksum.
pub open spec fn contents_changed_of(s: StateView, slug: Seq<char>, checksum: Seq<char>) -> bool {
    lookup(s.current.content, slug) != Some(checksum)
}

/// What a list of observations makes of the bulk files: the states to keep
/// from now on and whether any observed file has changed, or `None` where an
/// observation lacks a checksum that is needed. Each file is held against
/// the state that `current` has of it; a later observation of a path
/// replaces an earlier one.
pub open spec fn bulk_fold(
    current: Map<Seq<char>, FileStateView>,
    seen: Seq<(Seq<char>, ObservationView)>,
) -> Option<(Map<Seq<char>, FileStateView>, bool)>
    decreases seen.len(),
{
    if seen.len() == 0 {
        Some((Map::empty(), false))
    } else {
        match bulk_fold(current, seen.drop_last()) {
            None => None,
            Some((states, changed)) => match resolve(
                lookup(current, seen.last().0),
                seen.last().1,
            ) {
                None => None,
                Some((state, c)) => Some((states.insert(seen.last().0, state), changed || c)),
            },
        }
    }
}

/// The bulk files have changed where an observed file has changed or a file
/// that `current` knows was not observed.
pub open spec fn bulk_outcome(
    current: Map<Seq<char>, FileStateView>,
    seen: Seq<(Seq<char>, ObservationView)>,
) -> Option<(Map<Seq<char>, FileStateView>, bool)> {
    match bulk_fold(current, seen) {
        None => None,
        Some((states, changed)) => Some(
            (states, changed || !current.dom().subset_of(states.dom())),
        ),
    }
}

/// Two maps of states have the same keys, with equal states.
pub open spec fn same_states(
    a: Map<Seq<char>, FileStateView>,
    b: Map<Seq<char>, FileStateView>,
) -> bool {
    &&& a.dom() == b.dom()
    &&& forall|k: Seq<char>| #[trigger] a.contains_key(k) ==> same_state(a[k], b[k])
}

/// Two generations are equal: the same pages with the same checksums, the
/// same files and entries with equal states, and the same index checksum.
pub open spec fn same_generation(a: GenerationView, b: GenerationView) -> bool {
    &&& a.content == b.content
    &&& same_states(a.bulk, b.bulk)
    &&& same_states(a.statics, b.statics)
    &&& a.index == b.index
}

/// A run ends with a write of the state file where the generation that it
/// built is not equal to the last committed one.
pub open spec fn needs_write_of(s: StateView) -> bool {
    !same_generation(s.next, s.current)
}

/// The state after a commit: what the run built is the current generation,
/// and the next run starts from nothing.
pub open spec fn committed(s: StateView) -> StateView {
    StateView { current: s.next, next: empty_generation(), bulk_changed: false }
}

/// Why a commit did not happen.
#[derive(Debug, Clone, Copy, PartialEq, Eq, Structural)]
pub enum CommitError {
    /// The generation that the run built differs from the last committed
    /// one and was not written to the state file.
    NotPersisted,
}

/// A run that builds a generation equal to the last committed one, and
/// finds the bulk files unchanged, rebuilds no page that the last committed
/// run knew, does not rebuild the index, and ends without a write.
pub proof fn lemma_unchanged_run_is_idle(s: StateView)
    requires
        same_generation(s.next, s.current),
        !s.bulk_changed,
    ensures
        forall|slug: Seq<char>| #[trigger]
            s.current.content.contains_key(slug) ==> !should_rebuild_page_of(s, slug),
        !should_rebuild_index_of(s),
        !needs_write_of(s),
{
}

/// A page that the last committed run did not know is rebuilt, whatever its
/// checksum.
pub proof fn lemma_new_page_is_rebuilt(s: StateView, slug: Seq<char>)
    requires
        !s.current.content.contains_key(slug),
    ensures
        should_rebuild_page_of(s, slug),
{
}

/// What recording a list of pages, one after the other, makes of the
/// pages of the generation being built.
pub open spec fn record_pages(
    content: Map<Seq<char>, Seq<char>>,
    pages: Seq<(Seq<char>, Seq<char>)>,
) -> Map<Seq<char>, Seq<char>>
    decreases pages.len(),
{
    if pages.len() == 0 {
        content
    } else {
        record_pages(content, pages.drop_last()).insert(pages.last().0, pages.last().1)
    }
}

/// The slugs that a list of pages names.
pub open spec fn named_pages(pages: Seq<(Seq<char>, Seq<char>)>) -> Set<Seq<char>> {
    Set::new(|k: Seq<char>| exists|i: int| 0 <= i < pages.len() && (#[trigger] pages[i]).0 == k)
}

/// Each page of the list is known, with the checksum that it has in the
/// list.
pub open spec fn pages_as_known(
    current: Map<Seq<char>, Seq<char>>,
    pages: Seq<(Seq<char>, Seq<char>)>,
) -> bool {
    forall|i: int|
        0 <= i < pages.len() ==> current.contains_key((#[trigger] pages[i]).0)
            && current[pages[i].0] == pages[i].1
}

proof fn lemma_record_pages_as_known(
    current: Map<Seq<char>, Seq<char>>,
    pages: Seq<(Seq<char>, Seq<char>)>,
)
    requires
        pages_as_known(current, pages),
    ensures
        record_pages(Map::empty(), pages) == current.restrict(named_pages(pages)),
    decreases pages.len(),
{
    if pages.len() == 0 {
        assert(current.restrict(named_pages(pages)) =~= Map::empty());
    } else {
        let front = pages.drop_last();
        assert forall|i: int| 0 <= i < front.len() implies current.contains_key(
            (#[trigger] front[i]).0,
        ) && current[front[i].0] == front[i].1 by {
            assert(front[i] == pages[i]);
        }
        lemma_record_pages_as_known(current, front);
        let last = pages.last();
        assert(pages[pages.len() - 1] == last);
        assert forall|k: Seq<char>| named_pages(pages).contains(k) <==> (named_pages(
            front,
        ).contains(k) || k == last.0) by {
            if named_pages(pages).contains(k) {
                let i = choose|i: int| 0 <= i < pages.len() && (#[trigger] pages[i]).0 == k;
                if i < front.len() {
                    assert(front[i].0 == k);
                }
            }
            if named_pages(front).contains(k) {
                let i = choose|i: int| 0 <= i < front.len() && (#[trigger] front[i]).0 == k;
                assert(pages[i].0 == k);
            }
        }
        assert(current.restrict(named_pages(front)).insert(last.0, last.1) =~= current.restrict(
            named_pages(pages),
        ));
    }
}

/// A run that finds every known page again, with its known checksum, records
/// the pages of the last committed run and no others: no page is rebuilt,
/// none is deleted.
pub proof fn lemma_rerun_records_known_pages(
    current: Map<Seq<char>, Seq<char>>,
    pages: Seq<(Seq<char>, Seq<char>)>,
)
    requires
        pages_as_known(current, pages),
        current.dom().subset_of(named_pages(pages)),
    ensures
        record_pages(Map::empty(), pages) == current,
        gone(current, record_pages(Map::empty(), pages)) == Set::<Seq<char>>::empty(),
{
    lemma_record_pages_as_known(current, pages);
    assert(current.restrict(named_pages(pages)) =~= current);
    assert(gone(current, current) =~= Set::<Seq<char>>::empty());
}

/// The paths that a list of observations names.
pub open spec fn observed_paths(seen: Seq<(Seq<char>, ObservationView)>) -> Set<Seq<char>> {
    Set::new(|k: Seq<char>| exists|i: int| 0 <= i < seen.len() && (#[trigger] seen[i]).0 == k)
}

/// Each observed path is known as a file and still has the time and the
/// size that are known of it.
pub open spec fn all_as_known(
    current: Map<Seq<char>, FileStateView>,
    seen: Seq<(Seq<char>, ObservationView)>,
) -> bool {
    forall|i: int|
        0 <= i < seen.len() ==> {
            &&& current.contains_key((#[trigger] seen[i]).0)
            &&& seen[i].1.stat is File
            &&& crate::file_state::fast_check_of(current[seen[i].0], seen[i].1.stat)
                == FastCheck::Unchanged
        }
}

proof fn lemma_bulk_fold_as_known(
    current: Map<Seq<char>, FileStateView>,
    seen: Seq<(Seq<char>, ObservationView)>,
)
    requires
        all_as_known(current, seen),
    ensures
        bulk_fold(current, seen) == Some((current.restrict(observed_paths(seen)), false)),
    decreases seen.len(),
{
    if seen.len() == 0 {
        assert(current.restrict(observed_paths(seen)) =~= Map::empty());
    } else {
        let front = seen.drop_last();
        assert forall|i: int| 0 <= i < front.len() implies {
            &&& current.contains_key((#[trigger] front[i]).0)
            &&& front[i].1.stat is File
            &&& crate::file_state::fast_check_of(current[front[i].0], front[i].1.stat)
                == FastCheck::Unchanged
        } by {
            assert(front[i] == seen[i]);
        }
        lemma_bulk_fold_as_known(current, front);
        let last = seen.last();
        assert(seen[seen.len() - 1] == last);
        assert forall|k: Seq<char>| observed_paths(seen).contains(k) <==> (observed_paths(
            front,
        ).contains(k) || k == last.0) by {
            if observed_paths(seen).contains(k) {
                let i = choose|i: int| 0 <= i < seen.len() && (#[trigger] seen[i]).0 == k;
                if i < front.len() {
                    assert(front[i].0 == k);
                }
            }
            if observed_paths(front).contains(k) {
                let i = choose|i: int| 0 <= i < front.len() && (#[trigger] front[i]).0 == k;
                assert(seen[i].0 == k);
            }
        }
        assert(current.restrict(observed_paths(front)).insert(last.0, current[last.0])
            =~= current.restrict(observed_paths(seen)));
    }
}

/// Where every known bulk file is observed again with the time and the size
/// that are known of it, the bulk files are found unchanged and their known
/// states are kept: no file is hashed.
pub proof fn lemma_bulk_as_known_is_unchanged(
    current: Map<Seq<char>, FileStateView>,
    seen: Seq<(Seq<char>, ObservationView)>,
)
    requires
        all_as_known(current, seen),
        current.dom().subset_of(observed_paths(seen)),
    ensures
        bulk_outcome(current, seen) == Some((current, false)),
{
    lemma_bulk_fold_as_known(current, seen);
    assert(current.restrict(observed_paths(seen)) =~= current);
}

/// The checksum text of a page's source: the SHA-256 digest of its UTF-8
/// bytes, in base64.
pub fn calculate_sha256_hash(content: &str) -> (text: String)
    ensures
        text@ == checksum_text(encode_utf8(content@)),
        encode_utf8(text@).len() == 44,
{
    Checksum::from_data(content.as_bytes()).as_str().to_owned()
}

/// The kinds of resources whose artifacts are deleted when they disappear.
#[derive(Debug, Clone, Copy, PartialEq, Eq, Structural)]
pub enum ResourceKind {
    /// Pages, by slug.
    Content,
    /// Entries under the static root, by relative path.
    Static,
}

/// The depth of a relative path: the number of `/` in it.
pub open spec fn path_depth(path: Seq<char>) -> nat {
    occurrences(path, '/')
}

/// `inner` names something inside the directory `dir`: it is `dir`, a `/`,
/// and more.
pub open spec fn lies_inside(inner: Seq<char>, dir: Seq<char>) -> bool {
    &&& dir.len() < inner.len()
    &&& inner.subrange(0, dir.len() as int) == dir
    &&& inner[dir.len() as int] == '/'
}

/// What lies inside a directory is deeper than the directory.
pub proof fn lemma_inside_is_deeper(inner: Seq<char>, dir: Seq<char>)
    requires
        lies_inside(inner, dir),
    ensures
        path_depth(inner) > path_depth(dir),
{
    let rest = inner.subrange(dir.len() as int + 1, inner.len() as int);
    assert(inner =~= dir.push('/') + rest);
    crate::text::lemma_occurrences_concat(dir.push('/'), rest, '/');
    crate::text::lemma_occurrences_push(dir, '/', '/');
}

/// The keys that `before` holds and `now` does not.
pub open spec fn gone<V, W>(before: Map<Seq<char>, V>, now: Map<Seq<char>, W>) -> Set<Seq<char>> {
    before.dom().difference(now.dom())
}

/// `list` names each key of `keys` once, and nothing else.
pub open spec fn lists_exactly(list: Seq<Seq<char>>, keys: Set<Seq<char>>) -> bool {
    list.no_duplicates() && list.to_set() == keys
}

/// No path of `list` comes before a deeper one.
pub open spec fn deepest_first(list: Seq<Seq<char>>) -> bool {
    forall|i: int, j: int|
        0 <= i < j < list.len() ==> path_depth(#[trigger] list[i]) >= path_depth(
            #[trigger] list[j],
        )
}

/// Whatever lies inside a directory of `list` comes before the directory.
pub open spec fn contents_before_directories(list: Seq<Seq<char>>) -> bool {
    forall|i: int, j: int|
        0 <= i < list.len() && 0 <= j < list.len() && lies_inside(
            #[trigger] list[i],
            #[trigger] list[j],
        ) ==> i < j
}

/// In a list that is deepest first, whatever lies inside a directory comes
/// before the directory: a directory is empty by the time it is deleted.
pub proof fn lemma_deletion_order(list: Seq<Seq<char>>)
    requires
        deepest_first(list),
    ensures
        contents_before_directories(list),
{
    assert forall|i: int, j: int|
        0 <= i < list.len() && 0 <= j < list.len() && lies_inside(
            #[trigger] list[i],
            #[trigger] list[j],
        ) implies i < j by {
        lemma_inside_is_deeper(list[i], list[j]);
        if j < i {
            assert(path_depth(list[j]) >= path_depth(list[i]));
        }
    }
}

/// The ranking of paths for deletion: deeper paths first.
pub struct DeepestFirst;

impl Ranking<String> for DeepestFirst {
    open spec fn rank_le(a: Seq<char>, b: Seq<char>) -> bool {
        path_depth(a) >= path_depth(b)
    }

    proof fn lemma_rank_total(a: Seq<char>, b: Seq<char>) {
    }

    proof fn lemma_rank_transitive(a: Seq<char>, b: Seq<char>, c: Seq<char>) {
    }

    fn ranks_before(a: &String, b: &String) -> (r: bool) {
        count_occurrences(a.as_str(), '/') >= count_occurrences(b.as_str(), '/')
    }
}

/// The keys of `before` that `now` does not hold, in the order in which
/// `before` lists them.
fn keys_gone<V: View, W: View>(before: &KeyedMap<V>, now: &KeyedMap<W>) -> (out: Vec<String>)
    ensures
        lists_exactly(views(out@), gone(before@, now@)),
{
    let n = before.len();
    let ghost keys = before.keys();
    let mut out: Vec<String> = Vec::new();
    let ghost mut origin: Seq<int> = Seq::empty();
    let mut i: usize = 0;
    while i < n
        invariant
            n == keys.len(),
            keys == before.keys(),
            before.listed(),
            i <= n,
            origin.len() == out@.len(),
            forall|j: int|
                0 <= j < out@.len() ==> 0 <= #[trigger] origin[j] < i && out@[j]@
                    == keys[origin[j]] && !now@.contains_key(out@[j]@),
            forall|j: int, k: int| 0 <= j < k < out@.len() ==> origin[j] < origin[k],
            forall|x: int|
                0 <= x < i && !now@.contains_key(keys[x]) ==> exists|j: int|
                    0 <= j < out@.len() && #[trigger] origin[j] == x,
        decreases n - i,
    {
        let key = before.key_at(i);
        if !now.contains_key(key.as_str()) {
            let ghost old_origin = origin;
            out.push(key.clone());
            proof {
                origin = origin.push(i as int);
                assert forall|x: int| 0 <= x < i + 1 && !now@.contains_key(keys[x]) implies exists|
                    j: int,
                | 0 <= j < out@.len() && #[trigger] origin[j] == x by {
                    if x < i {
                        let j = choose|j: int| 0 <= j < old_origin.len() && old_origin[j] == x;
                        assert(origin[j] == x);
                    } else {
                        assert(origin[out@.len() - 1] == x);
                    }
                }
            }
        }
        i += 1;
    }
    proof {
        let list = views(out@);
        assert forall|a: int, b: int| 0 <= a < list.len() && 0 <= b < list.len() && a
            != b implies list[a] != list[b] by {
            assert(list[a] == keys[origin[a]]);
            assert(list[b] == keys[origin[b]]);
            if a < b {
                assert(origin[a] < origin[b]);
            } else {
                assert(origin[b] < origin[a]);
            }
        }
        assert forall|x: Seq<char>| list.to_set().contains(x) <==> gone(before@, now@).contains(
            x,
        ) by {
            if list.to_set().contains(x) {
                let j = choose|j: int| 0 <= j < list.len() && list[j] == x;
                assert(list[j] == keys[origin[j]]);
                assert(keys.to_set().contains(keys[origin[j]]));
            }
            if gone(before@, now@).contains(x) {
                assert(keys.to_set().contains(x));
                let idx = choose|idx: int| 0 <= idx < keys.len() && keys[idx] == x;
                let j = choose|j: int| 0 <= j < out@.len() && origin[j] == idx;
                assert(list[j] == x);
            }
        }
        assert(list.to_set() =~= gone(before@, now@));
    }
    out
}

/// Puts paths in an order in which they can be deleted: deeper paths first.
fn deepest_first_order(paths: Vec<String>) -> (out: Vec<String>)
    ensures
        views(out@).to_multiset() == views(paths@).to_multiset(),
        deepest_first(views(out@)),
{
    let out = sort_stable::<String, DeepestFirst>(paths);
    proof {
        let list = views(out@);
        let le = rank_relation::<String, DeepestFirst>();
        assert forall|a: int, b: int| 0 <= a < b < list.len() implies path_depth(
            #[trigger] list[a],
        ) >= path_depth(#[trigger] list[b]) by {
            assert(le(list[a], list[b]));
        }
    }
    out
}

/// A list with the elements of a list without repetitions, in another order,
/// has no repetitions either and names the same keys.
proof fn lemma_reordered_list(list: Seq<Seq<char>>, other: Seq<Seq<char>>, keys: Set<Seq<char>>)
    requires
        lists_exactly(list, keys),
        other.to_multiset() == list.to_multiset(),
    ensures
        lists_exactly(other, keys),
{
    broadcast use vstd::seq_lib::to_multiset_contains;

    list.lemma_multiset_has_no_duplicates();
    other.lemma_multiset_has_no_duplicates_conv();
    assert forall|x: Seq<char>| other.to_set().contains(x) <==> keys.contains(x) by {
        assert(other.contains(x) <==> other.to_multiset().count(x) > 0);
        assert(list.contains(x) <==> list.to_multiset().count(x) > 0);
        assert(list.to_set().contains(x) <==> list.contains(x));
    }
    assert(other.to_set() =~= keys);
}

impl StateManager {
    /// The resources of the last committed run that this run has not seen,
    /// in the order in which their artifacts are to be deleted.
    ///
    /// Pages come in no particular order. Static entries come deepest first,
    /// so that a file leaves before the directory that holds it.
    pub fn resources_to_delete(&self, kind: ResourceKind) -> (out: Vec<String>)
        ensures
            kind == ResourceKind::Content ==> lists_exactly(
                views(out@),
                gone(self@.current.content, self@.next.content),
            ),
            kind == ResourceKind::Static ==> lists_exactly(
                views(out@),
                gone(self@.current.statics, self@.next.statics),
            ) && deepest_first(views(out@)) && contents_before_directories(views(out@)),
    {
        match kind {
            ResourceKind::Content => keys_gone(&self.current.content, &self.next.content),
            ResourceKind::Static => {
                let found = keys_gone(&self.current.statics, &self.next.statics);
                let ghost list = views(found@);
                let out = deepest_first_order(found);
                proof {
                    lemma_reordered_list(
                        list,
                        views(out@),
                        gone(self@.current.statics, self@.next.statics),
                    );
                    lemma_deletion_order(views(out@));
                }
                out
            },
        }
    }

    /// The pages of the last committed run that this run has not seen.
    pub fn get_stale_slugs(&self) -> (out: Vec<String>)
        ensures
            lists_exactly(views(out@), gone(self@.current.content, self@.next.content)),
    {
        self.resources_to_delete(ResourceKind::Content)
    }
}

impl StateManager {
    /// Whether `update_static_entry_and_check_changed` needs the checksum of
    /// the entry `key`, given what a stat of it shows.
    pub fn static_entry_needs_checksum(&self, key: &str, stat: &EntryStat) -> (r: bool)
        ensures
            r == needs_checksum(lookup(self@.current.statics, key@), *stat),
    {
        entry_needs_checksum(self.current.statics.get(key), stat)
    }

    /// Whether `update_bulk_and_check_changed` needs the checksum of the
    /// file `key`, given what a stat of it shows.
    pub fn bulk_entry_needs_checksum(&self, key: &str, stat: &EntryStat) -> (r: bool)
        ensures
            r == needs_checksum(lookup(self@.current.bulk, key@), *stat),
    {
        entry_needs_checksum(self.current.bulk.get(key), stat)
    }

    /// Records what was seen of one static entry in the generation being
    /// built, and says whether the entry has changed since the last committed
    /// run. The entry is held against the state that the last committed run
    /// has of it. Without a checksum that is needed nothing is recorded.
    pub fn update_static_entry_and_check_changed(&mut self, key: String, seen: Observation) -> (r:
        Result<bool, ChecksumNeeded>)
        ensures
            match resolve(lookup(old(self)@.current.statics, key@), seen@) {
                Some((state, changed)) => r == Ok::<bool, ChecksumNeeded>(changed) && final(self)@
                    == (StateView {
                    next: GenerationView {
                        statics: old(self)@.next.statics.insert(key@, state),
                        ..old(self)@.next
                    },
                    ..old(self)@
                }),
                None => r is Err && final(self)@ == old(self)@,
            },
    {
        let known = self.current.statics.get(key.as_str());
        match FileState::resolve_entry(known, seen) {
            Ok((state, changed)) => {
                self.next.statics.insert(key, state);
                Ok(changed)
            },
            Err(e) => Err(e),
        }
    }

    /// Records what was seen of the bulk files in the generation being
    /// built, and says whether they have changed since the last committed
    /// run; the answer is kept for `should_rebuild_page` and
    /// `should_rebuild_index`. Without a checksum that is needed nothing is
    /// recorded.
    pub fn update_bulk_and_check_changed(&mut self, seen: Vec<(String, Observation)>) -> (r:
        Result<bool, ChecksumNeeded>)
        ensures
            match bulk_outcome(old(self)@.current.bulk, views(seen@)) {
                Some((states, changed)) => r == Ok::<bool, ChecksumNeeded>(changed) && final(self)@
                    == (StateView {
                    next: GenerationView { bulk: states, ..old(self)@.next },
                    bulk_changed: changed,
                    ..old(self)@
                }),
                None => r is Err && final(self)@ == old(self)@,
            },
    {
        let ghost input = views(seen@);
        let ghost current = self@.current.bulk;
        let mut states: KeyedMap<FileState> = KeyedMap::new();
        let mut changed = false;
        proof {
            assert(input.subrange(0, 0) =~= Seq::empty());
        }
        for entry in it: seen
            invariant
                it.seq() == seen@,
                input == views(seen@),
                current == self@.current.bulk,
                *self == *old(self),
                bulk_fold(current, input.subrange(0, it.index() as int)) == Some(
                    (states@, changed),
                ),
        {
            let ghost upto = input.subrange(0, it.index() + 1);
            proof {
                assert(upto.drop_last() =~= input.subrange(0, it.index() as int));
                assert(upto.last() == (entry.0@, entry.1@));
            }
            let (key, observation) = entry;
            let known = self.current.bulk.get(key.as_str());
            match FileState::resolve_entry(known, observation) {
                Ok((state, c)) => {
                    states.insert(key, state);
                    changed = changed || c;
                },
                Err(e) => {
                    proof {
                        lemma_bulk_fold_fails_on(current, input, it.index() + 1);
                    }
                    return Err(e);
                },
            }
        }
        proof {
            assert(input.subrange(0, input.len() as int) =~= input);
        }
        let missing = keys_gone(&self.current.bulk, &states);
        let changed = changed || missing.len() > 0;
        proof {
            let gone_keys = gone(current, states@);
            if missing@.len() > 0 {
                assert(views(missing@).to_set().contains(views(missing@)[0]));
                assert(gone_keys.contains(views(missing@)[0]));
            } else {
                assert(views(missing@).to_set() =~= Set::empty());
                assert forall|k: Seq<char>| current.dom().contains(k) implies states@.dom().contains(
                    k,
                ) by {
                    if !states@.dom().contains(k) {
                        assert(gone_keys.contains(k));
                    }
                }
            }
        }
        self.next.bulk = states;
        self.bulk_changed = changed;
        Ok(changed)
    }
}

/// A fold that fails on a part of the observations fails on all of them.
proof fn lemma_bulk_fold_fails_on(
    current: Map<Seq<char>, FileStateView>,
    seen: Seq<(Seq<char>, ObservationView)>,
    n: int,
)
    requires
        0 <= n <= seen.len(),
        bulk_fold(current, seen.subrange(0, n)) is None,
    ensures
        bulk_fold(current, seen) is None,
    decreases seen.len() - n,
{
    if n < seen.len() {
        assert(seen.subrange(0, n + 1).drop_last() =~= seen.subrange(0, n));
        lemma_bulk_fold_fails_on(current, seen, n + 1);
    } else {
        assert(seen.subrange(0, n) =~= seen);
    }
}

/// Whether resolving an observation with this stat, against this known
/// state, needs the checksum.
fn entry_needs_checksum(known: Option<&FileState>, stat: &EntryStat) -> (r: bool)
    ensures
        r == needs_checksum(state_view(known), *stat),
{
    match stat {
        EntryStat::Directory => false,
        EntryStat::File { .. } => match known {
            Some(state) => match state.fast_check(stat) {
                FastCheck::Unchanged => false,
                _ => true,
            },
            None => true,
        },
    }
}

impl Generation {
    /// Whether two generations are equal.
    pub fn same_as(&self, other: &Generation) -> (r: bool)
        ensures
            r == same_generation(self@, other@),
    {
        let index_same = match (&self.index, &other.index) {
            (None, None) => true,
            (Some(a), Some(b)) => a.same_as(b),
            _ => false,
        };
        let content_same = self.content.is_alike(&other.content);
        proof {
            if content_same {
                assert(self.content@ =~= other.content@);
            }
        }
        index_same && content_same && self.bulk.is_alike(&other.bulk) && self.statics.is_alike(
            &other.statics,
        )
    }
}

impl StateManager {
    /// Whether the run has to end with a write of the state file: whether the
    /// generation that it built differs from the last committed one.
    pub fn needs_write(&self) -> (r: bool)
        ensures
            r == needs_write_of(self@),
    {
        !self.next.same_as(&self.current)
    }

    /// Ends a run. `persisted` says whether the generation that the run
    /// built has been written to the state file.
    ///
    /// Where that generation equals the last committed one, nothing was to be
    /// written and nothing changes. Otherwise, once it is written, it
    /// becomes the current generation and the next one starts from nothing;
    /// and where it is not written, the last committed generation stays as it
    /// is and the commit fails.
    pub fn commit_if_changed(&mut self, persisted: bool) -> (r: Result<(), CommitError>)
        ensures
            !needs_write_of(old(self)@) ==> r is Ok && final(self)@ == old(self)@,
            needs_write_of(old(self)@) && persisted ==> r is Ok && final(self)@ == committed(
                old(self)@,
            ),
            needs_write_of(old(self)@) && !persisted ==> r == Err::<(), CommitError>(
                CommitError::NotPersisted,
            ) && final(self)@ == old(self)@,
    {
        if !self.needs_write() {
            return Ok(());
        }
        if !persisted {
            return Err(CommitError::NotPersisted);
        }
        let mut built = Generation::new();
        core::mem::swap(&mut built, &mut self.next);
        self.current = built;
        self.bulk_changed = false;
        Ok(())
    }
}

impl Default for StateManager {
    /// A cache whose last committed generation knows nothing.
    fn default() -> (s: StateManager)
        ensures
            s@.current == empty_generation(),
            s@.next == empty_generation(),
            !s@.bulk_changed,
    {
        StateManager::new()
    }
}

impl StateManager {
    /// A cache whose last committed generation knows nothing.
    pub fn new() -> (s: StateManager)
        ensures
            s@.current == empty_generation(),
            s@.next == empty_generation(),
            !s@.bulk_changed,
    {
        StateManager { current: Generation::new(), next: Generation::new(), bulk_changed: false }
    }

    /// A cache whose last committed generation is `current`.
    pub fn from_generation(current: Generation) -> (s: StateManager)
        ensures
            s@.current == current@,
            s@.next == empty_generation(),
            !s@.bulk_changed,
    {
        StateManager { current, next: Generation::new(), bulk_changed: false }
    }

    /// The generation of the last committed run.
    pub fn current(&self) -> (g: &Generation)
        ensures
            g@ == self@.current,
    {
        &self.current
    }

    /// The generation that this run is building.
    pub fn next(&self) -> (g: &Generation)
        ensures
            g@ == self@.next,
    {
        &self.next
    }

    /// Whether this run found the bulk files changed.
    pub fn bulk_changed(&self) -> (r: bool)
        ensures
            r == self@.bulk_changed,
    {
        self.bulk_changed
    }

    /// Records the checksum of a page in the generation being built.
    pub fn set_content_checksum(&mut self, slug: String, checksum: Checksum)
        ensures
            final(self)@ == (StateView {
                next: GenerationView {
                    content: old(self)@.next.content.insert(slug@, checksum@),
                    ..old(self)@.next
                },
                ..old(self)@
            }),
    {
        self.next.content.insert(slug, checksum);
    }

    /// Takes a page out of the generation being built, so that a page whose
    /// processing failed is not recorded as built.
    pub fn unset_content_checksum(&mut self, slug: &str)
        ensures
            final(self)@ == (StateView {
                next: GenerationView {
                    content: old(self)@.next.content.remove(slug@),
                    ..old(self)@.next
                },
                ..old(self)@
            }),
    {
        self.next.content.remove(slug);
    }

    /// Records the checksum of the page list in the generation being built.
    pub fn set_index_checksum(&mut self, checksum: Checksum)
        ensures
            final(self)@ == (StateView {
                next: GenerationView { index: Some(checksum@), ..old(self)@.next },
                ..old(self)@
            }),
    {
        self.next.index = Some(checksum);
    }

    /// Records a page in the generation being built, whether its content is
    /// new or kept.
    pub fn add_or_keep(&mut self, slug: String, checksum: Checksum)
        ensures
            final(self)@ == (StateView {
                next: GenerationView {
                    content: old(self)@.next.content.insert(slug@, checksum@),
                    ..old(self)@.next
                },
                ..old(self)@
            }),
    {
        self.set_content_checksum(slug, checksum);
    }

    /// Whether the page `slug` must be rebuilt. Ask after the page's checksum
    /// of this run has been recorded.
    pub fn should_rebuild_page(&self, slug: &str) -> (r: bool)
        ensures
            r == should_rebuild_page_of(self@, slug@),
    {
        if self.bulk_changed {
            return true;
        }
        match self.current.content.get(slug) {
            None => true,
            Some(before) => match self.next.content.get(slug) {
                None => true,
                Some(now) => !before.same_as(now),
            },
        }
    }

    /// Whether the index page must be rebuilt.
    pub fn should_rebuild_index(&self) -> (r: bool)
        ensures
            r == should_rebuild_index_of(self@),
    {
        if self.bulk_changed {
            return true;
        }
        match (&self.current.index, &self.next.index) {
            (None, None) => false,
            (Some(before), Some(now)) => !before.same_as(now),
            _ => true,
        }
    }

    /// Whether the content of the page `slug`, which now has the checksum
    /// text `checksum`, differs from what the last committed run knew.
    pub fn contents_changed(&self, slug: &str, checksum: &str) -> (r: bool)
        ensures
            r == contents_changed_of(self@, slug@, checksum@),
    {
        match self.current.content.get(slug) {
            None => true,
            Some(before) => !crate::text::str_eq(before.as_str(), checksum),
        }
    }
}

/// The state of an entry as the state file holds it: the checksum is text
/// that has yet to be checked.
#[derive(Debug)]
pub enum FileRecord {
    Directory,
    RegularFile { modified: Timestamp, size: u64, checksum: String },
}

impl View for FileRecord {
    type V = FileStateView;

    open spec fn view(&self) -> FileStateView {
        match self {
            FileRecord::Directory => FileStateView::Directory,
            FileRecord::RegularFile { modified, size, checksum } => FileStateView::RegularFile {
                modified: *modified,
                size: *size,
                checksum: checksum@,
            },
        }
    }
}

/// A generation as the state file holds it. A field is `None` where the
/// file lacks it or holds something else in its place.
#[derive(Debug)]
pub struct StateRecord {
    pub content: Option<Vec<(String, String)>>,
    pub bulk: Option<Vec<(String, FileRecord)>>,
    pub statics: Option<Vec<(String, FileRecord)>>,
    pub index: Option<String>,
}

/// A `StateRecord` as a mathematical value.
pub struct StateRecordView {
    pub content: Option<Seq<(Seq<char>, Seq<char>)>>,
    pub bulk: Option<Seq<(Seq<char>, FileStateView)>>,
    pub statics: Option<Seq<(Seq<char>, FileStateView)>>,
    pub index: Option<Seq<char>>,
}

impl View for StateRecord {
    type V = StateRecordView;

    open spec fn view(&self) -> StateRecordView {
        StateRecordView {
            content: match self.content {
                Some(entries) => Some(views(entries@)),
                None => None,
            },
            bulk: match self.bulk {
                Some(entries) => Some(views(entries@)),
                None => None,
            },
            statics: match self.statics {
                Some(entries) => Some(views(entries@)),
                None => None,
            },
            index: match self.index {
                Some(text) => Some(text@),
                None => None,
            },
        }
    }
}

/// A text has the length of a checksum: 44 bytes.
pub open spec fn is_checksum_text(text: Seq<char>) -> bool {
    encode_utf8(text).len() == 44
}

/// A recorded state is sound: a file's checksum has the length of one.
pub open spec fn is_sound_state(state: FileStateView) -> bool {
    state is RegularFile ==> is_checksum_text(state->checksum)
}

/// The map that a list of recorded checksums stands for, a later entry for
/// a key replacing an earlier one; `None` where a checksum has not the
/// length of one.
pub open spec fn decode_checksums(entries: Seq<(Seq<char>, Seq<char>)>) -> Option<
    Map<Seq<char>, Seq<char>>,
>
    decreases entries.len(),
{
    if entries.len() == 0 {
        Some(Map::empty())
    } else {
        match decode_checksums(entries.drop_last()) {
            Some(m) if is_checksum_text(entries.last().1) => Some(
                m.insert(entries.last().0, entries.last().1),
            ),
            _ => None,
        }
    }
}

/// The map that a list of recorded states stands for; `None` where a state
/// is not sound.
pub open spec fn decode_states(entries: Seq<(Seq<char>, FileStateView)>) -> Option<
    Map<Seq<char>, FileStateView>,
>
    decreases entries.len(),
{
    if entries.len() == 0 {
        Some(Map::empty())
    } else {
        match decode_states(entries.drop_last()) {
            Some(m) if is_sound_state(entries.last().1) => Some(
                m.insert(entries.last().0, entries.last().1),
            ),
            _ => None,
        }
    }
}

/// What a field of the state file gives: its map, or the empty map where the
/// field is missing or could not be decoded.
pub open spec fn or_empty<V>(m: Option<Map<Seq<char>, V>>) -> Map<Seq<char>, V> {
    match m {
        Some(m) => m,
        None => Map::empty(),
    }
}

/// The generation that a record stands for. Each field is decoded by
/// itself: one that is missing or unsound gives its default and leaves the
/// others as they are.
pub open spec fn decode_record(r: StateRecordView) -> GenerationView {
    GenerationView {
        content: match r.content {
            Some(entries) => or_empty(decode_checksums(entries)),
            None => Map::empty(),
        },
        bulk: match r.bulk {
            Some(entries) => or_empty(decode_states(entries)),
            None => Map::empty(),
        },
        statics: match r.statics {
            Some(entries) => or_empty(decode_states(entries)),
            None => Map::empty(),
        },
        index: match r.index {
            Some(text) if is_checksum_text(text) => Some(text),
            _ => None,
        },
    }
}

proof fn lemma_decode_checksums_fails_on(entries: Seq<(Seq<char>, Seq<char>)>, n: int)
    requires
        0 <= n <= entries.len(),
        decode_checksums(entries.subrange(0, n)) is None,
    ensures
        decode_checksums(entries) is None,
    decreases entries.len() - n,
{
    if n < entries.len() {
        assert(entries.subrange(0, n + 1).drop_last() =~= entries.subrange(0, n));
        lemma_decode_checksums_fails_on(entries, n + 1);
    } else {
        assert(entries.subrange(0, n) =~= entries);
    }
}

proof fn lemma_decode_states_fails_on(entries: Seq<(Seq<char>, FileStateView)>, n: int)
    requires
        0 <= n <= entries.len(),
        decode_states(entries.subrange(0, n)) is None,
    ensures
        decode_states(entries) is None,
    decreases entries.len() - n,
{
    if n < entries.len() {
        assert(entries.subrange(0, n + 1).drop_last() =~= entries.subrange(0, n));
        lemma_decode_states_fails_on(entries, n + 1);
    } else {
        assert(entries.subrange(0, n) =~= entries);
    }
}

/// Decodes a list of recorded checksums.
fn checksums_from_record(entries: Vec<(String, String)>) -> (m: KeyedMap<Checksum>)
    ensures
        m@ == or_empty(decode_checksums(views(entries@))),
{
    let ghost input = views(entries@);
    let mut out: KeyedMap<Checksum> = KeyedMap::new();
    proof {
        assert(input.subrange(0, 0) =~= Seq::empty());
    }
    for entry in it: entries
        invariant
            it.seq() == entries@,
            input == views(entries@),
            decode_checksums(input.subrange(0, it.index() as int)) == Some(out@),
    {
        let ghost upto = input.subrange(0, it.index() + 1);
        proof {
            assert(upto.drop_last() =~= input.subrange(0, it.index() as int));
            assert(upto.last() == (entry.0@, entry.1@));
        }
        let (key, text) = entry;
        match Checksum::from_encoded(text.as_str()) {
            Ok(checksum) => {
                out.insert(key, checksum);
            },
            Err(_) => {
                proof {
                    lemma_decode_checksums_fails_on(input, it.index() + 1);
                }
                return KeyedMap::new();
            },
        }
    }
    proof {
        assert(input.subrange(0, input.len() as int) =~= input);
    }
    out
}

/// Decodes a list of recorded states.
fn states_from_record(entries: Vec<(String, FileRecord)>) -> (m: KeyedMap<FileState>)
    ensures
        m@ == or_empty(decode_states(views(entries@))),
{
    let ghost input = views(entries@);
    let mut out: KeyedMap<FileState> = KeyedMap::new();
    proof {
        assert(input.subrange(0, 0) =~= Seq::empty());
    }
    for entry in it: entries
        invariant
            it.seq() == entries@,
            input == views(entries@),
            decode_states(input.subrange(0, it.index() as int)) == Some(out@),
    {
        let ghost upto = input.subrange(0, it.index() + 1);
        proof {
            assert(upto.drop_last() =~= input.subrange(0, it.index() as int));
            assert(upto.last() == (entry.0@, entry.1@));
        }
        let (key, record) = entry;
        let state = match record {
            FileRecord::Directory => Some(FileState::Directory),
            FileRecord::RegularFile { modified, size, checksum } => match Checksum::from_encoded(
                checksum.as_str(),
            ) {
                Ok(checksum) => Some(FileState::RegularFile { modified, size, checksum }),
                Err(_) => None,
            },
        };
        match state {
            Some(state) => {
                out.insert(key, state);
            },
            None => {
                proof {
                    lemma_decode_states_fails_on(input, it.index() + 1);
                }
                return KeyedMap::new();
            },
        }
    }
    proof {
        assert(input.subrange(0, input.len() as int) =~= input);
    }
    out
}

/// Lists a map of checksums as the state file holds it.
fn checksums_to_record(m: &KeyedMap<Checksum>) -> (entries: Vec<(String, String)>)
    ensures
        decode_checksums(views(entries@)) == Some(m@),
{
    let n = m.len();
    let mut out: Vec<(String, String)> = Vec::new();
    let ghost mut acc: Map<Seq<char>, Seq<char>> = Map::empty();
    let mut i: usize = 0;
    while i < n
        invariant
            i <= n,
            n == m.keys().len(),
            m.listed(),
            decode_checksums(views(out@)) == Some(acc),
            forall|k: Seq<char>|
                acc.contains_key(k) <==> exists|j: int| 0 <= j < i && #[trigger] m.keys()[j] == k,
            forall|k: Seq<char>| acc.contains_key(k) ==> acc[k] == m@[k],
        decreases n - i,
    {
        let key = m.key_at(i);
        let value = m.value_at(i);
        let ghost before = views(out@);
        out.push((key.clone(), value.as_str().to_owned()));
        proof {
            assert(views(out@).drop_last() =~= before);
            assert(views(out@).last() == (key@, value@));
            acc = acc.insert(key@, value@);
            assert forall|k: Seq<char>| acc.contains_key(k) implies exists|j: int|
                0 <= j < i + 1 && #[trigger] m.keys()[j] == k by {
                if k == key@ {
                    assert(m.keys()[i as int] == k);
                } else {
                    let j = choose|j: int| 0 <= j < i && #[trigger] m.keys()[j] == k;
                    assert(m.keys()[j] == k);
                }
            }
        }
        i += 1;
    }
    proof {
        assert forall|k: Seq<char>| m@.contains_key(k) implies acc.contains_key(k) by {
            assert(m.keys().to_set().contains(k));
            let j = choose|j: int| 0 <= j < m.keys().len() && m.keys()[j] == k;
            assert(m.keys()[j] == k);
        }
        assert forall|k: Seq<char>| acc.contains_key(k) implies m@.contains_key(k) by {
            let j = choose|j: int| 0 <= j < n && #[trigger] m.keys()[j] == k;
            assert(m.keys().to_set().contains(m.keys()[j]));
        }
        assert(acc =~= m@);
    }
    out
}

/// Lists a map of states as the state file holds it.
fn states_to_record(m: &KeyedMap<FileState>) -> (entries: Vec<(String, FileRecord)>)
    ensures
        decode_states(views(entries@)) == Some(m@),
{
    let n = m.len();
    let mut out: Vec<(String, FileRecord)> = Vec::new();
    let ghost mut acc: Map<Seq<char>, FileStateView> = Map::empty();
    let mut i: usize = 0;
    while i < n
        invariant
            i <= n,
            n == m.keys().len(),
            m.listed(),
            decode_states(views(out@)) == Some(acc),
            forall|k: Seq<char>|
                acc.contains_key(k) <==> exists|j: int| 0 <= j < i && #[trigger] m.keys()[j] == k,
            forall|k: Seq<char>| acc.contains_key(k) ==> acc[k] == m@[k],
        decreases n - i,
    {
        let key = m.key_at(i);
        let value = m.value_at(i);
        let record = match value {
            FileState::Directory => FileRecord::Directory,
            FileState::RegularFile { modified, size, checksum } => FileRecord::RegularFile {
                modified: *modified,
                size: *size,
                checksum: checksum.as_str().to_owned(),
            },
        };
        let ghost before = views(out@);
        out.push((key.clone(), record));
        proof {
            assert(views(out@).drop_last() =~= before);
            assert(views(out@).last() == (key@, value@));
            acc = acc.insert(key@, value@);
            assert forall|k: Seq<char>| acc.contains_key(k) implies exists|j: int|
                0 <= j < i + 1 && #[trigger] m.keys()[j] == k by {
                if k == key@ {
                    assert(m.keys()[i as int] == k);
                } else {
                    let j = choose|j: int| 0 <= j < i && #[trigger] m.keys()[j] == k;
                    assert(m.keys()[j] == k);
                }
            }
        }
        i += 1;
    }
    proof {
        assert forall|k: Seq<char>| m@.contains_key(k) implies acc.contains_key(k) by {
            assert(m.keys().to_set().contains(k));
            let j = choose|j: int| 0 <= j < m.keys().len() && m.keys()[j] == k;
            assert(m.keys()[j] == k);
        }
        assert forall|k: Seq<char>| acc.contains_key(k) implies m@.contains_key(k) by {
            let j = choose|j: int| 0 <= j < n && #[trigger] m.keys()[j] == k;
            assert(m.keys().to_set().contains(m.keys()[j]));
        }
        assert(acc =~= m@);
    }
    out
}

impl Generation {
    /// The generation that a record of the state file stands for.
    pub fn from_record(record: StateRecord) -> (g: Generation)
        ensures
            g@ == decode_record(record@),
    {
        let StateRecord { content, bulk, statics, index } = record;
        let content = match content {
            Some(entries) => checksums_from_record(entries),
            None => KeyedMap::new(),
        };
        let bulk = match bulk {
            Some(entries) => states_from_record(entries),
            None => KeyedMap::new(),
        };
        let statics = match statics {
            Some(entries) => states_from_record(entries),
            None => KeyedMap::new(),
        };
        let index = match index {
            Some(text) => match Checksum::from_encoded(text.as_str()) {
                Ok(c) => Some(c),
                Err(_) => None,
            },
            None => None,
        };
        Generation { content, bulk, statics, index }
    }

    /// The generation as the state file holds it. Decoding the record gives
    /// the generation back.
    pub fn to_record(&self) -> (record: StateRecord)
        ensures
            decode_record(record@) == self@,
            record@.content is Some,
            record@.bulk is Some,
            record@.statics is Some,
    {
        let index = match &self.index {
            Some(c) => Some(c.as_str().to_owned()),
            None => None,
        };
        StateRecord {
            content: Some(checksums_to_record(&self.content)),
            bulk: Some(states_to_record(&self.bulk)),
            statics: Some(states_to_record(&self.statics)),
            index,
        }
    }
}

impl StateManager {
    /// Starts a run from what the state file held: `None` where there was no
    /// file, which is the same as a file that holds nothing.
    pub fn load(record: Option<StateRecord>) -> (s: StateManager)
        ensures
            s@.current == match record {
                Some(r) => decode_record(r@),
                None => empty_generation(),
            },
            s@.next == empty_generation(),
            !s@.bulk_changed,
    {
        match record {
            Some(r) => StateManager::from_generation(Generation::from_record(r)),
            None => StateManager::new(),
        }
    }
}

} // verus!
