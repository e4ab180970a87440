//! The last known state of one file or directory, and the two-tier
//! test that decides whether the entry has changed since.
use crate::checksum::Checksum;
use vstd::prelude::*;

verus! {

/// A modification time: seconds and nanoseconds since the Unix epoch.
#[derive(Debug, Clone, Copy, PartialEq, Eq, Structural)]
pub struct Timestamp {
    pub secs: i64,
    pub nanos: u32,
}

/// What a stat of a path shows: a directory, or a regular file with its
/// modification time and its size in bytes.
#[derive(Debug, Clone, Copy, PartialEq, Eq, Structural)]
pub enum EntryStat {
    Directory,
    File { modified: Timestamp, size: u64 },
}

/// What was seen of an entry in this run: its stat and, where the caller
/// has hashed the file, the checksum of its content.
#[derive(Debug)]
pub struct Observation {
    pub stat: EntryStat,
    pub checksum: Option<Checksum>,
}

/// An `Observation` as a mathematical value.
pub struct ObservationView {
    pub stat: EntryStat,
    pub checksum: Option<Seq<char>>,
}

impl View for Observation {
    type V = ObservationView;

    open spec fn view(&self) -> ObservationView {
        ObservationView {
            stat: self.stat,
            checksum: match self.checksum {
                Some(c) => Some(c@),
                None => None,
            },
        }
    }
}

/// The known state of a filesystem entry.
#[derive(Debug)]
pub enum FileState {
    /// A directory: only its existence is known.
    Directory,
    /// A regular file. The modification time and the size are hints that
    /// save hashing; the checksum is what identifies the content.
    RegularFile { modified: Timestamp, size: u64, checksum: Checksum },
}

/// A `FileState` as a mathematical value.
pub enum FileStateView {
    Directory,
    RegularFile { modified: Timestamp, size: u64, checksum: Seq<char> },
}

impl View for FileState {
    type V = FileStateView;

    open spec fn view(&self) -> FileStateView {
        match self {
            FileState::Directory => FileStateView::Directory,
            FileState::RegularFile { modified, size, checksum } => FileStateView::RegularFile {
                modified: *modified,
                size: *size,
                checksum: checksum@,
            },
        }
    }
}

/// Equality of two states: directories are equal to each other, files are
/// equal when their checksums are, and a directory never equals a file.
pub open spec fn same_state(a: FileStateView, b: FileStateView) -> bool {
    match (a, b) {
        (FileStateView::Directory, FileStateView::Directory) => true,
        (
            FileStateView::RegularFile { checksum: x, .. },
            FileStateView::RegularFile { checksum: y, .. },
        ) => x == y,
        _ => false,
    }
}

/// What the cheap part of the change test can tell.
#[derive(Debug, Clone, Copy, PartialEq, Eq, Structural)]
pub enum FastCheck {
    /// The entry has not changed; no hashing is needed.
    Unchanged,
    /// The entry has changed; no hashing is needed to know it.
    Changed,
    /// The size matches and the modification time does not: only the
    /// checksum can tell.
    NeedsChecksum,
}

/// The cheap part of the change test, in its fixed order: directories first,
/// then the kind of the known state, then modification time and size.
pub open spec fn fast_check_of(known: FileStateView, stat: EntryStat) -> FastCheck {
    match stat {
        EntryStat::Directory => if known is Directory {
            FastCheck::Unchanged
        } else {
            FastCheck::Changed
        },
        EntryStat::File { modified, size } => match known {
            FileStateView::Directory => FastCheck::Changed,
            FileStateView::RegularFile { modified: m, size: s, .. } => if m == modified && s
                == size {
                FastCheck::Unchanged
            } else if s != size {
                FastCheck::Changed
            } else {
                FastCheck::NeedsChecksum
            },
        },
    }
}

/// The whole change test, for an entry whose content now has checksum
/// `fresh`: the cheap part decides where it can, the checksum otherwise.
pub open spec fn fast_has_changed_of(
    known: FileStateView,
    stat: EntryStat,
    fresh: Seq<char>,
) -> bool {
    match fast_check_of(known, stat) {
        FastCheck::Unchanged => false,
        FastCheck::Changed => true,
        FastCheck::NeedsChecksum => known->checksum != fresh,
    }
}

/// The change test for an observation, which may lack the checksum: `None`
/// where the cheap part cannot decide and the checksum is missing.
pub open spec fn fast_has_changed_with(known: FileStateView, seen: ObservationView) -> Option<
    bool,
> {
    match fast_check_of(known, seen.stat) {
        FastCheck::Unchanged => Some(false),
        FastCheck::Changed => Some(true),
        FastCheck::NeedsChecksum => match seen.checksum {
            Some(fresh) => Some(known->checksum != fresh),
            None => None,
        },
    }
}

/// The state that a stat and a fresh checksum describe.
pub open spec fn observed_state(stat: EntryStat, fresh: Seq<char>) -> FileStateView {
    match stat {
        EntryStat::Directory => FileStateView::Directory,
        EntryStat::File { modified, size } => FileStateView::RegularFile {
            modified,
            size,
            checksum: fresh,
        },
    }
}

/// The change test without shortcuts: take the entry's state anew and
/// compare it with the known one.
pub open spec fn brute_force_changed(
    known: FileStateView,
    stat: EntryStat,
    fresh: Seq<char>,
) -> bool {
    !same_state(known, observed_state(stat, fresh))
}

/// The modification time and the size are honest hints for this entry: a
/// file with the known time and size has the known content, and a file
/// of another size has another checksum.
pub open spec fn hints_are_honest(known: FileStateView, stat: EntryStat, fresh: Seq<char>) -> bool {
    match (known, stat) {
        (
            FileStateView::RegularFile { modified: m, size: s, checksum: c },
            EntryStat::File { modified, size },
        ) => {
            &&& (m == modified && s == size ==> fresh == c)
            &&& (s != size ==> fresh != c)
        },
        _ => true,
    }
}

/// Where the hints are honest, the fast test gives the answer of the
/// brute-force test: the shortcuts save hashing and change no outcome.
pub proof fn lemma_fast_path_equivalence(known: FileStateView, stat: EntryStat, fresh: Seq<char>)
    requires
        hints_are_honest(known, stat, fresh),
    ensures
        fast_has_changed_of(known, stat, fresh) == brute_force_changed(known, stat, fresh),
{
}

/// A file whose size and content are the known ones is reported as
/// unchanged, whatever its modification time has become.
pub proof fn lemma_touched_file_is_unchanged(
    known: FileStateView,
    modified: Timestamp,
    size: u64,
    fresh: Seq<char>,
)
    requires
        known is RegularFile,
        known->size == size,
        known->checksum == fresh,
    ensures
        !fast_has_changed_of(known, EntryStat::File { modified, size }, fresh),
{
}

/// The fast test never answers "unchanged" on the modification time alone:
/// either time and size both match, or the checksums do.
pub proof fn lemma_unchanged_is_backed(known: FileStateView, stat: EntryStat, fresh: Seq<char>)
    requires
        !fast_has_changed_of(known, stat, fresh),
        stat is File,
    ensures
        known is RegularFile,
        known->size == stat->size,
        known->modified == stat->modified || known->checksum == fresh,
{
}

/// The answer where a checksum was needed and none was given.
#[derive(Debug, Clone, Copy, PartialEq, Eq, Structural)]
pub struct ChecksumNeeded;

/// What an observation does to a known entry: the state to keep from now
/// on and whether the entry has changed, or `None` where the observation
/// lacks a checksum that is needed.
///
/// An entry that was not known has changed. A file that passes the cheap
/// test keeps its known state. A directory is kept as such.
pub open spec fn resolve(known: Option<FileStateView>, seen: ObservationView) -> Option<
    (FileStateView, bool),
> {
    match seen.stat {
        EntryStat::Directory => Some(
            (FileStateView::Directory, !(known == Some(FileStateView::Directory))),
        ),
        EntryStat::File { modified, size } => {
            if known is Some && fast_check_of(known->0, seen.stat) == FastCheck::Unchanged {
                Some((known->0, false))
            } else {
                match seen.checksum {
                    None => None,
                    Some(fresh) => Some(
                        (
                            observed_state(seen.stat, fresh),
                            known is None || fast_has_changed_of(known->0, seen.stat, fresh),
                        ),
                    ),
                }
            }
        },
    }
}

/// An entry that is seen as it is known, a directory as a directory or a
/// file with its known time and size, keeps its known state and has not
/// changed; its checksum is not read.
pub proof fn lemma_resolve_as_known(known: FileStateView, seen: ObservationView)
    requires
        fast_check_of(known, seen.stat) == FastCheck::Unchanged,
    ensures
        resolve(Some(known), seen) == Some((known, false)),
        !needs_checksum(Some(known), seen.stat),
{
}

/// Whether `resolve` needs the checksum of the entry.
pub open spec fn needs_checksum(known: Option<FileStateView>, stat: EntryStat) -> bool {
    stat is File && !(known is Some && fast_check_of(known->0, stat) == FastCheck::Unchanged)
}

/// The views of an optional state.
pub open spec fn state_view(known: Option<&FileState>) -> Option<FileStateView> {
    match known {
        Some(state) => Some(state@),
        None => None,
    }
}

/// `resolve` answers exactly where the checksum is given or not needed.
pub proof fn lemma_resolve_answers(known: Option<FileStateView>, seen: ObservationView)
    ensures
        resolve(known, seen) is Some <==> (seen.checksum is Some || !needs_checksum(
            known,
            seen.stat,
        )),
{
}

impl FileState {
    /// The state of a directory.
    pub fn directory() -> (s: FileState)
        ensures
            s@ == FileStateView::Directory,
    {
        FileState::Directory
    }

    /// The state of a regular file.
    pub fn regular_file(modified: Timestamp, size: u64, checksum: Checksum) -> (s: FileState)
        ensures
            s@ == (FileStateView::RegularFile { modified, size, checksum: checksum@ }),
    {
        FileState::RegularFile { modified, size, checksum }
    }

    /// Whether the state is that of a regular file.
    pub fn is_file(&self) -> (r: bool)
        ensures
            r == (self@ is RegularFile),
    {
        match self {
            FileState::Directory => false,
            FileState::RegularFile { .. } => true,
        }
    }

    /// The cheap part of the change test against what a stat shows now.
    pub fn fast_check(&self, stat: &EntryStat) -> (r: FastCheck)
        ensures
            r == fast_check_of(self@, *stat),
    {
        match stat {
            EntryStat::Directory => match self {
                FileState::Directory => FastCheck::Unchanged,
                FileState::RegularFile { .. } => FastCheck::Changed,
            },
            EntryStat::File { modified, size } => match self {
                FileState::Directory => FastCheck::Changed,
                FileState::RegularFile { modified: m, size: s, .. } => {
                    if m.secs == modified.secs && m.nanos == modified.nanos && *s == *size {
                        FastCheck::Unchanged
                    } else if *s != *size {
                        FastCheck::Changed
                    } else {
                        FastCheck::NeedsChecksum
                    }
                },
            },
        }
    }

    /// Whether the entry has changed, by the two-tier test. The checksum of
    /// the observation is read only where the cheap part cannot decide; where
    /// it is needed and missing the answer is `Err`.
    pub fn fast_has_changed(&self, seen: &Observation) -> (r: Result<bool, ChecksumNeeded>)
        ensures
            match r {
                Ok(changed) => fast_has_changed_with(self@, seen@) == Some(changed),
                Err(_) => fast_has_changed_with(self@, seen@) is None,
            },
    {
        match self.fast_check(&seen.stat) {
            FastCheck::Unchanged => Ok(false),
            FastCheck::Changed => Ok(true),
            FastCheck::NeedsChecksum => match (&seen.checksum, self) {
                (Some(fresh), FileState::RegularFile { checksum, .. }) => Ok(
                    !checksum.same_as(fresh),
                ),
                _ => Err(ChecksumNeeded),
            },
        }
    }

    /// Applies an observation to the known state of an entry, if it has
    /// one: gives the state to track from now on and whether the entry has
    /// changed.
    pub fn resolve_entry(known: Option<&FileState>, seen: Observation) -> (r: Result<
        (FileState, bool),
        ChecksumNeeded,
    >)
        ensures
            match r {
                Ok((state, changed)) => resolve(state_view(known), seen@) == Some(
                    (state@, changed),
                ),
                Err(_) => resolve(state_view(known), seen@) is None,
            },
    {
        match seen.stat {
            EntryStat::Directory => {
                let was_directory = match known {
                    Some(FileState::Directory) => true,
                    _ => false,
                };
                Ok((FileState::Directory, !was_directory))
            },
            EntryStat::File { modified, size } => {
                let cheap = match known {
                    Some(state) => Some(state.fast_check(&seen.stat)),
                    None => None,
                };
                match (known, cheap) {
                    (Some(state), Some(FastCheck::Unchanged)) => Ok((state.clone(), false)),
                    _ => match seen.checksum {
                        None => Err(ChecksumNeeded),
                        Some(fresh) => {
                            let changed = match (known, cheap) {
                                (
                                    Some(FileState::RegularFile { checksum, .. }),
                                    Some(FastCheck::NeedsChecksum),
                                ) => !checksum.same_as(&fresh),
                                _ => true,
                            };
                            Ok((FileState::RegularFile { modified, size, checksum: fresh }, changed))
                        },
                    },
                }
            },
        }
    }

    /// Whether two states are equal: see `same_state`.
    pub fn same_as(&self, other: &FileState) -> (r: bool)
        ensures
            r == same_state(self@, other@),
    {
        match (self, other) {
            (FileState::Directory, FileState::Directory) => true,
            (
                FileState::RegularFile { checksum: a, .. },
                FileState::RegularFile { checksum: b, .. },
            ) => a.same_as(b),
            _ => false,
        }
    }
}

impl crate::keyed::Alike for FileState {
    open spec fn alike(a: FileStateView, b: FileStateView) -> bool {
        same_state(a, b)
    }

    fn is_alike(&self, other: &Self) -> (r: bool) {
        self.same_as(other)
    }
}

impl Clone for FileState {
    fn clone(&self) -> (s: Self)
        ensures
            s@ == self@,
    {
        match self {
            FileState::Directory => FileState::Directory,
            FileState::RegularFile { modified, size, checksum } => FileState::RegularFile {
                modified: *modified,
                size: *size,
                checksum: checksum.clone(),
            },
        }
    }
}

impl PartialEq for FileState {
    fn eq(&self, other: &Self) -> (r: bool) {
        self.same_as(other)
    }
}

impl vstd::std_specs::cmp::PartialEqSpecImpl for FileState {
    open spec fn obeys_eq_spec() -> bool {
        true
    }

    open spec fn eq_spec(&self, other: &Self) -> bool {
        same_state(self@, other@)
    }
}

} // verus!
