//! What a build decides for the files beside a page and for the entries
//! under the static root.
use crate::file_state::resolve;
use crate::file_state::ChecksumNeeded;
use crate::file_state::Observation;
use crate::file_state::ObservationView;
use crate::sorting::views;
use crate::state::lookup;
use crate::state::GenerationView;
use crate::state::StateManager;
use crate::state::StateView;
use crate::text::str_eq;
use vstd::prelude::*;

verus! {

/// The name of the file that holds a rendered page.
pub open spec fn page_file_name() -> Seq<char> {
    "index.html"@
}

/// A file beside a page is left over where it is not the page itself and
/// the build of the page did not copy it.
pub open spec fn is_leftover(name: Seq<char>, copied: Seq<Seq<char>>) -> bool {
    name != page_file_name() && !copied.contains(name)
}

/// The files of `existing` that are left over, in the order of `existing`.
pub open spec fn leftover_of(existing: Seq<Seq<char>>, copied: Seq<Seq<char>>) -> Seq<Seq<char>> {
    existing.filter(|name: Seq<char>| is_leftover(name, copied))
}

/// Whether `names` holds `name`.
pub fn holds_name(names: &Vec<String>, name: &str) -> (r: bool)
    ensures
        r == views(names@).contains(name@),
{
    let mut i: usize = 0;
    while i < names.len()
        invariant
            i <= names@.len(),
            forall|j: int| 0 <= j < i ==> views(names@)[j] != name@,
        decreases names@.len() - i,
    {
        if str_eq(names[i].as_str(), name) {
            assert(views(names@)[i as int] == name@);
            return true;
        }
        i += 1;
    }
    false
}

/// The files in the directory of a page that its build leaves over and
/// that are to be deleted: those of `existing` that are neither the page
/// file nor among the files that the build copied.
pub fn leftover_files(existing: &Vec<String>, copied: &Vec<String>) -> (out: Vec<String>)
    ensures
        views(out@) == leftover_of(views(existing@), views(copied@)),
{
    let ghost all = views(existing@);
    let ghost keep = |name: Seq<char>| is_leftover(name, views(copied@));
    let mut out: Vec<String> = Vec::new();
    let mut i: usize = 0;
    proof {
        reveal(Seq::filter);
        assert(all.subrange(0, 0) =~= Seq::<Seq<char>>::empty());
        assert(views(out@) =~= all.subrange(0, 0).filter(keep));
    }
    while i < existing.len()
        invariant
            i <= existing@.len(),
            all == views(existing@),
            keep == |name: Seq<char>| is_leftover(name, views(copied@)),
            views(out@) == all.subrange(0, i as int).filter(keep),
        decreases existing@.len() - i,
    {
        let name = &existing[i];
        proof {
            reveal(Seq::filter);
            assert(all.subrange(0, i + 1).drop_last() =~= all.subrange(0, i as int));
            assert(all.subrange(0, i + 1).last() == name@);
        }
        if !str_eq(name.as_str(), "index.html") && !holds_name(copied, name.as_str()) {
            let ghost before = views(out@);
            out.push(name.clone());
            proof {
                assert(views(out@) =~= before.push(name@));
            }
        }
        i += 1;
    }
    proof {
        assert(all.subrange(0, i as int) =~= all);
    }
    out
}

/// What a build does with an entry under the static root.
#[derive(Debug, Clone, Copy, PartialEq, Eq, Structural)]
pub enum StaticAction {
    /// The file is as the last committed run left it: nothing to do.
    KeepFile,
    /// The file is new or has changed: copy it.
    CopyFile,
    /// The directory is new: create it, then visit what it holds.
    CreateDirectory,
    /// The directory is known: visit what it holds.
    EnterDirectory,
}

/// The action for an entry, from what was seen of it and whether it has
/// changed.
pub open spec fn action_for(seen: ObservationView, changed: bool) -> StaticAction {
    if seen.stat is Directory {
        if changed {
            StaticAction::CreateDirectory
        } else {
            StaticAction::EnterDirectory
        }
    } else {
        if changed {
            StaticAction::CopyFile
        } else {
            StaticAction::KeepFile
        }
    }
}

impl StateManager {
    /// One step of the walk over the static root: records what was seen of
    /// the entry `key` and says what to do with it. Without a checksum that
    /// is needed nothing is recorded.
    pub fn visit_static_entry(&mut self, key: String, seen: Observation) -> (r: Result<
        StaticAction,
        ChecksumNeeded,
    >)
        ensures
            match resolve(lookup(old(self)@.current.statics, key@), seen@) {
                Some((state, changed)) => r == Ok::<StaticAction, ChecksumNeeded>(
                    action_for(seen@, changed),
                ) && final(self)@ == (StateView {
                    next: GenerationView {
                        statics: old(self)@.next.statics.insert(key@, state),
                        ..old(self)@.next
                    },
                    ..old(self)@
                }),
                None => r is Err && final(self)@ == old(self)@,
            },
    {
        let is_directory = match seen.stat {
            crate::file_state::EntryStat::Directory => true,
            crate::file_state::EntryStat::File { .. } => false,
        };
        match self.update_static_entry_and_check_changed(key, seen) {
            Ok(changed) => Ok(
                if is_directory {
                    if changed {
                        StaticAction::CreateDirectory
                    } else {
                        StaticAction::EnterDirectory
                    }
                } else {
                    if changed {
                        StaticAction::CopyFile
                    } else {
                        StaticAction::KeepFile
                    }
                },
            ),
            Err(e) => Err(e),
        }
    }
}

} // verus!
