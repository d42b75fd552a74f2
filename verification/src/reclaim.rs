//! The space reclaimer's decision step.
//!
//! The reclamation loop re-reads the filesystem and the directory
//! before every step; `plan` takes one such snapshot — available and
//! total bytes, plus the directory's names and sizes — and decides the
//! next action. Room is sufficient when at least `amount` GiB and at
//! least `amount` percent of the capacity are free. Otherwise
//! compressing the smallest uncompressed backup is preferred whenever
//! that is safe (its size is below the available space), and eviction
//! through the selector is the fallback; with at most one backup left
//! reclamation gives up.

use vstd::prelude::*;
use crate::codec::FilenameParseError;
use crate::index::BackupIndex;
use crate::index::decodes;
use crate::index::index_corresponds;
use crate::index::is_smallest_uncompressed;
use crate::index::smallest_uncompressed;
use crate::selector::best_interior;

verus! {

/// One gibibyte.
pub const GIB: u64 = 1073741824;

/// Both free-space floors hold: `amount` GiB absolute, and `amount`
/// percent of the total capacity.
pub open spec fn room_ok(avail: u64, total: u64, amount: u64) -> bool {
    avail >= amount * GIB && 100 * (avail as int) >= (amount as int) * (total as int)
}

/// Whether the thresholds are met for the given filesystem state.
pub fn has_room(avail: u64, total: u64, amount: u64) -> (r: bool)
    requires
        amount <= 100,
    ensures
        r == room_ok(avail, total, amount),
{
    proof {
        assert((amount as u128) * (total as u128) <= 100 * (u64::MAX as u128))
            by (nonlinear_arith)
            requires
                amount <= 100,
                total <= u64::MAX,
        ;
    }
    avail >= amount * GIB && (avail as u128) * 100 >= (amount as u128) * (total as u128)
}

/// The next move of the reclamation loop.
#[derive(Debug)]
pub enum Action {
    /// Both thresholds are met; nothing to do.
    Satisfied,
    /// Run the compression tool on this file.
    Compress(String),
    /// Delete this file.
    Evict(String),
    /// At most one backup is left and the thresholds are still unmet;
    /// reclamation cannot go further.
    Exhausted,
}

/// A compression candidate exists and compressing it is safe: the
/// smallest uncompressed backup fits into the available space.
pub open spec fn can_compress(files: Seq<(String, u64)>, avail: u64) -> bool {
    exists|i: int| #[trigger] is_smallest_uncompressed(files, i) && files[i].1 < avail
}

/// What eviction decides on the index that the snapshot's names
/// build: give up on an index of at most one entry, evict the older
/// of two, else evict the entry the gap heuristic selects.
pub open spec fn eviction_result(r: Result<Action, FilenameParseError>, names: Seq<String>) -> bool {
    exists|entries: Seq<(u64, String)>|
        {
            &&& #[trigger] index_corresponds(entries, names)
            &&& forall|p: int, q: int|
                0 <= p < q < entries.len() ==> (#[trigger] entries[p].0) < (#[trigger] entries[q].0)
            &&& if entries.len() <= 1 {
                r == Ok::<Action, FilenameParseError>(Action::Exhausted)
            } else if entries.len() == 2 {
                r matches Ok(Action::Evict(n)) && n@ == entries[0].1@
            } else {
                r matches Ok(Action::Evict(n)) && n@ == entries[best_interior(
                    entries,
                    entries.len() - 1,
                )].1@
            }
        }
}

/// The names of the snapshot's files.
pub open spec fn names_of(files: Seq<(String, u64)>) -> Seq<String> {
    files.map_values(|p: (String, u64)| p.0)
}

/// Decides the next reclamation step from one snapshot of the
/// filesystem and the backup directory. Compression is an optional
/// capability: with it switched off, unmet thresholds go straight to
/// eviction.
pub fn plan(
    avail: u64,
    total: u64,
    amount: u64,
    compression: bool,
    files: &Vec<(String, u64)>,
) -> (r: Result<Action, FilenameParseError>)
    requires
        amount <= 100,
    ensures
        room_ok(avail, total, amount) <==> r == Ok::<Action, FilenameParseError>(Action::Satisfied),
        !room_ok(avail, total, amount) && compression && can_compress(files@, avail) ==> (r
            matches Ok(Action::Compress(n)) && exists|i: int|
            #[trigger] is_smallest_uncompressed(files@, i) && n@ == files@[i].0@ && files@[i].1
                < avail),
        !room_ok(avail, total, amount) && !(compression && can_compress(files@, avail)) && (forall|
            i: int|
            0 <= i < files@.len() ==> decodes(#[trigger] files@[i].0@)) ==> eviction_result(
            r,
            names_of(files@),
        ),
        r is Err <==> (!room_ok(avail, total, amount) && !(compression && can_compress(
            files@,
            avail,
        )) && !(forall|i: int|
            0 <= i < files@.len() ==> decodes(#[trigger] files@[i].0@))),
{
    if has_room(avail, total, amount) {
        return Ok(Action::Satisfied);
    }
    if !compression {
        return evict_step(files);
    }
    match smallest_uncompressed(files) {
        Some((name, size)) => {
            if size < avail {
                proof {
                    let i = choose|i: int|
                        #[trigger] is_smallest_uncompressed(files@, i) && name@ == files@[i].0@
                            && size == files@[i].1;
                    assert(is_smallest_uncompressed(files@, i) && files@[i].1 < avail);
                }
                return Ok(Action::Compress(name));
            }
            proof {
                // The smallest size is unique, so no candidate fits.
                assert forall|j: int|
                    #[trigger] is_smallest_uncompressed(files@, j) implies files@[j].1
                    >= avail by {
                    let i = choose|i: int|
                        #[trigger] is_smallest_uncompressed(files@, i) && name@ == files@[i].0@
                            && size == files@[i].1;
                    assert(files@[i].1 >= files@[j].1);
                    assert(files@[j].1 >= files@[i].1);
                }
            }
        },
        None => {
            proof {
                assert forall|j: int| !is_smallest_uncompressed(files@, j) by {
                    if 0 <= j < files@.len() {
                        assert(crate::index::spec_is_gz_name(files@[j].0@));
                    }
                }
            }
        },
    }
    evict_step(files)
}

/// Builds the index from the snapshot's names and asks the selector;
/// a name that decodes as no backup filename fails the step.
fn evict_step(files: &Vec<(String, u64)>) -> (r: Result<Action, FilenameParseError>)
    ensures
        (forall|i: int| 0 <= i < files@.len() ==> decodes(#[trigger] files@[i].0@))
            ==> eviction_result(r, names_of(files@)),
        r is Err <==> !(forall|i: int| 0 <= i < files@.len() ==> decodes(#[trigger] files@[i].0@)),
        match r {
            Ok(a) => !(a is Satisfied) && !(a is Compress),
            Err(_) => true,
        },
{
    let mut names: Vec<String> = Vec::new();
    let mut i: usize = 0;
    while i < files.len()
        invariant
            i <= files@.len(),
            names@.len() == i,
            forall|j: int| 0 <= j < i ==> names@[j] == files@[j].0,
        decreases files@.len() - i,
    {
        names.push(files[i].0.clone());
        i += 1;
    }
    proof {
        assert(names@ =~= names_of(files@));
        assert forall|j: int| 0 <= j < files@.len() implies (decodes(names@[j]@) <==> decodes(
            #[trigger] files@[j].0@,
        )) by {
            assert(names@[j] == files@[j].0);
        }
    }
    match BackupIndex::build(&names) {
        Err(e) => Err(e),
        Ok(idx) => {
            let r = match idx.select() {
                None => Ok(Action::Exhausted),
                Some(name) => Ok(Action::Evict(name)),
            };
            proof {
                assert(index_corresponds(idx.entries@, names_of(files@)));
            }
            r
        },
    }
}

} // verus!
