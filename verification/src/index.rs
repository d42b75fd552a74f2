//! The backup index.
//!
//! `build` turns the names found in the backup directory into an
//! ordered snapshot: one entry per distinct timestamp, ascending, with
//! the filename that spelled it (the last one in input order when two
//! names spell the same moment). `smallest_uncompressed` is the
//! companion scan that finds the compression candidate among the raw
//! directory entries.

use vstd::prelude::*;
use vstd::string::StrSliceExecFns;
use crate::codec::FilenameParseError;
use crate::codec::decode;
use crate::codec::spec_decode;
use crate::timestamp::secs_of;

verus! {

/// Whether a name carries a `gz` extension, i.e. ends in `.gz` with at
/// least one character before the dot.
pub open spec fn spec_is_gz_name(s: Seq<char>) -> bool {
    s.len() >= 4 && s[s.len() - 3] == '.' && s[s.len() - 2] == 'g' && s[s.len() - 1] == 'z'
}

/// Whether `decode` accepts the name.
pub open spec fn decodes(s: Seq<char>) -> bool {
    spec_decode(s) is Some
}

/// The index key a name spells: the seconds value of its timestamp.
pub open spec fn key_of(s: Seq<char>) -> int {
    match spec_decode(s) {
        Some(p) => secs_of(p.0),
        None => 0,
    }
}

/// Tests whether a filename carries the `gz` extension.
pub fn is_gz_name(name: &str) -> (r: bool)
    ensures
        r == spec_is_gz_name(name@),
{
    let n = name.unicode_len();
    n >= 4 && name.get_char(n - 3) == '.' && name.get_char(n - 2) == 'g' && name.get_char(n - 1)
        == 'z'
}

/// Position `i` holds the compression candidate: an entry without the
/// `gz` extension, of minimal size, the first of that size.
pub open spec fn is_smallest_uncompressed(files: Seq<(String, u64)>, i: int) -> bool {
    &&& 0 <= i < files.len()
    &&& !spec_is_gz_name(files[i].0@)
    &&& forall|j: int|
        0 <= j < files.len() && !spec_is_gz_name(#[trigger] files[j].0@) ==> files[j].1
            >= files[i].1
    &&& forall|j: int|
        0 <= j < i && !spec_is_gz_name(#[trigger] files[j].0@) ==> files[j].1 > files[i].1
}

/// Among the directory's entries, the name and byte size of the
/// smallest one without the `gz` extension; the first such entry when
/// several share the smallest size.
pub fn smallest_uncompressed(files: &Vec<(String, u64)>) -> (r: Option<(String, u64)>)
    ensures
        match r {
            Some(p) => exists|i: int|
                #[trigger] is_smallest_uncompressed(files@, i) && p.0@ == files@[i].0@ && p.1
                    == files@[i].1,
            None => forall|i: int|
                0 <= i < files@.len() ==> spec_is_gz_name(#[trigger] files@[i].0@),
        },
{
    let mut best: Option<usize> = None;
    let mut k: usize = 0;
    while k < files.len()
        invariant
            k <= files@.len(),
            match best {
                Some(b) => {
                    &&& b < k
                    &&& !spec_is_gz_name(files@[b as int].0@)
                    &&& forall|j: int|
                        0 <= j < k && !spec_is_gz_name(#[trigger] files@[j].0@) ==> files@[j].1
                            >= files@[b as int].1
                    &&& forall|j: int|
                        0 <= j < b && !spec_is_gz_name(#[trigger] files@[j].0@) ==> files@[j].1
                            > files@[b as int].1
                },
                None => forall|j: int| 0 <= j < k ==> spec_is_gz_name(#[trigger] files@[j].0@),
            },
        decreases files@.len() - k,
    {
        if !is_gz_name(files[k].0.as_str()) {
            let replace = match best {
                Some(b) => files[k].1 < files[b].1,
                None => true,
            };
            if replace {
                best = Some(k);
            }
        }
        k += 1;
    }
    match best {
        Some(b) => {
            proof {
                assert(is_smallest_uncompressed(files@, b as int));
            }
            Some((files[b].0.clone(), files[b].1))
        },
        None => None,
    }
}

/// The ordered snapshot of the backup directory: `entries` ascends
/// strictly by key, each key the seconds value of a decoded filename.
pub struct BackupIndex {
    pub entries: Vec<(u64, String)>,
}

/// Entry `j` comes from the input: some name spells its key and is its
/// filename, and no later input name spells the same key.
pub open spec fn entry_from(entries: Seq<(u64, String)>, names: Seq<String>, j: int) -> bool {
    exists|i: int|
        {
            &&& 0 <= i < names.len()
            &&& #[trigger] key_of(names[i]@) == entries[j].0 as int
            &&& entries[j].1@ == names[i]@
            &&& forall|i2: int| i < i2 < names.len() ==> key_of(#[trigger] names[i2]@)
                != entries[j].0 as int
        }
}

/// Some entry holds the given key.
pub open spec fn key_present(entries: Seq<(u64, String)>, key: int) -> bool {
    exists|j: int| 0 <= j < entries.len() && (#[trigger] entries[j]).0 as int == key
}

/// The entries are exactly the input's keys: every entry comes from
/// the input with the last name that spells its key, and every input
/// name's key appears.
pub open spec fn index_corresponds(entries: Seq<(u64, String)>, names: Seq<String>) -> bool {
    &&& forall|j: int| 0 <= j < entries.len() ==> #[trigger] entry_from(entries, names, j)
    &&& forall|i: int|
        0 <= i < names.len() ==> #[trigger] key_present(entries, key_of(names[i]@))
}

impl BackupIndex {
    /// Keys strictly ascend: one entry per timestamp, chronological.
    pub open spec fn wf(self) -> bool {
        forall|i: int, j: int|
            0 <= i < j < self.entries@.len() ==> (#[trigger] self.entries@[i].0) < (
            #[trigger] self.entries@[j].0)
    }

    /// Builds the index from the directory's filenames. Every name
    /// must decode; one that does not fails the whole build. A name
    /// spelling an already-seen timestamp replaces that entry.
    pub fn build(names: &Vec<String>) -> (r: Result<BackupIndex, FilenameParseError>)
        ensures
            r is Ok <==> (forall|i: int|
                0 <= i < names@.len() ==> decodes(#[trigger] names@[i]@)),
            r matches Ok(idx) ==> idx.wf() && index_corresponds(idx.entries@, names@),
    {
        let mut entries: Vec<(u64, String)> = Vec::new();
        let mut i: usize = 0;
        while i < names.len()
            invariant
                i <= names@.len(),
                forall|n: int| 0 <= n < i ==> decodes(#[trigger] names@[n]@),
                forall|p: int, q: int|
                    0 <= p < q < entries@.len() ==> (#[trigger] entries@[p].0) < (
                    #[trigger] entries@[q].0),
                index_corresponds(entries@, names@.take(i as int)),
            decreases names@.len() - i,
        {
            let ghost prefix = names@.take(i as int);
            let ghost old_entries = entries@;
            match decode(names[i].as_str()) {
                Err(e) => {
                    return Err(e);
                },
                Ok((t, _compressed)) => {
                    let k = t.to_secs();
                    proof {
                        assert(k as int == key_of(names@[i as int]@));
                    }
                    let mut pos: usize = 0;
                    while pos < entries.len() && entries[pos].0 < k
                        invariant
                            pos <= entries@.len(),
                            forall|p: int, q: int|
                                0 <= p < q < entries@.len() ==> (#[trigger] entries@[p].0) < (
                                #[trigger] entries@[q].0),
                            forall|p: int| 0 <= p < pos ==> (#[trigger] entries@[p].0) < k,
                        decreases entries@.len() - pos,
                    {
                        pos += 1;
                    }
                    if pos < entries.len() && entries[pos].0 == k {
                        entries.remove(pos);
                    }
                    entries.insert(pos, (k, names[i].clone()));
                    proof {
                        lemma_insert_keeps_correspondence(
                            old_entries,
                            entries@,
                            names@,
                            i as int,
                            pos as int,
                            k,
                        );
                    }
                },
            }
            i += 1;
        }
        proof {
            assert(names@.take(names@.len() as int) =~= names@);
        }
        Ok(BackupIndex { entries })
    }
}

/// Inserting the entry for `names[i]` at its sorted position carries
/// the correspondence from the first `i` names to the first `i + 1`.
proof fn lemma_insert_keeps_correspondence(
    old_entries: Seq<(u64, String)>,
    new_entries: Seq<(u64, String)>,
    names: Seq<String>,
    i: int,
    pos: int,
    k: u64,
)
    requires
        0 <= i < names.len(),
        decodes(names[i]@),
        k as int == key_of(names[i]@),
        index_corresponds(old_entries, names.take(i)),
        forall|p: int, q: int|
            0 <= p < q < old_entries.len() ==> (#[trigger] old_entries[p].0) < (
            #[trigger] old_entries[q].0),
        0 <= pos <= old_entries.len(),
        forall|p: int| 0 <= p < pos ==> (#[trigger] old_entries[p].0) < k,
        pos < old_entries.len() ==> old_entries[pos].0 >= k,
        new_entries[pos].0 == k,
        new_entries[pos].1@ == names[i]@,
        if pos < old_entries.len() && old_entries[pos].0 == k {
            new_entries =~= old_entries.update(pos, new_entries[pos])
        } else {
            new_entries =~= old_entries.insert(pos, new_entries[pos])
        },
    ensures
        forall|p: int, q: int|
            0 <= p < q < new_entries.len() ==> (#[trigger] new_entries[p].0) < (
            #[trigger] new_entries[q].0),
        index_corresponds(new_entries, names.take(i + 1)),
{
    let prefix = names.take(i);
    let longer = names.take(i + 1);
    assert(longer.len() == i + 1);
    assert(forall|n: int| 0 <= n < i ==> longer[n] == prefix[n]);
    assert(longer[i] == names[i]);
    let replaced = pos < old_entries.len() && old_entries[pos].0 == k;
    // Each old entry other than a replaced one keeps its witness; its
    // key differs from k, so the new name does not spell it.
    assert forall|j: int| 0 <= j < new_entries.len() implies #[trigger] entry_from(
        new_entries,
        longer,
        j,
    ) by {
        if j == pos {
            assert(key_of(longer[i]@) == new_entries[pos].0 as int);
            assert(entry_from(new_entries, longer, pos));
        } else {
            let jo = if j < pos {
                j
            } else if replaced {
                j
            } else {
                j - 1
            };
            assert(new_entries[j] == old_entries[jo]);
            assert(entry_from(old_entries, prefix, jo));
            let w = choose|w: int|
                {
                    &&& 0 <= w < prefix.len()
                    &&& #[trigger] key_of(prefix[w]@) == old_entries[jo].0 as int
                    &&& old_entries[jo].1@ == prefix[w]@
                    &&& forall|i2: int| w < i2 < prefix.len() ==> key_of(#[trigger] prefix[i2]@)
                        != old_entries[jo].0 as int
                };
            assert(old_entries[jo].0 != k);
            assert(key_of(longer[w]@) == new_entries[j].0 as int);
            assert(forall|i2: int| w < i2 < longer.len() && i2 < i ==> key_of(
                #[trigger] longer[i2]@,
            ) != new_entries[j].0 as int);
            assert(key_of(longer[i]@) != new_entries[j].0 as int);
            assert(entry_from(new_entries, longer, j));
        }
    }
    // Every name of the longer prefix still has its key present.
    assert forall|n: int| 0 <= n < longer.len() implies #[trigger] key_present(
        new_entries,
        key_of(longer[n]@),
    ) by {
        if n == i {
            assert(new_entries[pos].0 as int == key_of(longer[n]@));
        } else {
            assert(longer[n] == prefix[n]);
            assert(key_present(old_entries, key_of(prefix[n]@)));
            let j0 = choose|j0: int|
                0 <= j0 < old_entries.len() && (#[trigger] old_entries[j0]).0 as int == key_of(
                    prefix[n]@,
                );
            if j0 < pos {
                assert(new_entries[j0] == old_entries[j0]);
                assert(new_entries[j0].0 as int == key_of(longer[n]@));
            } else if replaced {
                if j0 == pos {
                    assert(new_entries[pos].0 == k);
                    assert(new_entries[pos].0 as int == key_of(longer[n]@));
                } else {
                    assert(new_entries[j0] == old_entries[j0]);
                    assert(new_entries[j0].0 as int == key_of(longer[n]@));
                }
            } else {
                assert(new_entries[j0 + 1] == old_entries[j0]);
                assert(new_entries[j0 + 1].0 as int == key_of(longer[n]@));
            }
        }
    }
}

} // verus!
