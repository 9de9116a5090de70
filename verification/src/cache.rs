//! The incremental-cache gateway.
//!
//! A gateway is constructed once per run, seeded with the active rule-set
//! fingerprint and the set of target files. Entries carried over from an
//! earlier run count only when that run used the same fingerprint, and only
//! for files still among the targets; a file is skipped exactly when the
//! gateway knows this path with this content to be clean.

use vstd::prelude::*;

use crate::textorder::byte_views;
use crate::textorder::bytes_cmp3;

verus! {

/// One clean-file record: path identity and the exact content that was
/// analyzed clean.
pub struct CacheEntry {
    pub path: Vec<u8>,
    pub content: Vec<u8>,
}

pub open spec fn entry_views(s: Seq<CacheEntry>) -> Seq<(Seq<u8>, Seq<u8>)> {
    Seq::new(s.len(), |i: int| (s[i].path@, s[i].content@))
}

pub open spec fn state_views(s: Seq<Vec<u8>>) -> Seq<Seq<u8>> {
    Seq::new(s.len(), |i: int| s[i]@)
}

/// The gateway: the active rule-set fingerprint and the clean-file records
/// valid under it.
pub struct IncrementalCache {
    pub state: Vec<Vec<u8>>,
    pub entries: Vec<CacheEntry>,
}

/// Whether the records know `path` with exactly `content` as clean.
pub open spec fn cache_has(entries: Seq<(Seq<u8>, Seq<u8>)>, path: Seq<u8>, content: Seq<u8>) -> bool {
    exists|i: int|
        0 <= i < entries.len() && entries[i].0 == path && entries[i].1 == content
}

/// Compares two byte strings for equality.
pub fn bytes_eq(a: &Vec<u8>, b: &Vec<u8>) -> (r: bool)
    ensures
        r == (a@ == b@),
{
    let c = bytes_cmp3(a, b);
    c == 0
}

fn states_eq(a: &Vec<Vec<u8>>, b: &Vec<Vec<u8>>) -> (r: bool)
    ensures
        r == (state_views(a@) == state_views(b@)),
{
    if a.len() != b.len() {
        proof {
            assert(state_views(a@).len() != state_views(b@).len());
        }
        return false;
    }
    let mut i: usize = 0;
    while i < a.len()
        invariant
            i <= a@.len(),
            a@.len() == b@.len(),
            forall|k: int| 0 <= k < i ==> state_views(a@)[k] == state_views(b@)[k],
        decreases a@.len() - i,
    {
        if !bytes_eq(&a[i], &b[i]) {
            proof {
                assert(state_views(a@)[i as int] != state_views(b@)[i as int]);
            }
            return false;
        }
        i = i + 1;
    }
    proof {
        assert(state_views(a@) =~= state_views(b@));
    }
    true
}

/// A record belongs to a target file.
pub open spec fn target_pred(files: Seq<Seq<u8>>) -> spec_fn((Seq<u8>, Seq<u8>)) -> bool {
    |e: (Seq<u8>, Seq<u8>)| files.contains(e.0)
}

fn contains_path(files: &Vec<Vec<u8>>, path: &Vec<u8>) -> (r: bool)
    ensures
        r == byte_views(files@).contains(path@),
{
    let mut i: usize = 0;
    while i < files.len()
        invariant
            i <= files@.len(),
            forall|k: int| 0 <= k < i ==> (#[trigger] byte_views(files@)[k]) != path@,
        decreases files@.len() - i,
    {
        let same = bytes_eq(&files[i], path);
        proof {
            assert(byte_views(files@)[i as int] == files@[i as int]@);
        }
        if same {
            return true;
        }
        i = i + 1;
    }
    proof {
        assert forall|k: int| 0 <= k < byte_views(files@).len() implies byte_views(files@)[k]
            != path@ by {}
    }
    false
}

/// Keeps exactly the records whose path is among the target files.
fn retain_targets(entries: Vec<CacheEntry>, files: &Vec<Vec<u8>>) -> (out: Vec<CacheEntry>)
    ensures
        entry_views(out@) == entry_views(entries@).filter(target_pred(byte_views(files@))),
{
    let ghost orig = entry_views(entries@);
    let ghost pred = target_pred(byte_views(files@));
    let mut out: Vec<CacheEntry> = Vec::new();
    let mut src = entries;
    let ghost mut i: int = 0;
    proof {
        reveal(Seq::filter);
        assert(entry_views(out@) =~= orig.take(0).filter(pred));
    }
    while src.len() > 0
        invariant
            0 <= i,
            i + src@.len() == orig.len(),
            pred == target_pred(byte_views(files@)),
            entry_views(src@) =~= orig.skip(i),
            entry_views(out@) == orig.take(i).filter(pred),
        decreases src@.len(),
    {
        proof {
            assert(entry_views(src@)[0] == orig[i]);
            assert(entry_views(src@.drop_first()) =~= entry_views(src@).drop_first());
        }
        let e = src.remove(0);
        proof {
            assert((e.path@, e.content@) == orig[i]);
        }
        let keep = contains_path(files, &e.path);
        let ghost prev = entry_views(out@);
        proof {
            assert(keep == pred(orig[i]));
        }
        if keep {
            out.push(e);
            proof {
                assert(entry_views(out@) =~= prev.push(orig[i]));
            }
        }
        proof {
            reveal(Seq::filter);
            assert(orig.take(i + 1).drop_last() =~= orig.take(i));
            assert(orig.take(i + 1).last() == orig[i]);
            assert(orig.take(i + 1).filter(pred) == if pred(orig[i]) {
                prev.push(orig[i])
            } else {
                prev
            });
            i = i + 1;
        }
    }
    proof {
        assert(orig.take(i) =~= orig);
    }
    out
}

impl IncrementalCache {
    /// A fresh gateway for the given fingerprint, with no clean record.
    pub fn new(state: Vec<Vec<u8>>) -> (r: IncrementalCache)
        ensures
            state_views(r.state@) == state_views(state@),
            r.entries@.len() == 0,
    {
        IncrementalCache { state, entries: Vec::new() }
    }

    /// A gateway for `state` and the target file set `files` that carries
    /// an earlier run's records over exactly when that run used the same
    /// fingerprint, and only for files still among the targets: a changed
    /// rule set invalidates every prior record, and records of now-absent
    /// files are dropped.
    pub fn from_previous(state: Vec<Vec<u8>>, files: &Vec<Vec<u8>>, previous: IncrementalCache)
        -> (r: IncrementalCache)
        ensures
            state_views(r.state@) == state_views(state@),
            entry_views(r.entries@) == if state_views(state@) == state_views(previous.state@) {
                entry_views(previous.entries@).filter(target_pred(byte_views(files@)))
            } else {
                Seq::<(Seq<u8>, Seq<u8>)>::empty()
            },
    {
        if states_eq(&state, &previous.state) {
            let entries = retain_targets(previous.entries, files);
            IncrementalCache { state, entries }
        } else {
            proof {
                assert(entry_views(Seq::<CacheEntry>::empty()) =~= Seq::<(Seq<u8>, Seq<u8>)>::empty());
            }
            IncrementalCache { state, entries: Vec::new() }
        }
    }

    /// True exactly when this path with this content is recorded clean:
    /// the caller skips the file's analysis entirely.
    pub fn is_file_same(&self, path: &Vec<u8>, content: &Vec<u8>) -> (r: bool)
        ensures
            r == cache_has(entry_views(self.entries@), path@, content@),
    {
        let mut i: usize = 0;
        while i < self.entries.len()
            invariant
                i <= self.entries@.len(),
                forall|k: int|
                    0 <= k < i ==> !((#[trigger] entry_views(self.entries@)[k]).0 == path@
                        && entry_views(self.entries@)[k].1 == content@),
            decreases self.entries@.len() - i,
        {
            if bytes_eq(&self.entries[i].path, path) && bytes_eq(&self.entries[i].content, content) {
                proof {
                    assert(entry_views(self.entries@)[i as int].0 == path@);
                    assert(entry_views(self.entries@)[i as int].1 == content@);
                }
                return true;
            }
            i = i + 1;
        }
        false
    }

    /// Records that the most recent analysis of exactly this content, under
    /// the active rule set, produced zero diagnostics.
    pub fn update_file(&mut self, path: &Vec<u8>, content: &Vec<u8>)
        ensures
            final(self).state@ == old(self).state@,
            entry_views(final(self).entries@) == entry_views(old(self).entries@).push(
                (path@, content@),
            ),
    {
        let entry = CacheEntry {
            path: crate::diagnostics::copy_bytes(path),
            content: crate::diagnostics::copy_bytes(content),
        };
        let ghost prev = entry_views(self.entries@);
        self.entries.push(entry);
        proof {
            assert(entry_views(self.entries@) =~= prev.push((path@, content@)));
        }
    }
}

} // verus!
