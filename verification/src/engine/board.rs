//! The statuses that an indexer shows, by the path of the codebase. Paths with the
//! same components are one path, however they are spelled.

use crate::path::{components, HostPath};
use crate::types::IndexStatus;
use vstd::prelude::*;

verus! {

#[derive(Debug)]
struct Entry {
    path: HostPath,
    status: IndexStatus,
}

/// Statuses by path.
#[derive(Debug)]
pub struct StatusBoard {
    entries: Vec<Entry>,
}

spec fn shown(entries: Seq<Entry>) -> Map<Seq<Seq<u8>>, IndexStatus>
    decreases entries.len(),
{
    if entries.len() == 0 {
        Map::empty()
    } else {
        shown(entries.drop_last()).insert(
            components(entries.last().path@),
            entries.last().status,
        )
    }
}

impl View for StatusBoard {
    type V = Map<Seq<Seq<u8>>, IndexStatus>;

    closed spec fn view(&self) -> Map<Seq<Seq<u8>>, IndexStatus> {
        shown(self.entries@)
    }
}

impl StatusBoard {
    /// An empty board.
    pub fn new() -> (r: Self)
        ensures
            r@ == Map::<Seq<Seq<u8>>, IndexStatus>::empty(),
    {
        StatusBoard { entries: Vec::new() }
    }

    pub fn get(&self, path: &HostPath) -> (r: Option<IndexStatus>)
        ensures
            r == (if self@.contains_key(components(path@)) {
                Some(self@[components(path@)])
            } else {
                None
            }),
    {
        let ghost all = self.entries@;
        let mut i: usize = self.entries.len();
        assert(all.take(i as int) =~= all);
        while i > 0
            invariant
                i <= all.len(),
                all == self.entries@,
                self@.contains_key(components(path@)) == shown(all.take(i as int)).contains_key(components(path@)),
                self@.contains_key(components(path@)) ==> self@[components(path@)] == shown(all.take(i as int))[components(path@)],
            decreases i,
        {
            i -= 1;
            proof {
                assert(all.take(i + 1).drop_last() =~= all.take(i as int));
                assert(all.take(i + 1).last() == all[i as int]);
            }
            if self.entries[i].path.same_path(path) {
                return Some(self.entries[i].status);
            }
        }
        None
    }

    pub fn remove(&mut self, path: &HostPath)
        ensures
            final(self)@ == old(self)@.remove(components(path@)),
    {
        let mut entries: Vec<Entry> = Vec::new();
        std::mem::swap(&mut entries, &mut self.entries);
        let ghost all = entries@;
        let mut kept: Vec<Entry> = Vec::new();
        assert(all.take(0) =~= Seq::empty());
        assert(shown(kept@) =~= shown(all.take(0)).remove(components(path@)));
        for entry in it: entries
            invariant
                it.seq() == all,
                shown(kept@) == shown(all.take(it.index() as int)).remove(components(path@)),
        {
            proof {
                let n = it.index() as int;
                assert(all.take(n + 1).drop_last() =~= all.take(n));
                assert(all.take(n + 1).last() == entry);
            }
            let ghost before = kept@;
            if !entry.path.same_path(path) {
                kept.push(entry);
                assert(kept@.drop_last() =~= before);
            }
            assert(shown(kept@) =~= shown(all.take(it.index() + 1)).remove(components(path@)));
        }
        assert(all.take(all.len() as int) =~= all);
        self.entries = kept;
    }

    pub fn insert(&mut self, path: &HostPath, status: IndexStatus)
        ensures
            final(self)@ == old(self)@.insert(components(path@), status),
    {
        let ghost start = self@;
        self.remove(path);
        let ghost before = self.entries@;
        self.entries.push(Entry { path: path.clone(), status });
        assert(self.entries@.drop_last() =~= before);
        assert(self@ =~= start.insert(components(path@), status));
    }
}

} // verus!
