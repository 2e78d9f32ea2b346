//! The consumer's side of the stream: a name-keyed map of the latest
//! snapshot per output.
//!
//! The UI folds every received [`OutputInfo`] into such a map and renders
//! from it; a bar asks the map whether its output should currently draw
//! transparently.  Keys are output names, each held at most once.

use vstd::prelude::*;

use crate::model::{OutputInfo, OutputInfoV};
use crate::niri::{find_output, find_output_index, lemma_find_output_char, out_view};

verus! {

/// The latest snapshot per output name, in arrival order of first sight.
pub struct OutputMap {
    entries: Vec<OutputInfo>,
}

/// Upsert: replace the snapshot stored under the same name, or append a
/// snapshot of a previously unseen output.
pub open spec fn upserted(s: Seq<OutputInfoV>, info: OutputInfoV) -> Seq<OutputInfoV> {
    match find_output(s, info.name) {
        Some(k) => s.update(k, info),
        None => s.push(info),
    }
}

impl View for OutputMap {
    type V = Seq<OutputInfoV>;

    closed spec fn view(&self) -> Seq<OutputInfoV> {
        out_view(self.entries@)
    }
}

impl OutputMap {
    /// Names are keys: no two stored snapshots share one.
    pub open spec fn wf(&self) -> bool {
        forall|i: int, j: int| 0 <= i < j < self@.len() ==> self@[i].name != self@[j].name
    }

    /// An empty map.
    pub fn new() -> (m: Self)
        ensures
            m.wf(),
            m@ == Seq::<OutputInfoV>::empty(),
    {
        let m = OutputMap { entries: Vec::new() };
        proof {
            assert(m@ =~= Seq::<OutputInfoV>::empty());
        }
        m
    }

    /// Fold one received snapshot in.
    pub fn insert(&mut self, info: OutputInfo)
        requires
            old(self).wf(),
        ensures
            final(self)@ == upserted(old(self)@, info@),
            final(self).wf(),
    {
        let ghost pre = self@;
        match find_output_index(&self.entries, &info.name) {
            Some(k) => {
                self.entries.remove(k);
                self.entries.insert(k, info);
                proof {
                    assert(self@ =~= pre.update(k as int, info@));
                    lemma_find_output_char(pre, info@.name);
                    assert forall|i: int, j: int| 0 <= i < j < self@.len() implies self@[i].name
                        != self@[j].name by {
                        assert(pre[k as int].name == info@.name);
                    }
                }
            },
            None => {
                self.entries.push(info);
                proof {
                    assert(self@ =~= pre.push(info@));
                    lemma_find_output_char(pre, info@.name);
                    assert forall|i: int, j: int| 0 <= i < j < self@.len() implies self@[i].name
                        != self@[j].name by {
                        if j == self@.len() - 1 {
                            assert(pre[i].name != info@.name);
                        }
                    }
                }
            },
        }
    }

    /// The snapshot stored for this output, if any.
    pub fn get(&self, name: &String) -> (r: Option<&OutputInfo>)
        ensures
            match r {
                Some(info) => find_output(self@, name@) is Some && info@ == self@[find_output(
                    self@,
                    name@,
                ).unwrap()],
                None => find_output(self@, name@) == None::<int>,
            },
    {
        match find_output_index(&self.entries, name) {
            Some(k) => Some(&self.entries[k]),
            None => None,
        }
    }

    /// Whether the bar on this output should currently draw transparently;
    /// an unknown output draws opaque.
    pub fn is_transparent(&self, name: &String) -> (r: bool)
        ensures
            r == match find_output(self@, name@) {
                Some(k) => self@[k].show_transparent,
                None => false,
            },
    {
        match find_output_index(&self.entries, name) {
            Some(k) => self.entries[k].show_transparent,
            None => false,
        }
    }

    /// The stored snapshots, in order of first sight.
    pub fn entries(&self) -> (r: &Vec<OutputInfo>)
        ensures
            out_view(r@) == self@,
    {
        &self.entries
    }

    /// How many outputs are known.
    pub fn len(&self) -> (r: usize)
        ensures
            r == self@.len(),
    {
        self.entries.len()
    }
}

} // verus!
