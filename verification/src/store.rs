//! The snapshot store: one current-value slot of normalized content per
//! site id; later writes fully replace earlier ones, and reading an id that
//! was never written yields the empty string.
//!
//! The store itself is in memory; an embedding application that needs
//! durability mirrors each `save_snapshot` to stable storage.

use vstd::prelude::*;
use vstd::string::StringExecFns;

use crate::text::{lemma_strings_view, str_eq};

verus! {

/// The map held by parallel id/content columns; a later entry for the same
/// id wins.
pub open spec fn entries_map(ids: Seq<Seq<char>>, cs: Seq<Seq<char>>) -> Map<Seq<char>, Seq<char>>
    decreases ids.len(),
{
    if ids.len() == 0 || cs.len() != ids.len() {
        Map::empty()
    } else {
        entries_map(ids.drop_last(), cs.drop_last()).insert(ids.last(), cs.last())
    }
}

/// In-memory snapshot store, viewed as a map from site id to the last
/// content saved for it.
pub struct Storage {
    ids: Vec<String>,
    contents: Vec<String>,
}

/// With distinct ids, each column position is exactly the map entry for
/// its id, and the map holds no other keys.
proof fn lemma_entries_map_index(ids: Seq<Seq<char>>, cs: Seq<Seq<char>>)
    requires
        ids.len() == cs.len(),
        forall|i: int, j: int| 0 <= i < j < ids.len() ==> ids[i] != ids[j],
    ensures
        forall|j: int|
            0 <= j < ids.len() ==> entries_map(ids, cs).dom().contains(#[trigger] ids[j])
                && entries_map(ids, cs)[ids[j]] == cs[j],
        forall|k: Seq<char>|
            entries_map(ids, cs).dom().contains(k) ==> exists|j: int|
                0 <= j < ids.len() && ids[j] == k,
    decreases ids.len(),
{
    if ids.len() == 0 {
    } else {
        let idp = ids.drop_last();
        let csp = cs.drop_last();
        assert forall|i: int, j: int| 0 <= i < j < idp.len() implies idp[i] != idp[j] by {
            assert(idp[i] == ids[i] && idp[j] == ids[j]);
        }
        lemma_entries_map_index(idp, csp);
        assert forall|j: int| 0 <= j < ids.len() implies entries_map(ids, cs).dom().contains(
            #[trigger] ids[j],
        ) && entries_map(ids, cs)[ids[j]] == cs[j] by {
            if j < ids.len() - 1 {
                assert(idp[j] == ids[j] && csp[j] == cs[j]);
                assert(ids[j] != ids.last());
            }
        }
        assert forall|k: Seq<char>| entries_map(ids, cs).dom().contains(k) implies exists|j: int|
            0 <= j < ids.len() && ids[j] == k by {
            if k == ids.last() {
                assert(ids[ids.len() - 1] == k);
            } else {
                assert(entries_map(idp, csp).dom().contains(k));
                let j = choose|j: int| 0 <= j < idp.len() && idp[j] == k;
                assert(ids[j] == k);
            }
        }
    }
}

/// Updating one content cell updates exactly that id's map entry.
proof fn lemma_entries_map_update(ids: Seq<Seq<char>>, cs: Seq<Seq<char>>, j: int, c: Seq<char>)
    requires
        ids.len() == cs.len(),
        forall|i: int, k: int| 0 <= i < k < ids.len() ==> ids[i] != ids[k],
        0 <= j < ids.len(),
    ensures
        entries_map(ids, cs.update(j, c)) == entries_map(ids, cs).insert(ids[j], c),
    decreases ids.len(),
{
    let cs2 = cs.update(j, c);
    if j == ids.len() - 1 {
        assert(cs2.drop_last() =~= cs.drop_last());
        assert(cs2.last() == c);
        assert(entries_map(ids, cs2) == entries_map(ids.drop_last(), cs.drop_last()).insert(
            ids.last(),
            c,
        ));
        assert(entries_map(ids, cs).insert(ids[j], c) =~= entries_map(
            ids.drop_last(),
            cs.drop_last(),
        ).insert(ids.last(), c));
    } else {
        let idp = ids.drop_last();
        let csp = cs.drop_last();
        assert forall|i: int, k: int| 0 <= i < k < idp.len() implies idp[i] != idp[k] by {
            assert(idp[i] == ids[i] && idp[k] == ids[k]);
        }
        assert(idp[j] == ids[j] && csp[j] == cs[j]);
        lemma_entries_map_update(idp, csp, j, c);
        assert(cs2.drop_last() =~= csp.update(j, c));
        assert(cs2.last() == cs.last());
        assert(entries_map(ids, cs2) == entries_map(idp, csp).insert(ids[j], c).insert(
            ids.last(),
            cs.last(),
        ));
        assert(ids[j] != ids.last());
        assert(entries_map(idp, csp).insert(ids[j], c).insert(ids.last(), cs.last())
            =~= entries_map(idp, csp).insert(ids.last(), cs.last()).insert(ids[j], c));
    }
}

impl View for Storage {
    type V = Map<Seq<char>, Seq<char>>;

    closed spec fn view(&self) -> Map<Seq<char>, Seq<char>> {
        entries_map(self.ids.deep_view(), self.contents.deep_view())
    }
}

impl Storage {
    #[verifier::type_invariant]
    closed spec fn inv(self) -> bool {
        &&& self.ids@.len() == self.contents@.len()
        &&& forall|i: int, j: int|
            0 <= i < j < self.ids@.len() ==> self.ids@[i]@ != self.ids@[j]@
    }

    /// An empty store: no snapshot recorded for any id.
    pub fn new() -> (s: Storage)
        ensures
            s@ == Map::<Seq<char>, Seq<char>>::empty(),
    {
        let s = Storage { ids: Vec::new(), contents: Vec::new() };
        proof {
            assert(s.ids.deep_view() =~= Seq::<Seq<char>>::empty());
            assert(s@ =~= Map::<Seq<char>, Seq<char>>::empty());
        }
        s
    }

    /// Index of the column holding `site_id`, if any.
    fn find(&self, site_id: &str) -> (r: Option<usize>)
        ensures
            match r {
                Some(j) => j < self.ids@.len() && self.ids@[j as int]@ == site_id@,
                None => forall|j: int| 0 <= j < self.ids@.len() ==> self.ids@[j]@ != site_id@,
            },
    {
        let n: usize = self.ids.len();
        let mut i: usize = 0;
        while i < n
            invariant
                n == self.ids@.len(),
                i <= n,
                forall|j: int| 0 <= j < i ==> self.ids@[j]@ != site_id@,
            decreases n - i,
        {
            if str_eq(self.ids[i].as_str(), site_id) {
                return Some(i);
            }
            i += 1;
        }
        None
    }

    /// Stores `content` as the current snapshot for `site_id`, replacing
    /// whatever was there.
    pub fn save_snapshot(&mut self, site_id: &str, content: &str)
        ensures
            final(self)@ == old(self)@.insert(site_id@, content@),
    {
        proof {
            use_type_invariant(&*self);
        }
        let found = self.find(site_id);
        let ghost ids0: Seq<Seq<char>> = self.ids.deep_view();
        let ghost cs0: Seq<Seq<char>> = self.contents.deep_view();
        proof {
            lemma_strings_view(&self.ids);
            lemma_strings_view(&self.contents);
        }
        match found {
            Some(j) => {
                self.contents[j] = String::from_str(content);
                proof {
                    lemma_strings_view(&self.contents);
                    assert(self.contents.deep_view() =~= cs0.update(j as int, content@));
                    assert forall|i: int, k: int| 0 <= i < k < ids0.len() implies ids0[i]
                        != ids0[k] by {
                        assert(ids0[i] == self.ids@[i]@ && ids0[k] == self.ids@[k]@);
                    }
                    lemma_entries_map_update(ids0, cs0, j as int, content@);
                    assert(ids0[j as int] == site_id@);
                }
            },
            None => {
                let mut this = Storage { ids: Vec::new(), contents: Vec::new() };
                core::mem::swap(&mut this, self);
                let Storage { mut ids, mut contents } = this;
                ids.push(String::from_str(site_id));
                contents.push(String::from_str(content));
                proof {
                    lemma_strings_view(&ids);
                    lemma_strings_view(&contents);
                    assert(ids.deep_view() =~= ids0.push(site_id@));
                    assert(contents.deep_view() =~= cs0.push(content@));
                    assert(ids.deep_view().drop_last() =~= ids0);
                    assert(contents.deep_view().drop_last() =~= cs0);
                    assert forall|i: int, k: int| 0 <= i < k < ids@.len() implies ids@[i]@
                        != ids@[k]@ by {
                        if k < ids@.len() - 1 {
                            assert(ids@[i]@ == ids0[i] && ids@[k]@ == ids0[k]);
                        } else {
                            assert(ids@[k]@ == site_id@);
                        }
                    }
                }
                *self = Storage { ids, contents };
                proof {
                    assert(self@ == entries_map(ids0, cs0).insert(site_id@, content@));
                }
            },
        }
    }

    /// The current snapshot for `site_id`, or the empty string if none was
    /// ever saved: a read of a never-written id is not an error.
    pub fn get_snapshot(&self, site_id: &str) -> (r: String)
        ensures
            r@ == if self@.dom().contains(site_id@) {
                self@[site_id@]
            } else {
                Seq::<char>::empty()
            },
    {
        proof {
            use_type_invariant(self);
            lemma_strings_view(&self.ids);
            lemma_strings_view(&self.contents);
            assert forall|i: int, k: int|
                0 <= i < k < self.ids.deep_view().len() implies self.ids.deep_view()[i]
                != self.ids.deep_view()[k] by {
                assert(self.ids.deep_view()[i] == self.ids@[i]@);
                assert(self.ids.deep_view()[k] == self.ids@[k]@);
            }
            lemma_entries_map_index(self.ids.deep_view(), self.contents.deep_view());
        }
        let found = self.find(site_id);
        match found {
            Some(j) => {
                let r = self.contents[j].clone();
                proof {
                    assert(self.ids.deep_view()[j as int] == site_id@);
                }
                r
            },
            None => {
                proof {
                    if self@.dom().contains(site_id@) {
                        let j = choose|j: int|
                            0 <= j < self.ids.deep_view().len() && self.ids.deep_view()[j]
                                == site_id@;
                        assert(self.ids@[j]@ == site_id@);
                    }
                }
                String::new()
            },
        }
    }
}

} // verus!
