//! The path resolver: rebuilds where an entry lives from its parent links.
use vstd::prelude::*;

use crate::filesystem::{FileSystem, FsModel};

verus! {

/// Record number of the volume's root directory.
pub const ROOT_FRN: u64 = 5;

/// `pre` put in front of the sequence in `o`, if there is one.
pub open spec fn prepend(pre: Seq<usize>, o: Option<Seq<usize>>) -> Option<Seq<usize>> {
    match o {
        Some(s) => Some(pre + s),
        None => None,
    }
}

/// The positions of the directories above the entry at `p`, nearest first,
/// found by following parent links through the map for at most `fuel` steps;
/// `None` where a link is missing or the root is not reached in time.
pub open spec fn ancestors(m: FsModel, p: usize, fuel: nat) -> Option<Seq<usize>>
    decreases fuel,
{
    if m.parents[p as int] == ROOT_FRN {
        Some(Seq::empty())
    } else if fuel == 0 {
        None
    } else {
        match m.pos_of(m.parents[p as int]) {
            None => None,
            Some(q) => prepend(seq![q], ancestors(m, q, (fuel - 1) as nat)),
        }
    }
}

/// The path of the entry at `p`: the volume root, then the names of its
/// directories from the root down. A chain can pass each entry once only,
/// so it is followed for at most as many steps as there are entries.
pub open spec fn path_of(m: FsModel, p: usize) -> Option<Seq<Seq<char>>> {
    match ancestors(m, p, m.len() as nat) {
        Some(up) => Some(seq![m.volume] + up.reverse().map_values(|q: usize| m.names[q as int])),
        None => None,
    }
}

impl FileSystem {
    /// The positions of the directories above the entry at `position`, nearest
    /// first, or `None` where the chain of parents does not reach the root.
    pub fn ancestors_of(&self, position: usize) -> (r: Option<Vec<usize>>)
        requires
            self.wf(),
            (position as int) < self@.len(),
        ensures
            match r {
                Some(v) => ancestors(self@, position, self@.len() as nat) == Some(v@),
                None => ancestors(self@, position, self@.len() as nat) is None,
            },
    {
        let ghost m = self@;
        let mut up: Vec<usize> = Vec::new();
        let mut cur = position;
        let mut fuel = self.frn_mapping.len();
        while self.parent_mapping[cur] != ROOT_FRN
            invariant
                self.wf(),
                m == self@,
                (cur as int) < m.len(),
                fuel <= m.len(),
                ancestors(m, position, m.len() as nat) == prepend(
                    up@,
                    ancestors(m, cur, fuel as nat),
                ),
            decreases fuel,
        {
            if fuel == 0 {
                return None;
            }
            match self.position_of(self.parent_mapping[cur]) {
                None => {
                    return None;
                },
                Some(q) => {
                    proof {
                        match ancestors(m, q, (fuel - 1) as nat) {
                            Some(s) => {
                                assert(up@.push(q) + s =~= up@ + (seq![q] + s));
                            },
                            None => {},
                        }
                    }
                    up.push(q);
                    cur = q;
                    fuel = fuel - 1;
                },
            }
        }
        proof {
            assert(up@ + Seq::<usize>::empty() =~= up@);
        }
        Some(up)
    }

    /// The path of the entry at `position` as its components: the volume
    /// root, then the names of its directories from the root down. `None`
    /// where the chain of parents does not reach the root; the entry may
    /// resolve again once later events are applied.
    pub fn path(&self, position: usize) -> (r: Option<Vec<String>>)
        requires
            self.wf(),
            (position as int) < self@.len(),
        ensures
            match r {
                Some(v) => path_of(self@, position) == Some(v@.map_values(|s: String| s@)),
                None => path_of(self@, position) is None,
            },
    {
        let up = match self.ancestors_of(position) {
            None => {
                return None;
            },
            Some(up) => up,
        };
        proof {
            self.lemma_ancestors_in_bounds(position, self@.len() as nat, up@);
        }
        let ghost m = self@;
        let ghost names = up@.reverse().map_values(|q: usize| m.names[q as int]);
        let mut components: Vec<String> = Vec::new();
        components.push(self.volume_path.clone());
        let mut i = up.len();
        while i > 0
            invariant
                m == self@,
                self.wf(),
                i <= up@.len(),
                names.len() == up@.len(),
                names == up@.reverse().map_values(|q: usize| m.names[q as int]),
                forall|k: int| 0 <= k < up@.len() ==> (#[trigger] up@[k] as int) < m.len(),
                components@.map_values(|s: String| s@) =~= seq![m.volume] + names.subrange(
                    0,
                    (up@.len() - i) as int,
                ),
            decreases i,
        {
            i = i - 1;
            let ghost before = components@;
            let c = self.filenames[up[i]].clone();
            components.push(c);
            proof {
                assert(components@.map_values(|s: String| s@) =~= before.map_values(|s: String| s@).push(c@));
                assert(c@ == m.names[up@[i as int] as int]);
                assert(names[(up@.len() - 1 - i) as int] == m.names[up@[i as int] as int]);
                assert(names.subrange(0, (up@.len() - i) as int) =~= names.subrange(
                    0,
                    (up@.len() - i - 1) as int,
                ).push(m.names[up@[i as int] as int]));
            }
        }
        proof {
            assert(names.subrange(0, up@.len() as int) =~= names);
        }
        Some(components)
    }

    /// Every ancestor found addresses an entry.
    proof fn lemma_ancestors_in_bounds(&self, p: usize, fuel: nat, up: Seq<usize>)
        requires
            self.wf(),
            ancestors(self@, p, fuel) == Some(up),
        ensures
            forall|k: int| 0 <= k < up.len() ==> (#[trigger] up[k] as int) < self@.len(),
        decreases fuel,
    {
        let m = self@;
        if m.parents[p as int] != ROOT_FRN {
            let q = m.pos_of(m.parents[p as int]).unwrap();
            let rest = ancestors(m, q, (fuel - 1) as nat).unwrap();
            self.lemma_ancestors_in_bounds(q, (fuel - 1) as nat, rest);
            assert(up == seq![q] + rest);
            assert forall|k: int| 0 <= k < up.len() implies (#[trigger] up[k] as int) < m.len() by {
                if k > 0 {
                    assert(up[k] == rest[k - 1]);
                }
            }
        }
    }
}

} // verus!
