use vstd::prelude::*;

use crate::text::command::{clone_command, clone_commands, same_command, same_commands, Command, MacroId};

verus! {

/// The recorded macros: for each name, its commands. Each name has one entry.
pub struct Macros {
    h: Vec<(MacroId, Vec<Command>)>,
    m: Ghost<Map<MacroId, Seq<Command>>>,
}

impl Macros {
    /// The recorded macros, by name.
    pub closed spec fn recorded(&self) -> Map<MacroId, Seq<Command>> {
        self.m@
    }

    /// Each name has one entry, and the entries are the recorded macros.
    pub closed spec fn wf(&self) -> bool {
        &&& forall|i: int, j: int| 0 <= i < j < self.h@.len() ==> self.h@[i].0 != self.h@[j].0
        &&& forall|i: int| 0 <= i < self.h@.len() ==> #[trigger] self.m@.dom().contains(self.h@[i].0)
            && self.m@[self.h@[i].0] == self.h@[i].1@
        &&& forall|k: MacroId|
            #[trigger] self.m@.dom().contains(k) ==> exists|i: int| 0 <= i < self.h@.len() && self.h@[i].0 == k
    }

    /// Where the entry of `id` stands, if there is one.
    fn find(&self, id: &MacroId) -> (r: Option<usize>)
        requires
            self.wf(),
        ensures
            r is None <==> !self.recorded().dom().contains(*id),
            r matches Some(i) ==> i < self.h@.len() && self.h@[i as int].0 == *id,
    {
        let mut i: usize = 0;
        while i < self.h.len()
            invariant
                self.wf(),
                i <= self.h@.len(),
                forall|j: int| 0 <= j < i ==> self.h@[j].0 != *id,
            decreases self.h@.len() - i,
        {
            if self.h[i].0 == *id {
                proof {
                    assert(self.m@.dom().contains(self.h@[i as int].0));
                }
                return Some(i);
            }
            i = i + 1;
        }
        None
    }

    /// Forgets every macro.
    pub fn clear_all(&mut self)
        ensures
            final(self).wf(),
            final(self).recorded() == Map::<MacroId, Seq<Command>>::empty(),
    {
        self.h = Vec::new();
        self.m = Ghost(Map::empty());
    }

    /// Records a copy of `c` at the end of macro `id` when it exists; otherwise starts macro
    /// `id` with no command (and `c` is not recorded).
    pub fn add(&mut self, id: &MacroId, c: &Command)
        requires
            old(self).wf(),
        ensures
            final(self).wf(),
            old(self).recorded().dom().contains(*id) ==> {
                let before = old(self).recorded()[*id];
                let after = final(self).recorded()[*id];
                &&& final(self).recorded().dom() == old(self).recorded().dom()
                &&& forall|k: MacroId| k != *id && #[trigger] old(self).recorded().dom().contains(k)
                    ==> final(self).recorded()[k] == old(self).recorded()[k]
                &&& after.len() == before.len() + 1
                &&& after.take(before.len() as int) == before
                &&& same_command(*c, after.last())
            },
            !old(self).recorded().dom().contains(*id) ==> final(self).recorded() == old(
                self,
            ).recorded().insert(*id, Seq::empty()),
    {
        match self.find(id) {
            Some(i) => {
                let ghost before = self.h@;
                let (k, mut v) = self.h.remove(i);
                let ghost vs = v@;
                v.push(clone_command(c));
                let ghost nv = v@;
                self.h.insert(i, (k, v));
                self.m = Ghost(self.m@.insert(*id, nv));
                proof {
                    assert(nv.take(vs.len() as int) =~= vs);
                    assert forall|j: int| 0 <= j < self.h@.len() && j != i implies #[trigger] self.h@[j]
                        == before[j] by {}
                    assert forall|k: MacroId| #[trigger] self.m@.dom().contains(k) implies exists|j: int|
                        0 <= j < self.h@.len() && self.h@[j].0 == k by {
                        let j0 = choose|j: int| 0 <= j < before.len() && before[j].0 == k;
                        assert(self.h@[j0].0 == k);
                    }
                    assert(self.m@.dom() =~= old(self).m@.dom());
                }
            },
            None => {
                let ghost before = self.h@;
                self.h.push((*id, Vec::new()));
                self.m = Ghost(self.m@.insert(*id, Seq::empty()));
                proof {
                    let n = before.len() as int;
                    assert(self.h@[n].1@ =~= Seq::<Command>::empty());
                    assert forall|k: MacroId| #[trigger] self.m@.dom().contains(k) implies exists|j: int|
                        0 <= j < self.h@.len() && self.h@[j].0 == k by {
                        if k != *id {
                            let j0 = choose|j: int| 0 <= j < before.len() && before[j].0 == k;
                            assert(self.h@[j0].0 == k);
                        } else {
                            assert(self.h@[n].0 == k);
                        }
                    }
                }
            },
        }
    }

    /// Forgets macro `id`.
    pub fn clear(&mut self, id: &MacroId)
        requires
            old(self).wf(),
        ensures
            final(self).wf(),
            final(self).recorded() == old(self).recorded().remove(*id),
    {
        match self.find(id) {
            Some(i) => {
                let ghost before = self.h@;
                self.h.remove(i);
                self.m = Ghost(self.m@.remove(*id));
                proof {
                    assert forall|j: int| 0 <= j < self.h@.len() implies #[trigger] self.h@[j] == if j < i {
                        before[j]
                    } else {
                        before[j + 1]
                    } by {}
                    assert forall|k: MacroId| #[trigger] self.m@.dom().contains(k) implies exists|j: int|
                        0 <= j < self.h@.len() && self.h@[j].0 == k by {
                        let j0 = choose|j: int| 0 <= j < before.len() && before[j].0 == k;
                        if j0 < i {
                            assert(self.h@[j0].0 == k);
                        } else {
                            assert(self.h@[j0 - 1].0 == k);
                        }
                    }
                }
            },
            None => {
                proof {
                    assert(self.m@.remove(*id) =~= self.m@);
                }
            },
        }
    }

    /// A copy of the commands of macro `id`; none when there is no such macro.
    pub fn get(&self, id: &MacroId) -> (r: Vec<Command>)
        requires
            self.wf(),
        ensures
            self.recorded().dom().contains(*id) ==> same_commands(self.recorded()[*id], r@),
            !self.recorded().dom().contains(*id) ==> r@.len() == 0,
    {
        match self.find(id) {
            Some(i) => clone_commands(self.h[i].1.as_slice()),
            None => Vec::new(),
        }
    }
}

impl Default for Macros {
    /// No macro recorded.
    fn default() -> (s: Self)
        ensures
            s.wf(),
            s.recorded() == Map::<MacroId, Seq<Command>>::empty(),
    {
        Macros { h: Vec::new(), m: Ghost(Map::empty()) }
    }
}

} // verus!
