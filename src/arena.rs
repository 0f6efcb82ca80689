use vstd::prelude::*;

verus! {

/// Opaque identity of an arena-resident value: a slot index and the
/// generation that slot had when the value was stored.
#[derive(Clone, Copy, Debug, PartialEq, Eq, Structural)]
pub struct Handle {
    pub index: u32,
    pub generation: u32,
}

/// One slot: the generation it is at, and the value it holds, if any.
pub struct Slot<T> {
    pub generation: u32,
    pub value: Option<T>,
}

/// A pool of slots addressed by generational handles.
pub struct Arena<T> {
    slots: Vec<Slot<T>>,
    free: Vec<u32>,
    issued: Ghost<Set<Handle>>,
}

impl<T> Arena<T> {
    pub closed spec fn slot_count(&self) -> nat {
        self.slots@.len()
    }

    /// A handle is valid when its slot is occupied and carries its generation.
    pub closed spec fn valid(&self, h: Handle) -> bool {
        &&& (h.index as int) < self.slots@.len()
        &&& self.slots@[h.index as int].value is Some
        &&& self.slots@[h.index as int].generation == h.generation
    }

    /// Every handle this arena has ever handed out.
    pub closed spec fn issued(&self) -> Set<Handle> {
        self.issued@
    }

    /// A handle that was handed out and no longer refers to a value.
    pub open spec fn dead(&self, h: Handle) -> bool {
        self.issued().contains(h) && !self.valid(h)
    }

    /// The live contents, by handle.
    pub closed spec fn view(&self) -> Map<Handle, T> {
        Map::new(|h: Handle| self.valid(h), |h: Handle| self.slots@[h.index as int].value->0)
    }

    /// No further value can be stored: no free slot and no index left.
    pub closed spec fn is_full(&self) -> bool {
        self.free@.len() == 0 && self.slots@.len() >= u32::MAX
    }

    /// The handle of the value in slot `i`, if that slot is occupied.
    pub closed spec fn handle_at(&self, i: int) -> Option<Handle> {
        if 0 <= i < self.slots@.len() && self.slots@[i].value is Some {
            Some(Handle { index: i as u32, generation: self.slots@[i].generation })
        } else {
            None
        }
    }

    pub closed spec fn wf(&self) -> bool {
        &&& self.slots@.len() <= u32::MAX
        &&& forall|k: int|
            0 <= k < self.free@.len() ==> {
                let i = #[trigger] self.free@[k] as int;
                &&& i < self.slots@.len()
                &&& self.slots@[i].value is None
            }
        &&& forall|k: int, l: int|
            0 <= k < self.free@.len() && 0 <= l < self.free@.len() && k != l ==> self.free@[k]
                != self.free@[l]
        &&& forall|h: Handle|
            #[trigger] self.issued@.contains(h) ==> {
                &&& (h.index as int) < self.slots@.len()
                &&& h.generation <= self.slots@[h.index as int].generation
                &&& (h.generation == self.slots@[h.index as int].generation
                    && self.slots@[h.index as int].value is None) ==> !self.free@.contains(
                    h.index,
                )
            }
        &&& forall|i: int|
            0 <= i < self.slots@.len() && (#[trigger] self.slots@[i]).value is Some
                ==> self.issued@.contains(Handle { index: i as u32, generation: self.slots@[i].generation })
    }

    /// A live handle was handed out by this arena.
    pub proof fn lemma_valid_issued(&self, h: Handle)
        requires
            self.wf(),
            self@.contains_key(h),
        ensures
            self.issued().contains(h),
            self@.contains_key(h),
    {
        assert(self.slots@[h.index as int].value is Some);
    }

    /// Occupied slots and live handles correspond one to one.
    pub proof fn lemma_handle_at(&self, i: int)
        requires
            self.wf(),
        ensures
            self.handle_at(i) matches Some(h) ==> self@.contains_key(h) && h.index == i,
            forall|h: Handle| #[trigger] self@.contains_key(h) ==> self.handle_at(h.index as int) == Some(h)
                && (h.index as int) < self.slot_count(),
    {
    }

    pub fn new() -> (r: Self)
        ensures
            r.wf(),
            r@ == Map::<Handle, T>::empty(),
            r.issued() == Set::<Handle>::empty(),
            !r.is_full(),
    {
        let r = Arena { slots: Vec::new(), free: Vec::new(), issued: Ghost(Set::empty()) };
        assert(r@ =~= Map::<Handle, T>::empty());
        r
    }

    pub fn slot_count_exec(&self) -> (r: usize)
        ensures
            r == self.slot_count(),
    {
        self.slots.len()
    }

    /// The handle of the value in slot `i`, if any.
    pub fn handle_at_exec(&self, i: usize) -> (r: Option<Handle>)
        ensures
            r == self.handle_at(i as int),
    {
        if i < self.slots.len() {
            match &self.slots[i].value {
                Some(_) => Some(Handle { index: i as u32, generation: self.slots[i].generation }),
                None => None,
            }
        } else {
            None
        }
    }

    pub fn is_full_exec(&self) -> (r: bool)
        requires
            self.wf(),
        ensures
            r == self.is_full(),
    {
        self.free.len() == 0 && self.slots.len() >= u32::MAX as usize
    }

    pub fn contains(&self, h: Handle) -> (r: bool)
        ensures
            r == self.valid(h),
            r == self@.contains_key(h),
    {
        (h.index as usize) < self.slots.len() && self.slots[h.index as usize].value.is_some()
            && self.slots[h.index as usize].generation == h.generation
    }

    pub fn get(&self, h: Handle) -> (r: Option<&T>)
        ensures
            r is Some <==> self@.contains_key(h),
            r matches Some(v) ==> *v == self@[h],
    {
        if (h.index as usize) < self.slots.len() && self.slots[h.index as usize].generation
            == h.generation {
            match &self.slots[h.index as usize].value {
                Some(v) => Some(v),
                None => None,
            }
        } else {
            None
        }
    }

    /// Stores `v` in a freed slot (most recently freed first) or a new one.
    pub fn insert(&mut self, v: T) -> (r: Option<Handle>)
        requires
            old(self).wf(),
        ensures
            final(self).wf(),
            r is None <==> old(self).is_full(),
            r is None ==> *final(self) == *old(self),
            r matches Some(h) ==> {
                &&& !old(self).issued().contains(h)
                &&& final(self).issued() == old(self).issued().insert(h)
                &&& final(self)@ == old(self)@.insert(h, v)
            },
    {
        let n = self.free.len();
        if n > 0 {
            let i = self.free[n - 1];
            assert(self.free@[n - 1] == i);
            let ghost pre_free = self.free@;
            self.free.pop();
            let g = self.slots[i as usize].generation;
            let h = Handle { index: i, generation: g };
            let ghost old_self = *self;
            assert(!old_self.issued@.contains(h)) by {
                if old_self.issued@.contains(h) {
                    assert(old_self.free@.contains(i));
                }
            };
            self.slots.set(i as usize, Slot { generation: g, value: Some(v) });
            self.issued = Ghost(self.issued@.insert(h));
            assert forall|k: int, l: int|
                0 <= k < self.free@.len() && 0 <= l < self.free@.len() && k != l implies self.free@[k]
                != self.free@[l] by {
                assert(self.free@[k] == old_self.free@[k]);
                assert(self.free@[l] == old_self.free@[l]);
            };
            assert forall|k: int| 0 <= k < self.free@.len() implies {
                let j = #[trigger] self.free@[k] as int;
                &&& j < self.slots@.len()
                &&& self.slots@[j].value is None
            } by {
                assert(self.free@[k] == old_self.free@[k]);
                assert(pre_free[k] != pre_free[n - 1]);
            };
            assert forall|hh: Handle| #[trigger] self.issued@.contains(hh) implies {
                &&& (hh.index as int) < self.slots@.len()
                &&& hh.generation <= self.slots@[hh.index as int].generation
                &&& (hh.generation == self.slots@[hh.index as int].generation
                    && self.slots@[hh.index as int].value is None) ==> !self.free@.contains(
                    hh.index,
                )
            } by {
                if hh != h {
                    assert(old_self.issued@.contains(hh));
                    if self.free@.contains(hh.index) {
                        let k = choose|k: int| 0 <= k < self.free@.len() && self.free@[k] == hh.index;
                        assert(old_self.free@[k] == hh.index);
                    }
                }
            };
            assert(self@ =~= old_self@.insert(h, v));
            Some(h)
        } else if self.slots.len() < u32::MAX as usize {
            let i = self.slots.len() as u32;
            let h = Handle { index: i, generation: 0 };
            let ghost old_self = *self;
            self.slots.push(Slot { generation: 0, value: Some(v) });
            self.issued = Ghost(self.issued@.insert(h));
            assert(self@ =~= old_self@.insert(h, v));
            Some(h)
        } else {
            None
        }
    }

    /// Removes the value behind `h`; an invalid handle changes nothing.
    /// The slot's generation moves on, so `h` never becomes valid again.
    pub fn remove(&mut self, h: Handle) -> (r: Option<T>)
        requires
            old(self).wf(),
        ensures
            final(self).wf(),
            r is Some <==> old(self)@.contains_key(h),
            r matches Some(v) ==> v == old(self)@[h],
            final(self)@ == old(self)@.remove(h),
            final(self).issued() == old(self).issued(),
            !final(self).is_full() || old(self).is_full(),
            final(self).slot_count() == old(self).slot_count(),
            forall|j: int| j != h.index ==> #[trigger] final(self).handle_at(j) == old(self).handle_at(j),
            final(self).handle_at(h.index as int) is None || !old(self)@.contains_key(h),
    {
        if !self.contains(h) {
            proof {
                assert(self@.remove(h) =~= self@);
            }
            return None;
        }
        let i = h.index;
        let ghost old_self = *self;
        let g = h.generation;
        let mut slot = Slot { generation: g, value: None };
        self.slots.set_and_swap(i as usize, &mut slot);
        if g < u32::MAX {
            self.slots.set(i as usize, Slot { generation: g + 1, value: None });
            self.free.push(i);
        }
        assert(self@ =~= old_self@.remove(h));
        assert forall|hh: Handle| #[trigger] self.issued@.contains(hh) implies {
            &&& (hh.index as int) < self.slots@.len()
            &&& hh.generation <= self.slots@[hh.index as int].generation
            &&& (hh.generation == self.slots@[hh.index as int].generation
                && self.slots@[hh.index as int].value is None) ==> !self.free@.contains(hh.index)
        } by {
            assert(old_self.issued@.contains(hh));
            if hh.index == i && self.free@.contains(hh.index) && g == u32::MAX {
                let k = choose|k: int| 0 <= k < self.free@.len() && self.free@[k] == hh.index;
                assert(old_self.free@[k] == i);
            }
            if hh.index != i && self.free@.contains(hh.index) {
                let k = choose|k: int| 0 <= k < self.free@.len() && self.free@[k] == hh.index;
                if k < old_self.free@.len() {
                    assert(old_self.free@[k] == hh.index);
                }
            }
        };
        assert forall|k: int, l: int|
            0 <= k < self.free@.len() && 0 <= l < self.free@.len() && k != l implies self.free@[k]
            != self.free@[l] by {
            if k < old_self.free@.len() && l < old_self.free@.len() {
            } else if k < old_self.free@.len() {
                assert(old_self.slots@[old_self.free@[k] as int].value is None);
            } else if l < old_self.free@.len() {
                assert(old_self.slots@[old_self.free@[l] as int].value is None);
            }
        };
        slot.value
    }

    /// Empties every slot. Generations move on as with `remove`, so no
    /// handle issued before stays valid.
    pub fn clear(&mut self)
        requires
            old(self).wf(),
        ensures
            final(self).wf(),
            final(self)@ == Map::<Handle, T>::empty(),
            final(self).issued() == old(self).issued(),
            !final(self).is_full() || old(self).is_full(),
    {
        let n = self.slots.len();
        let mut i: usize = 0;
        while i < n
            invariant
                self.wf(),
                self.slot_count() == n,
                i <= n,
                forall|j: int| 0 <= j < i ==> #[trigger] self.handle_at(j) is None,
                self.issued() == old(self).issued(),
                !self.is_full() || old(self).is_full(),
            decreases n - i,
        {
            if let Some(h) = self.handle_at_exec(i) {
                proof { self.lemma_handle_at(i as int); }
                self.remove(h);
            }
            i = i + 1;
        }
        proof {
            assert forall|h: Handle| !self@.contains_key(h) by {
                if self@.contains_key(h) {
                    self.lemma_handle_at(h.index as int);
                }
            };
        }
        assert(self@ =~= Map::<Handle, T>::empty());
    }

    /// Puts `v` behind a valid handle and hands back the value it replaces.
    /// With an invalid handle nothing changes and `v` is dropped.
    pub fn replace(&mut self, h: Handle, v: T) -> (r: Option<T>)
        requires
            old(self).wf(),
        ensures
            final(self).wf(),
            r is Some <==> old(self)@.contains_key(h),
            r matches Some(o) ==> o == old(self)@[h],
            old(self)@.contains_key(h) ==> final(self)@ == old(self)@.insert(h, v),
            !old(self)@.contains_key(h) ==> final(self)@ == old(self)@,
            final(self).issued() == old(self).issued(),
            final(self).is_full() == old(self).is_full(),
            forall|i: int| #[trigger] final(self).handle_at(i) == old(self).handle_at(i),
    {
        if !self.contains(h) {
            return None;
        }
        let ghost old_self = *self;
        let i = h.index;
        let mut slot = Slot { generation: h.generation, value: Some(v) };
        self.slots.set_and_swap(i as usize, &mut slot);
        assert(self@ =~= old_self@.insert(h, v));
        assert forall|hh: Handle| #[trigger] self.issued@.contains(hh) implies {
            &&& (hh.index as int) < self.slots@.len()
            &&& hh.generation <= self.slots@[hh.index as int].generation
            &&& (hh.generation == self.slots@[hh.index as int].generation
                && self.slots@[hh.index as int].value is None) ==> !self.free@.contains(hh.index)
        } by {
            assert(old_self.issued@.contains(hh));
        };
        assert forall|k: int| 0 <= k < self.free@.len() implies {
            let j = #[trigger] self.free@[k] as int;
            &&& j < self.slots@.len()
            &&& self.slots@[j].value is None
        } by {
            assert(old_self.slots@[old_self.free@[k] as int].value is None);
        };
        slot.value
    }
}

} // verus!
