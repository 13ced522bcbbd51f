use vstd::prelude::*;

use std::sync::Arc;

use crate::base_type::arc_borrow;
use crate::base_type::arc_clone;
use crate::base_type::str_eq;
use crate::base_type::symbol_arc;
use crate::base_type::symbol_from_arc;
use crate::base_type::Symbol;
use crate::validator::Validator;

verus! {

/// One table slot: the single backing allocation for one distinct
/// content, together with the number of handles issued for it and not
/// yet released.
struct Slot {
    content: Arc<String>,
    count: usize,
}

/// The intern table: the registry mapping each interned content to its
/// one backing allocation, shared across all domains.
///
/// The table deduplicates by content alone; which domain first interned
/// a content is not recorded, and validation is the calling domain's
/// affair on every `resolve`. Abstractly the table is a map from each
/// interned content to the number of outstanding handles for it (its
/// view); a content's slot exists exactly while such handles are
/// outstanding, and releasing the last one removes the slot.
pub struct InternTable {
    slots: Vec<Slot>,
}

/// Whether some slot of `slots` holds `s`.
spec fn seq_has(slots: Seq<Slot>, s: Seq<char>) -> bool {
    exists|i: int| 0 <= i < slots.len() && (#[trigger] slots[i]).content@ == s
}

/// The contents held by `slots`, as a set.
spec fn seq_contents(slots: Seq<Slot>) -> Set<Seq<char>> {
    Set::new(|s: Seq<char>| seq_has(slots, s))
}

/// Slots with pairwise distinct contents hold exactly as many distinct
/// contents as there are slots.
proof fn lemma_distinct_contents_count(slots: Seq<Slot>)
    requires
        forall|i: int, j: int|
            0 <= i < slots.len() && 0 <= j < slots.len() && i != j ==> (
            #[trigger] slots[i]).content@ != (#[trigger] slots[j]).content@,
    ensures
        seq_contents(slots).finite(),
        seq_contents(slots).len() == slots.len(),
    decreases slots.len(),
{
    if slots.len() == 0 {
        assert(seq_contents(slots) =~= Set::<Seq<char>>::empty());
    } else {
        let prefix = slots.drop_last();
        lemma_distinct_contents_count(prefix);
        let last = slots.last().content@;
        assert(!seq_has(prefix, last));
        assert forall|t: Seq<char>| seq_has(slots, t) implies seq_has(prefix, t) || t == last by {
            let i = choose|i: int| 0 <= i < slots.len() && (#[trigger] slots[i]).content@ == t;
            if i < slots.len() - 1 {
                assert(prefix[i].content@ == t);
            }
        }
        assert forall|t: Seq<char>| seq_has(prefix, t) implies seq_has(slots, t) by {
            let i = choose|i: int| 0 <= i < prefix.len() && (#[trigger] prefix[i]).content@ == t;
            assert(slots[i].content@ == t);
        }
        assert(seq_has(slots, last));
        assert(seq_contents(slots) =~= seq_contents(prefix).insert(last));
    }
}

impl InternTable {
    /// Whether some slot holds `s`.
    spec fn has_slot(self, s: Seq<char>) -> bool {
        seq_has(self.slots@, s)
    }

    /// The index of the slot holding `s`.
    spec fn slot_of(self, s: Seq<char>) -> int {
        choose|i: int| 0 <= i < self.slots@.len() && (#[trigger] self.slots@[i]).content@ == s
    }

    /// The table's size is the number of distinct contents it holds —
    /// one slot per interned content, none left behind (stated publicly
    /// by `len`).
    proof fn lemma_len_counts_contents(&self)
        requires
            self.wf(),
        ensures
            self@.dom().finite(),
            self@.dom().len() == self.spec_len(),
    {
        lemma_distinct_contents_count(self.slots@);
        assert(self@.dom() =~= seq_contents(self.slots@));
    }

    /// How many distinct contents are interned right now.
    pub closed spec fn spec_len(self) -> nat {
        self.slots@.len()
    }

    /// At most one slot is observable per content, and a slot exists
    /// only while handles for its content are outstanding.
    #[verifier::type_invariant]
    spec fn wf(self) -> bool {
        &&& forall|i: int, j: int|
            0 <= i < self.slots@.len() && 0 <= j < self.slots@.len() && i != j
                ==> (#[trigger] self.slots@[i]).content@ != (#[trigger] self.slots@[j]).content@
        &&& forall|i: int| 0 <= i < self.slots@.len() ==> (#[trigger] self.slots@[i]).count >= 1
    }

    /// The slot holding `s` is unique, and the view reads it.
    proof fn lemma_view_at(self, i: int)
        requires
            self.wf(),
            0 <= i < self.slots@.len(),
        ensures
            self.has_slot(self.slots@[i].content@),
            self.slot_of(self.slots@[i].content@) == i,
            self@.dom().contains(self.slots@[i].content@),
            self@[self.slots@[i].content@] == self.slots@[i].count as nat,
    {
        let s = self.slots@[i].content@;
        assert(self.has_slot(s));
        let j = self.slot_of(s);
        assert(0 <= j < self.slots@.len() && self.slots@[j].content@ == s);
        assert(j == i);
    }

    /// Create an empty table.
    pub fn new() -> (r: InternTable)
        ensures
            r@ == Map::<Seq<char>, nat>::empty(),
            r.spec_len() == 0,
    {
        let r = InternTable { slots: Vec::new() };
        proof {
            assert(r@ =~= Map::<Seq<char>, nat>::empty());
        }
        r
    }

    /// The number of distinct contents interned right now: the size
    /// probe for observing that reclaimed slots are really gone.
    pub fn len(&self) -> (r: usize)
        ensures
            r == self.spec_len(),
            r == self@.dom().len(),
            self@.dom().finite(),
    {
        proof {
            use_type_invariant(self);
            self.lemma_len_counts_contents();
        }
        self.slots.len()
    }

    /// Whether `s` is interned right now.
    pub fn contains(&self, s: &str) -> (r: bool)
        ensures
            r == self@.dom().contains(s@),
    {
        proof {
            use_type_invariant(self);
            if self.has_slot(s@) {
                self.lemma_view_at(self.slot_of(s@));
            }
        }
        self.find(s).is_some()
    }

    /// The number of outstanding handles for `s`, zero if `s` is not
    /// interned.
    pub fn count_of(&self, s: &str) -> (r: usize)
        ensures
            self@.dom().contains(s@) ==> r == self@[s@],
            !self@.dom().contains(s@) ==> r == 0,
    {
        proof {
            use_type_invariant(self);
            if self.has_slot(s@) {
                self.lemma_view_at(self.slot_of(s@));
            }
        }
        match self.find(s) {
            Some(k) => {
                proof {
                    self.lemma_view_at(k as int);
                }
                self.slots[k].count
            },
            None => 0,
        }
    }

    /// Find the slot holding `s`, if any.
    fn find(&self, s: &str) -> (r: Option<usize>)
        ensures
            match r {
                Some(k) => k < self.slots@.len() && self.slots@[k as int].content@ == s@,
                None => !self.has_slot(s@),
            },
    {
        let n = self.slots.len();
        let mut k: usize = 0;
        while k < n
            invariant
                n == self.slots@.len(),
                k <= n,
                forall|j: int| 0 <= j < k ==> (#[trigger] self.slots@[j]).content@ != s@,
            decreases n - k,
        {
            if str_eq(String::as_str(arc_borrow(&self.slots[k].content)), s) {
                return Some(k);
            }
            k = k + 1;
        }
        None
    }

    /// Intern `s` under domain `V`: validate first, then return a handle
    /// to the one allocation for `s`, reusing it if `s` is already
    /// interned by any domain and allocating it afresh otherwise.
    ///
    /// Validation happens before the table is consulted, so the result
    /// is `Ok` exactly when `V` accepts `s` — shared storage never
    /// bypasses the calling domain's own policy, and rejection leaves
    /// the table unchanged.
    pub fn resolve<V: Validator + ?Sized>(&mut self, s: &str) -> (r: Result<Symbol<V>, V::Err>)
        requires
            old(self)@.dom().contains(s@) ==> old(self)@[s@] < usize::MAX,
        ensures
            r is Ok <==> V::accepts(s@),
            r is Err ==> *final(self) == *old(self),
            r matches Ok(sym) ==> sym@ == s@,
            V::accepts(s@) && old(self)@.dom().contains(s@) ==> final(self)@ == old(self)@.insert(
                s@,
                old(self)@[s@] + 1,
            ) && final(self).spec_len() == old(self).spec_len(),
            V::accepts(s@) && !old(self)@.dom().contains(s@) ==> final(self)@ == old(self)@.insert(
                s@,
                1,
            ) && final(self).spec_len() == old(self).spec_len() + 1,
    {
        proof {
            use_type_invariant(&*self);
        }
        match V::validate_symbol(s) {
            Err(e) => Err(e),
            Ok(()) => {
                match self.find(s) {
                    Some(k) => {
                        proof {
                            self.lemma_view_at(k as int);
                        }
                        let mut slots: Vec<Slot> = Vec::new();
                        std::mem::swap(&mut slots, &mut self.slots);
                        let c = slots[k].count;
                        let shared = arc_clone(&slots[k].content);
                        slots[k] = Slot { content: arc_clone(&shared), count: c + 1 };
                        let ghost next = InternTable { slots: slots };
                        proof {
                            next.lemma_reuse_view(*old(self), k as int, s@);
                        }
                        self.slots = slots;
                        Ok(symbol_from_arc(shared))
                    },
                    None => {
                        let buf = Arc::new(s.to_owned());
                        let shared = arc_clone(&buf);
                        let mut slots: Vec<Slot> = Vec::new();
                        std::mem::swap(&mut slots, &mut self.slots);
                        slots.push(Slot { content: buf, count: 1 });
                        let ghost next = InternTable { slots: slots };
                        proof {
                            next.lemma_push_view(*old(self), s@);
                        }
                        self.slots = slots;
                        Ok(symbol_from_arc(shared))
                    },
                }
            },
        }
    }

    /// Register one more handle for `sym`'s content: the counted form of
    /// duplicating a handle. Returns a handle to the table's one
    /// allocation for that content — re-interning `sym`'s own storage if
    /// the content's slot was already reclaimed — without consulting any
    /// validation: `sym` itself witnesses that its domain accepts the
    /// content.
    pub fn acquire<V: Validator + ?Sized>(&mut self, sym: &Symbol<V>) -> (r: Symbol<V>)
        requires
            old(self)@.dom().contains(sym@) ==> old(self)@[sym@] < usize::MAX,
        ensures
            r@ == sym@,
            old(self)@.dom().contains(sym@) ==> final(self)@ == old(self)@.insert(
                sym@,
                old(self)@[sym@] + 1,
            ) && final(self).spec_len() == old(self).spec_len(),
            !old(self)@.dom().contains(sym@) ==> final(self)@ == old(self)@.insert(sym@, 1)
                && final(self).spec_len() == old(self).spec_len() + 1,
    {
        proof {
            use_type_invariant(&*self);
            use_type_invariant(sym);
        }
        match self.find(sym.as_str()) {
            Some(k) => {
                proof {
                    self.lemma_view_at(k as int);
                }
                let mut slots: Vec<Slot> = Vec::new();
                std::mem::swap(&mut slots, &mut self.slots);
                let c = slots[k].count;
                let shared = arc_clone(&slots[k].content);
                slots[k] = Slot { content: arc_clone(&shared), count: c + 1 };
                let ghost next = InternTable { slots: slots };
                proof {
                    next.lemma_reuse_view(*old(self), k as int, sym@);
                }
                self.slots = slots;
                symbol_from_arc(shared)
            },
            None => {
                let shared = symbol_arc(sym);
                let mut slots: Vec<Slot> = Vec::new();
                std::mem::swap(&mut slots, &mut self.slots);
                slots.push(Slot { content: arc_clone(&shared), count: 1 });
                let ghost next = InternTable { slots: slots };
                proof {
                    next.lemma_push_view(*old(self), sym@);
                }
                self.slots = slots;
                symbol_from_arc(shared)
            },
        }
    }

    /// After a slot's count changed and nothing else, the view gained
    /// the new count at that content and kept every other entry.
    proof fn lemma_reuse_view(self, prev: InternTable, k: int, s: Seq<char>)
        requires
            prev.wf(),
            0 <= k < prev.slots@.len(),
            prev.slots@[k].content@ == s,
            self.slots@.len() == prev.slots@.len(),
            self.slots@ == prev.slots@.update(k, self.slots@[k]),
            self.slots@[k].content@ == s,
            self.slots@[k].count >= 1,
            forall|i: int|
                0 <= i < prev.slots@.len() && i != k ==> self.slots@[i] == prev.slots@[i],
        ensures
            self@ == prev@.insert(s, self.slots@[k].count as nat),
            self.wf(),
    {
        assert forall|i: int| 0 <= i < self.slots@.len() implies (#[trigger] self.slots@[i]).content@
            == prev.slots@[i].content@ by {}
        assert(self.wf());
        assert forall|t: Seq<char>| self.has_slot(t) <==> prev.has_slot(t) by {
            if self.has_slot(t) {
                let i = choose|i: int|
                    0 <= i < self.slots@.len() && (#[trigger] self.slots@[i]).content@ == t;
                assert(prev.slots@[i].content@ == t);
                assert(prev.has_slot(t));
            }
            if prev.has_slot(t) {
                let i = choose|i: int|
                    0 <= i < prev.slots@.len() && (#[trigger] prev.slots@[i]).content@ == t;
                assert(self.slots@[i].content@ == t);
                assert(self.has_slot(t));
            }
        }
        assert forall|t: Seq<char>| #[trigger] self@.dom().contains(t) implies self@[t]
            == prev@.insert(s, self.slots@[k].count as nat)[t] by {
            let i = self.slot_of(t);
            self.lemma_view_at(i);
            prev.lemma_view_at(i);
        }
        assert(self@ =~= prev@.insert(s, self.slots@[k].count as nat));
    }

    /// After a fresh slot was appended, the view gained that content at
    /// count one and kept every other entry.
    proof fn lemma_push_view(self, prev: InternTable, s: Seq<char>)
        requires
            prev.wf(),
            !prev.has_slot(s),
            self.slots@.len() == prev.slots@.len() + 1,
            self.slots@ == prev.slots@.push(self.slots@[prev.slots@.len() as int]),
            self.slots@[prev.slots@.len() as int].content@ == s,
            self.slots@[prev.slots@.len() as int].count == 1,
        ensures
            self@ == prev@.insert(s, 1),
            self.wf(),
    {
        let n = prev.slots@.len() as int;
        assert forall|i: int| 0 <= i < n implies self.slots@[i] == prev.slots@[i] by {}
        assert(self.wf());
        assert forall|t: Seq<char>| self.has_slot(t) <==> (prev.has_slot(t) || t == s) by {
            if self.has_slot(t) {
                let i = choose|i: int|
                    0 <= i < self.slots@.len() && (#[trigger] self.slots@[i]).content@ == t;
                if i < n {
                    assert(prev.slots@[i].content@ == t);
                    assert(prev.has_slot(t));
                }
            }
            if prev.has_slot(t) {
                let i = choose|i: int|
                    0 <= i < prev.slots@.len() && (#[trigger] prev.slots@[i]).content@ == t;
                assert(self.slots@[i].content@ == t);
                assert(self.has_slot(t));
            }
            if t == s {
                assert(self.slots@[n].content@ == t);
                assert(self.has_slot(t));
            }
        }
        assert forall|t: Seq<char>| #[trigger] self@.dom().contains(t) implies self@[t]
            == prev@.insert(s, 1nat)[t] by {
            let i = self.slot_of(t);
            self.lemma_view_at(i);
            if t != s {
                assert(i < n);
                prev.lemma_view_at(i);
            }
        }
        assert(self@ =~= prev@.insert(s, 1));
    }

    /// Release one handle: the inverse of `resolve`. Consumes the handle
    /// and decrements its content's outstanding count; releasing the
    /// last handle removes the content's slot, after which a fresh
    /// `resolve` of the same content allocates anew. A handle whose
    /// content is no longer tabled (its slot was already reclaimed while
    /// an uncounted clone of it stayed alive) leaves the table unchanged.
    pub fn release<V: Validator + ?Sized>(&mut self, sym: Symbol<V>)
        ensures
            !old(self)@.dom().contains(sym@) ==> *final(self) == *old(self),
            old(self)@.dom().contains(sym@) && old(self)@[sym@] > 1 ==> final(self)@ == old(
                self,
            )@.insert(sym@, (old(self)@[sym@] - 1) as nat) && final(self).spec_len() == old(
                self,
            ).spec_len(),
            old(self)@.dom().contains(sym@) && old(self)@[sym@] == 1 ==> final(self)@ == old(
                self,
            )@.remove(sym@) && final(self).spec_len() == old(self).spec_len() - 1,
    {
        proof {
            use_type_invariant(&*self);
            if self.has_slot(sym@) {
                self.lemma_view_at(self.slot_of(sym@));
            }
        }
        match self.find(sym.as_str()) {
            None => {},
            Some(k) => {
                proof {
                    self.lemma_view_at(k as int);
                }
                let mut slots: Vec<Slot> = Vec::new();
                std::mem::swap(&mut slots, &mut self.slots);
                let c = slots[k].count;
                if c > 1 {
                    let content = arc_clone(&slots[k].content);
                    slots[k] = Slot { content, count: c - 1 };
                    let ghost next = InternTable { slots: slots };
                    proof {
                        next.lemma_reuse_view(*old(self), k as int, sym@);
                    }
                    self.slots = slots;
                } else {
                    let _ = slots.remove(k);
                    let ghost next = InternTable { slots: slots };
                    proof {
                        next.lemma_remove_view(*old(self), k as int, sym@);
                    }
                    self.slots = slots;
                }
            },
        }
    }

    /// After a slot was removed, the view lost exactly that content.
    proof fn lemma_remove_view(self, prev: InternTable, k: int, s: Seq<char>)
        requires
            prev.wf(),
            0 <= k < prev.slots@.len(),
            prev.slots@[k].content@ == s,
            self.slots@ == prev.slots@.remove(k),
        ensures
            self@ == prev@.remove(s),
            self.wf(),
    {
        prev.slots@.remove_ensures(k);
        assert(self.slots@.len() == prev.slots@.len() - 1);
        assert forall|t: Seq<char>| self.has_slot(t) <==> (prev.has_slot(t) && t != s) by {
            if self.has_slot(t) {
                let i = choose|i: int|
                    0 <= i < self.slots@.len() && (#[trigger] self.slots@[i]).content@ == t;
                if i < k {
                    assert(prev.slots@[i].content@ == t);
                    assert(prev.has_slot(t));
                    assert(t != s);
                } else {
                    assert(prev.slots@[i + 1].content@ == t);
                    assert(prev.has_slot(t));
                    assert(t != s);
                }
            }
            if prev.has_slot(t) && t != s {
                let i = choose|i: int|
                    0 <= i < prev.slots@.len() && (#[trigger] prev.slots@[i]).content@ == t;
                assert(i != k);
                if i < k {
                    assert(self.slots@[i].content@ == t);
                    assert(self.has_slot(t));
                } else {
                    assert(self.slots@[i - 1].content@ == t);
                    assert(self.has_slot(t));
                }
            }
        }
        assert(self.wf()) by {
            assert forall|i: int, j: int|
                0 <= i < self.slots@.len() && 0 <= j < self.slots@.len() && i != j implies (
            #[trigger] self.slots@[i]).content@ != (#[trigger] self.slots@[j]).content@ by {
                let pi: int = if i < k {
                    i
                } else {
                    i + 1
                };
                let pj: int = if j < k {
                    j
                } else {
                    j + 1
                };
                assert(self.slots@[i] == prev.slots@[pi]);
                assert(self.slots@[j] == prev.slots@[pj]);
            }
        }
        assert forall|t: Seq<char>| #[trigger] self@.dom().contains(t) implies self@[t]
            == prev@.remove(s)[t] by {
            let i = self.slot_of(t);
            self.lemma_view_at(i);
            if i < k {
                prev.lemma_view_at(i);
            } else {
                prev.lemma_view_at(i + 1);
            }
        }
        assert(self@ =~= prev@.remove(s));
    }
}

impl View for InternTable {
    type V = Map<Seq<char>, nat>;

    closed spec fn view(&self) -> Map<Seq<char>, nat> {
        Map::new(
            |s: Seq<char>| self.has_slot(s),
            |s: Seq<char>| self.slots@[self.slot_of(s)].count as nat,
        )
    }
}

} // verus!
