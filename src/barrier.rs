//! The turn barrier of a session: it gathers at most one input per active
//! player in each collection window. The window closes when every active
//! player has submitted, or when its time runs out; the host keeps the clock
//! and tells the barrier which of the two happened.

use vstd::prelude::*;

verus! {

/// The inputs gathered so far in the current window.
pub struct TurnBarrier {
    /// One slot per active player: its identifier and what it has sent in
    /// this window, if anything.
    pub slots: Vec<(u64, Option<String>)>,
}

/// Whether some slot of `slots` belongs to `player`.
pub open spec fn has_slot(slots: Seq<(u64, Option<String>)>, player: u64) -> bool {
    exists|i: int| 0 <= i < slots.len() && (#[trigger] slots[i]).0 == player
}

/// The position of `player`'s slot.
pub open spec fn slot_index(slots: Seq<(u64, Option<String>)>, player: u64) -> int {
    choose|i: int| 0 <= i < slots.len() && (#[trigger] slots[i]).0 == player
}

/// `slots` without the slot of `player`, in the same order.
pub open spec fn without(slots: Seq<(u64, Option<String>)>, player: u64) -> Seq<(u64, Option<String>)>
    decreases slots.len(),
{
    if slots.len() == 0 {
        slots
    } else {
        let r = without(slots.drop_last(), player);
        if slots.last().0 == player {
            r
        } else {
            r.push(slots.last())
        }
    }
}

/// Every slot of `slots` emptied, for a new window.
pub open spec fn emptied(slots: Seq<(u64, Option<String>)>) -> Seq<(u64, Option<String>)> {
    slots.map_values(|s: (u64, Option<String>)| (s.0, None::<String>))
}

impl TurnBarrier {
    /// No two slots belong to the same player.
    pub open spec fn wf(&self) -> bool {
        forall|i: int, j: int|
            0 <= i < self.slots@.len() && 0 <= j < self.slots@.len() && i != j
                ==> (#[trigger] self.slots@[i]).0 != (#[trigger] self.slots@[j]).0
    }

    /// A barrier waiting for players `0 .. number_of_players`.
    pub fn new(number_of_players: u64) -> (r: Self)
        ensures
            r.wf(),
            r.slots@ == Seq::new(number_of_players as nat, |i: int| (i as u64, None::<String>)),
    {
        let mut slots: Vec<(u64, Option<String>)> = Vec::new();
        let mut k: u64 = 0;
        while k < number_of_players
            invariant
                k <= number_of_players,
                slots@.len() == k,
                forall|j: int| 0 <= j < k ==> #[trigger] slots@[j] == (j as u64, None::<String>),
            decreases number_of_players - k,
        {
            slots.push((k, None));
            k = k + 1;
        }
        let r = TurnBarrier { slots };
        assert(r.slots@ =~= Seq::new(number_of_players as nat, |i: int| (i as u64, None::<String>)));
        r
    }

    /// Records `payload` as `player`'s input for this window. Returns false,
    /// and changes nothing, when `player` is not active or has already
    /// submitted in this window.
    pub fn submit(&mut self, player: u64, payload: String) -> (accepted: bool)
        requires
            old(self).wf(),
        ensures
            final(self).wf(),
            accepted == (has_slot(old(self).slots@, player)
                && old(self).slots@[slot_index(old(self).slots@, player)].1 is None),
            accepted ==> final(self).slots@ == old(self).slots@.update(
                slot_index(old(self).slots@, player),
                (player, Some(payload)),
            ),
            !accepted ==> final(self).slots@ == old(self).slots@,
    {
        let n = self.slots.len();
        let mut i: usize = 0;
        while i < n
            invariant
                self.wf(),
                self.slots@ == old(self).slots@,
                n == self.slots@.len(),
                i <= n,
                forall|j: int| 0 <= j < i ==> (#[trigger] self.slots@[j]).0 != player,
            decreases n - i,
        {
            if self.slots[i].0 == player {
                proof {
                    let k = slot_index(self.slots@, player);
                    assert(has_slot(self.slots@, player));
                    if k != i as int {
                        assert(self.slots@[k].0 != self.slots@[i as int].0);
                    }
                }
                if self.slots[i].1.is_some() {
                    return false;
                }
                self.slots[i] = (player, Some(payload));
                proof {
                    assert forall|a: int, b: int|
                        0 <= a < self.slots@.len() && 0 <= b < self.slots@.len() && a != b
                            implies (#[trigger] self.slots@[a]).0 != (#[trigger] self.slots@[b]).0 by {
                        assert(old(self).slots@[a].0 != old(self).slots@[b].0);
                    }
                }
                return true;
            }
            i = i + 1;
        }
        false
    }

    /// Whether every active player has submitted in this window.
    pub fn is_complete(&self) -> (r: bool)
        ensures
            r == forall|i: int| 0 <= i < self.slots@.len() ==> (#[trigger] self.slots@[i]).1 is Some,
    {
        let n = self.slots.len();
        let mut i: usize = 0;
        while i < n
            invariant
                n == self.slots@.len(),
                i <= n,
                forall|j: int| 0 <= j < i ==> (#[trigger] self.slots@[j]).1 is Some,
            decreases n - i,
        {
            if self.slots[i].1.is_none() {
                return false;
            }
            i = i + 1;
        }
        true
    }

    /// Closes the window, because it is complete or its time ran out: hands
    /// out each active player's input (`None` for those that sent nothing)
    /// and opens an empty window for the same players.
    pub fn take_turn(&mut self) -> (r: Vec<(u64, Option<String>)>)
        requires
            old(self).wf(),
        ensures
            final(self).wf(),
            r@ == old(self).slots@,
            final(self).slots@ == emptied(old(self).slots@),
    {
        let n = self.slots.len();
        let mut fresh: Vec<(u64, Option<String>)> = Vec::new();
        let mut i: usize = 0;
        while i < n
            invariant
                n == self.slots@.len(),
                self.slots@ == old(self).slots@,
                i <= n,
                fresh@ == emptied(self.slots@.take(i as int)),
            decreases n - i,
        {
            let id = self.slots[i].0;
            fresh.push((id, None));
            assert(emptied(self.slots@.take(i + 1)) =~= emptied(self.slots@.take(i as int)).push((id, None::<String>)));
            i = i + 1;
        }
        assert(self.slots@.take(n as int) == self.slots@);
        std::mem::swap(&mut self.slots, &mut fresh);
        proof {
            assert forall|a: int, b: int|
                0 <= a < self.slots@.len() && 0 <= b < self.slots@.len() && a != b
                    implies (#[trigger] self.slots@[a]).0 != (#[trigger] self.slots@[b]).0 by {
                assert(old(self).slots@[a].0 != old(self).slots@[b].0);
            }
        }
        fresh
    }

    /// Stops waiting for `player`, from this window on.
    pub fn remove_player(&mut self, player: u64)
        requires
            old(self).wf(),
        ensures
            final(self).wf(),
            final(self).slots@ == without(old(self).slots@, player),
    {
        let n = self.slots.len();
        let ghost all = self.slots@;
        let mut kept: Vec<(u64, Option<String>)> = Vec::new();
        let mut taken: Vec<(u64, Option<String>)> = Vec::new();
        std::mem::swap(&mut self.slots, &mut taken);
        let ghost mut i: int = 0;
        while taken.len() > 0
            invariant
                0 <= i <= all.len(),
                taken@ == all.skip(i),
                kept@ == without(all.take(i), player),
                forall|a: int| 0 <= a < kept@.len() ==> exists|b: int| 0 <= b < i && (#[trigger] kept@[a]) == all[b],
                forall|a: int, b: int| 0 <= a < b < kept@.len() ==>
                    exists|c: int, d: int| 0 <= c < d < i && (#[trigger] kept@[a]) == all[c] && (#[trigger] kept@[b]) == all[d],
            decreases taken.len(),
        {
            let s = taken.remove(0);
            proof {
                assert(all.take(i + 1).drop_last() == all.take(i));
                assert(all.take(i + 1).last() == s);
            }
            if s.0 != player {
                let ghost before = kept@;
                kept.push(s);
                proof {
                    assert forall|a: int| 0 <= a < kept@.len() implies exists|b: int| 0 <= b < i + 1 && (#[trigger] kept@[a]) == all[b] by {
                        if a < before.len() {
                            let b = choose|b: int| 0 <= b < i && before[a] == all[b];
                            assert(kept@[a] == all[b]);
                        } else {
                            assert(kept@[a] == all[i]);
                        }
                    }
                    assert forall|a: int, b: int| 0 <= a < b < kept@.len() implies
                        exists|c: int, d: int| 0 <= c < d < i + 1 && (#[trigger] kept@[a]) == all[c] && (#[trigger] kept@[b]) == all[d] by {
                        if b < before.len() {
                            let (c, d) = choose|c: int, d: int| 0 <= c < d < i && before[a] == all[c] && before[b] == all[d];
                            assert(kept@[a] == all[c] && kept@[b] == all[d]);
                        } else {
                            let c = choose|c: int| 0 <= c < i && before[a] == all[c];
                            assert(kept@[a] == all[c] && kept@[b] == all[i]);
                        }
                    }
                }
            }
            proof {
                i = i + 1;
                assert(taken@ =~= all.skip(i));
            }
        }
        assert(all.take(i) == all);
        self.slots = kept;
        proof {
            assert forall|a: int, b: int|
                0 <= a < self.slots@.len() && 0 <= b < self.slots@.len() && a != b
                    implies (#[trigger] self.slots@[a]).0 != (#[trigger] self.slots@[b]).0 by {
                let (x, y) = if a < b { (a, b) } else { (b, a) };
                let (c, d) = choose|c: int, d: int| 0 <= c < d < i && (#[trigger] self.slots@[x]) == all[c] && (#[trigger] self.slots@[y]) == all[d];
                assert(old(self).slots@[c].0 != old(self).slots@[d].0);
            }
        }
    }
}

} // verus!
