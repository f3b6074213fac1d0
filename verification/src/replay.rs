//! Refusing frames that were already delivered once.

use vstd::prelude::*;

verus! {

/// How far behind the newest sequence number a late one may still be.
pub const WINDOW: u64 = 64;

/// What a [`ReplayWindow`] remembers: the highest number accepted so far,
/// and the numbers at most [`WINDOW`] below it that were accepted.
#[verifier::ext_equal]
pub struct ReplayState {
    pub highest: Option<u64>,
    pub seen: Set<u64>,
}

impl ReplayState {
    /// Nothing has been offered yet.
    pub open spec fn empty() -> ReplayState {
        ReplayState { highest: None, seen: Set::empty() }
    }

    /// Whether `seq` would be accepted now.
    pub open spec fn fresh(self, seq: u64) -> bool {
        match self.highest {
            None => true,
            Some(h) => seq > h || (seq < h && h - seq <= WINDOW && !self.seen.contains(seq)),
        }
    }

    /// What is remembered once `seq` has been offered.
    pub open spec fn offered(self, seq: u64) -> ReplayState {
        match self.highest {
            None => ReplayState { highest: Some(seq), seen: Set::empty() },
            Some(h) => if seq > h {
                ReplayState {
                    highest: Some(seq),
                    seen: self.seen.insert(h).filter(|s: u64| seq - s <= WINDOW),
                }
            } else if self.fresh(seq) {
                ReplayState { highest: Some(h), seen: self.seen.insert(seq) }
            } else {
                self
            },
        }
    }

    /// What is remembered once every number of `seqs` has been offered in
    /// turn.
    pub open spec fn offered_all(self, seqs: Seq<u64>) -> ReplayState
        decreases seqs.len(),
    {
        if seqs.len() == 0 {
            self
        } else {
            self.offered_all(seqs.drop_last()).offered(seqs.last())
        }
    }
}

/// Bit `i` of a 64 bit mask.
pub open spec fn bit_set(mask: u64, i: u64) -> bool {
    mask & (1u64 << i) != 0
}

/// Sliding window of recently seen sequence numbers.
///
/// Accepts each sequence number exactly once. Tolerates mild reordering
/// (within [`WINDOW`]) because the network may legitimately deliver frames
/// out of order, but refuses anything already seen or older than the
/// window. Its protection lasts for one connection; a frame recorded on an
/// earlier one is refused because of its [`crate::crypto::SessionId`].
#[derive(Debug)]
pub struct ReplayWindow {
    highest: u64,
    /// Bit i set means `highest - 1 - i` has been seen.
    seen: u64,
    started: bool,
}

impl View for ReplayWindow {
    type V = ReplayState;

    closed spec fn view(&self) -> ReplayState {
        if self.started {
            ReplayState {
                highest: Some(self.highest),
                seen: Set::new(
                    |s: u64|
                        s < self.highest && self.highest - s <= WINDOW && bit_set(
                            self.seen,
                            (self.highest - s - 1) as u64,
                        ),
                ),
            }
        } else {
            ReplayState::empty()
        }
    }
}

impl Default for ReplayWindow {
    fn default() -> (r: ReplayWindow)
        ensures
            r@ == ReplayState::empty(),
    {
        ReplayWindow { highest: 0, seen: 0, started: false }
    }
}

proof fn lemma_mask_shifted(seen: u64, shift: u64)
    requires
        1 <= shift <= 64,
    ensures
        forall|i: u64|
            i < 64 ==> #[trigger] bit_set(((seen << 1u64) | 1) << ((shift - 1) as u64), i) == (i
                == (shift - 1) as u64 || (i >= shift && bit_set(seen, (i - shift) as u64))),
{
    assert forall|i: u64| i < 64 implies #[trigger] bit_set(
        ((seen << 1u64) | 1) << ((shift - 1) as u64),
        i,
    ) == (i == (shift - 1) as u64 || (i >= shift && bit_set(seen, (i - shift) as u64))) by {
        let k: u64 = (shift - 1) as u64;
        let j: u64 = if i >= shift { (i - shift) as u64 } else { 0 };
        assert((((seen << 1u64) | 1) << k) & (1u64 << i) != 0 <==> (i == k || (i > k && seen & (1u64
            << j) != 0))) by (bit_vector)
            requires
                k < 64,
                i < 64,
                i > k ==> j == i - k - 1,
        ;
    }
}

impl ReplayWindow {
    pub fn new() -> (r: ReplayWindow)
        ensures
            r@ == ReplayState::empty(),
    {
        Self::default()
    }

    /// Offers a sequence number and says whether it is accepted.
    ///
    /// Only a number whose frame has already been authenticated may be
    /// offered: otherwise one forged frame carrying the highest number
    /// there is would make every later genuine frame look too old.
    pub fn accept(&mut self, seq: u64) -> (r: bool)
        ensures
            r == old(self)@.fresh(seq),
            final(self)@ == old(self)@.offered(seq),
    {
        if !self.started {
            self.started = true;
            self.highest = seq;
            self.seen = 0;
            assert(forall|i: u64| !bit_set(0, i)) by {
                assert forall|i: u64| !bit_set(0, i) by {
                    assert(0u64 & (1u64 << i) == 0) by (bit_vector);
                }
            }
            assert(self@ =~= old(self)@.offered(seq));
            return true;
        }
        if seq > self.highest {
            let shift: u64 = seq - self.highest;
            // A jump of exactly WINDOW still records the old highest: it is
            // then the oldest number that could be offered again.
            if shift > WINDOW {
                self.seen = 0;
            } else {
                self.seen = ((self.seen << 1) | 1) << (shift - 1);
            }
            self.highest = seq;
            proof {
                assert forall|i: u64| !bit_set(0, i) by {
                    assert(0u64 & (1u64 << i) == 0) by (bit_vector);
                }
                if shift <= WINDOW {
                    lemma_mask_shifted(old(self).seen, shift);
                }
                assert forall|s: u64| self@.seen.contains(s) == old(self)@.offered(seq).seen.contains(s) by {
                    if s < seq && seq - s <= WINDOW && shift <= WINDOW {
                        let i = (seq - s - 1) as u64;
                        assert(bit_set(self.seen, i) == (i == (shift - 1) as u64 || (i >= shift && bit_set(old(self).seen, (i - shift) as u64))));
                    }
                }
                assert(self@ =~= old(self)@.offered(seq));
            }
            return true;
        }
        if seq == self.highest {
            return false;
        }
        let age: u64 = self.highest - seq;
        if age > WINDOW {
            return false;
        }
        let at: u64 = age - 1;
        let bit: u64 = 1u64 << at;
        if self.seen & bit != 0 {
            assert(old(self)@.seen.contains(seq));
            return false;
        }
        self.seen = self.seen | bit;
        proof {
            assert(!old(self)@.seen.contains(seq));
            let was = old(self).seen;
            assert forall|s: u64| self@.seen.contains(s) == old(self)@.offered(seq).seen.contains(s) by {
                if s < self.highest && self.highest - s <= WINDOW {
                    let i = (self.highest - s - 1) as u64;
                    assert((was | (1u64 << at)) & (1u64 << i) != 0 <==> (i == at || was & (1u64 << i) != 0)) by (bit_vector)
                        requires
                            at < 64,
                            i < 64,
                    ;
                }
            }
            assert(self@ =~= old(self)@.offered(seq));
        }
        true
    }
}

/// A number that was once offered is never accepted afterwards: whatever
/// else arrives in between, the later of two offers of one number is
/// refused.
pub proof fn law_no_number_is_accepted_twice(start: ReplayState, seqs: Seq<u64>, i: int, j: int)
    requires
        0 <= i < j < seqs.len(),
        seqs[i] == seqs[j],
    ensures
        !start.offered_all(seqs.take(j)).fresh(seqs[j]),
    decreases j,
{
    let before = seqs.take(j);
    if i == j - 1 {
        assert(before.last() == seqs[i]);
    } else {
        law_no_number_is_accepted_twice(start, seqs.update(j - 1, seqs[i]), i, j - 1);
        assert(seqs.update(j - 1, seqs[i]).take(j - 1) =~= before.drop_last());
    }
}

/// A number ahead of everything accepted so far is always accepted, so
/// dropped frames never stall a connection.
pub proof fn law_a_newer_number_is_always_accepted(state: ReplayState, seq: u64)
    requires
        state.highest matches Some(h) ==> seq > h,
    ensures
        state.fresh(seq),
{
}

proof fn lemma_offered(seqs: Seq<u64>, most: u64)
    requires
        seqs.len() > 0,
        seqs.contains(most),
        forall|i: int| 0 <= i < seqs.len() ==> #[trigger] seqs[i] <= most,
    ensures
        ({
            let state = ReplayState::empty().offered_all(seqs);
            &&& state.highest == Some(most)
            &&& forall|s: u64| #[trigger] state.seen.contains(s) ==> seqs.contains(s)
        }),
    decreases seqs.len(),
{
    let start = seqs.drop_last();
    let last = seqs.last();
    assert(seqs[seqs.len() - 1] == last);
    assert forall|s: u64| start.contains(s) implies seqs.contains(s) by {
        let i = start.index_of(s);
        assert(seqs[i] == s);
    }
    if start.len() == 0 {
        let i = seqs.index_of(most);
        assert(i == 0);
        assert(ReplayState::empty().offered_all(start) == ReplayState::empty());
    } else {
        let before = largest(start);
        lemma_largest(start);
        assert forall|i: int| 0 <= i < start.len() implies #[trigger] start[i] <= before by {}
        lemma_offered(start, before);
        assert(seqs.contains(before));
        let j = seqs.index_of(before);
        assert(before <= most);
        let i = seqs.index_of(most);
        if i < start.len() {
            assert(start[i] == most);
        }
        let state = ReplayState::empty().offered_all(start);
        assert forall|s: u64| #[trigger] state.offered(last).seen.contains(s) implies seqs.contains(s) by {
            assert(s == before || s == last || state.seen.contains(s));
            if state.seen.contains(s) {
                assert(start.contains(s));
            }
        }
    }
}

/// The largest of some numbers.
spec fn largest(seqs: Seq<u64>) -> u64
    decreases seqs.len(),
{
    if seqs.len() <= 1 {
        seqs[0]
    } else {
        let before = largest(seqs.drop_last());
        if seqs.last() > before {
            seqs.last()
        } else {
            before
        }
    }
}

proof fn lemma_largest(seqs: Seq<u64>)
    requires
        seqs.len() > 0,
    ensures
        seqs.contains(largest(seqs)),
        forall|i: int| 0 <= i < seqs.len() ==> #[trigger] seqs[i] <= largest(seqs),
    decreases seqs.len(),
{
    if seqs.len() > 1 {
        let start = seqs.drop_last();
        lemma_largest(start);
        let k = start.index_of(largest(start));
        assert(seqs[k] == largest(start));
        assert(seqs[seqs.len() - 1] == seqs.last());
        assert forall|i: int| 0 <= i < seqs.len() implies #[trigger] seqs[i] <= largest(seqs) by {
            if i < start.len() {
                assert(start[i] == seqs[i]);
            }
        }
    } else {
        assert(seqs[0] == largest(seqs));
    }
}

/// Whatever was offered before, and in whatever order: a number that was not
/// among it is accepted if it is ahead of all of it or at most 64 behind the
/// furthest, and refused if it is further behind. One that was is refused.
pub proof fn law_a_number_is_accepted_once_and_not_too_late(seqs: Seq<u64>, most: u64, seq: u64)
    requires
        seqs.contains(most),
        forall|i: int| 0 <= i < seqs.len() ==> #[trigger] seqs[i] <= most,
    ensures
        ReplayState::empty().offered_all(seqs).fresh(seq) <==> !seqs.contains(seq) && (seq > most || most - seq <= 64),
        ReplayState::empty().fresh(seq),
{
    lemma_offered(seqs, most);
    if seqs.contains(seq) {
        let i = seqs.index_of(seq);
        let more = seqs.push(seq);
        law_no_number_is_accepted_twice(ReplayState::empty(), more, i, seqs.len() as int);
        assert(more.take(seqs.len() as int) =~= seqs);
    } else {
        let state = ReplayState::empty().offered_all(seqs);
        assert(!state.seen.contains(seq));
        assert(seq != most);
    }
}

} // verus!
