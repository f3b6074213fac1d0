//! The keys that are down on the remote machine.

use vstd::prelude::*;

use crate::keys::Usage;

verus! {

/// Whether keys stand in ascending order of their codes, none twice.
pub open spec fn ascending(keys: Seq<Usage>) -> bool {
    forall|i: int, j: int| 0 <= i < j < keys.len() ==> keys[i].0 < keys[j].0
}

/// The set of keys currently held down on the remote machine.
///
/// Every control transition drains this set and synthesizes a release for
/// each key, which is what stops a dropped connection from leaving a
/// modifier stuck down on the receiving side.
#[derive(Debug)]
pub struct HeldKeys {
    down: Vec<Usage>,
}

impl View for HeldKeys {
    type V = Set<Usage>;

    closed spec fn view(&self) -> Set<Usage> {
        self.down@.to_set()
    }
}

impl Default for HeldKeys {
    fn default() -> (r: HeldKeys)
        ensures
            r@ == Set::<Usage>::empty(),
    {
        let r = HeldKeys { down: Vec::new() };
        assert(r@ =~= Set::<Usage>::empty());
        r
    }
}

/// The set of held keys once a key went down or up.
pub open spec fn recorded(held: Set<Usage>, usage: Usage, pressed: bool) -> Set<Usage> {
    if pressed {
        held.insert(usage)
    } else {
        held.remove(usage)
    }
}

impl HeldKeys {
    #[verifier::type_invariant]
    spec fn sorted(self) -> bool {
        ascending(self.down@)
    }

    pub fn new() -> (r: HeldKeys)
        ensures
            r@ == Set::<Usage>::empty(),
    {
        Self::default()
    }

    /// Notes that a key went down or up. Pressing a key that is down, or
    /// releasing one that is not, changes nothing.
    pub fn record(&mut self, usage: Usage, pressed: bool)
        ensures
            final(self)@ == recorded(old(self)@, usage, pressed),
    {
        proof {
            use_type_invariant(&*self);
        }
        let ghost was = self.down@;
        let mut at: usize = 0;
        while at < self.down.len() && self.down[at].0 < usage.0
            invariant
                at <= self.down@.len(),
                self.down@ == was,
                forall|i: int| 0 <= i < at ==> was[i].0 < usage.0,
            decreases self.down@.len() - at,
        {
            at = at + 1;
        }
        let there: bool = at < self.down.len() && self.down[at].0 == usage.0;
        let mut down: Vec<Usage> = Vec::new();
        core::mem::swap(&mut down, &mut self.down);
        assert(there <==> was.contains(usage)) by {
            if there {
                assert(was[at as int] == usage);
            }
            if was.contains(usage) {
                let i = was.index_of(usage);
                if i > at {
                    assert(was[at as int].0 < was[i].0);
                }
            }
        }
        if pressed {
            if !there {
                down.insert(at, usage);
                proof {
                    assert(down@ == was.insert(at as int, usage));
                    assert(forall|x: Usage| down@.contains(x) <==> was.contains(x) || x == usage) by {
                        assert forall|x: Usage| down@.contains(x) <==> was.contains(x) || x == usage by {
                            if was.contains(x) {
                                let i = was.index_of(x);
                                assert(down@[if i < at { i } else { i + 1 }] == x);
                            }
                            if x == usage {
                                assert(down@[at as int] == x);
                            }
                            if down@.contains(x) && x != usage {
                                let i = down@.index_of(x);
                                assert(was[if i < at { i } else { i - 1 }] == x);
                            }
                        }
                    }
                    assert(down@.to_set() =~= was.to_set().insert(usage));
                }
            } else {
                assert(was.to_set() =~= was.to_set().insert(usage));
            }
        } else {
            if there {
                let gone: Usage = down.remove(at);
                proof {
                    assert(down@ == was.remove(at as int));
                    assert forall|x: Usage| down@.contains(x) <==> was.contains(x) && x != usage by {
                        if was.contains(x) && x != usage {
                            let i = was.index_of(x);
                            assert(down@[if i < at { i } else { i - 1 }] == x);
                        }
                        if down@.contains(x) {
                            let i = down@.index_of(x);
                            assert(was[if i < at { i } else { i + 1 }] == x);
                        }
                    }
                    assert(down@.to_set() =~= was.to_set().remove(usage));
                }
            } else {
                assert(was.to_set() =~= was.to_set().remove(usage));
            }
        }
        self.down = down;
    }

    /// The keys that are down, in ascending order of their codes.
    pub fn held(&self) -> (r: Vec<Usage>)
        ensures
            ascending(r@),
            r@.to_set() == self@,
    {
        proof {
            use_type_invariant(&*self);
        }
        let mut r: Vec<Usage> = Vec::new();
        let mut i: usize = 0;
        while i < self.down.len()
            invariant
                i <= self.down@.len(),
                r@ == self.down@.take(i as int),
            decreases self.down@.len() - i,
        {
            r.push(self.down[i]);
            i = i + 1;
            assert(r@ =~= self.down@.take(i as int));
        }
        assert(r@ =~= self.down@);
        r
    }

    /// The keys that were down, all of which are forgotten.
    pub fn drain_release(&mut self) -> (r: Vec<Usage>)
        ensures
            ascending(r@),
            r@.to_set() == old(self)@,
            final(self)@ == Set::<Usage>::empty(),
    {
        proof {
            use_type_invariant(&*self);
        }
        let mut all: Vec<Usage> = Vec::new();
        core::mem::swap(&mut all, &mut self.down);
        assert(self@ =~= Set::<Usage>::empty());
        all
    }

    /// Whether a key is down.
    pub fn contains(&self, usage: Usage) -> (r: bool)
        ensures
            r == self@.contains(usage),
    {
        let mut i: usize = 0;
        while i < self.down.len()
            invariant
                i <= self.down@.len(),
                forall|j: int| 0 <= j < i ==> self.down@[j] != usage,
            decreases self.down@.len() - i,
        {
            if self.down[i].0 == usage.0 {
                assert(self.down@[i as int] == usage);
                assert(self.down@.contains(usage));
                return true;
            }
            i = i + 1;
        }
        assert(!self.down@.contains(usage));
        false
    }

    pub fn is_empty(&self) -> (r: bool)
        ensures
            r == (self@ == Set::<Usage>::empty()),
    {
        proof {
            if self.down@.len() == 0 {
                assert(self@ =~= Set::<Usage>::empty());
            } else {
                assert(self.down@.contains(self.down@[0]));
                assert(self@.contains(self.down@[0]));
            }
        }
        self.down.len() == 0
    }
}

/// There is only one way to list a set of keys in ascending order: what is
/// held determines what [`HeldKeys::held`] gives.
pub proof fn law_held_keys_are_listed_in_one_way(a: Seq<Usage>, b: Seq<Usage>)
    requires
        ascending(a),
        ascending(b),
        a.to_set() == b.to_set(),
    ensures
        a == b,
    decreases a.len(),
{
    if a.len() == 0 {
        if b.len() > 0 {
            assert(b.to_set().contains(b[0]));
            assert(a.contains(b[0]));
        }
        assert(a =~= b);
    } else {
        assert(a.to_set().contains(a.last()));
        assert(b.contains(a.last()));
        assert(b.to_set().contains(b.last()));
        assert(a.contains(b.last()));
        let i = b.index_of(a.last());
        let j = a.index_of(b.last());
        assert(a.last() == b.last());
        let a1 = a.drop_last();
        let b1 = b.drop_last();
        assert forall|x: Usage| a1.to_set().contains(x) <==> b1.to_set().contains(x) by {
            if a1.contains(x) {
                let k = a1.index_of(x);
                assert(a[k] == x);
                assert(a.to_set().contains(x));
                assert(b.contains(x));
                let l = b.index_of(x);
                assert(b1[l] == x);
            }
            if b1.contains(x) {
                let k = b1.index_of(x);
                assert(b[k] == x);
                assert(b.to_set().contains(x));
                assert(a.contains(x));
                let l = a.index_of(x);
                assert(a1[l] == x);
            }
        }
        assert(a1.to_set() =~= b1.to_set());
        law_held_keys_are_listed_in_one_way(a1, b1);
        assert(a =~= a1.push(a.last()));
        assert(b =~= b1.push(b.last()));
    }
}

/// A key is held from its press to its release, and no other key's press or
/// release has to do with it.
pub proof fn law_a_key_is_held_from_press_to_release(held: Set<Usage>, usage: Usage, pressed: bool, other: Usage)
    ensures
        recorded(held, usage, pressed).contains(usage) == pressed,
        other != usage ==> recorded(held, usage, pressed).contains(other) == held.contains(other),
        recorded(recorded(held, usage, true), usage, false) == held.remove(usage),
{
    assert(recorded(recorded(held, usage, true), usage, false) =~= held.remove(usage));
}

} // verus!
