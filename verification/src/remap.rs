//! Translating keys from one machine's layout to the other's.

use std::collections::HashMap;
use vstd::prelude::*;

use crate::keys::Usage;

verus! {

broadcast use vstd::std_specs::hash::group_hash_axioms;

/// Translates keys from the sending machine's layout to the receiving
/// machine's. Applied once, at the source: `apply` never chains, so a rule
/// whose output is another rule's input cannot rewrite it a second time.
#[derive(Debug, Clone)]
pub struct RemapTable {
    entries: HashMap<u16, Usage>,
}

impl View for RemapTable {
    type V = Map<Usage, Usage>;

    closed spec fn view(&self) -> Map<Usage, Usage> {
        Map::new(|from: Usage| self.entries@.contains_key(from.0), |from: Usage| self.entries@[from.0])
    }
}

/// What a table makes of a key: a key without a rule stays as it is.
pub open spec fn remapped(rules: Map<Usage, Usage>, usage: Usage) -> Usage {
    if rules.contains_key(usage) {
        rules[usage]
    } else {
        usage
    }
}

/// The rules for a Mac keyboard that drives a Windows PC.
pub open spec fn default_rules() -> Map<Usage, Usage> {
    map![
        Usage(Usage::LEFT_GUI) => Usage(Usage::LEFT_CTRL),
        Usage(Usage::RIGHT_GUI) => Usage(Usage::RIGHT_CTRL)
    ]
}

impl Default for RemapTable {
    fn default() -> (r: RemapTable)
        ensures
            r@ == Map::<Usage, Usage>::empty(),
    {
        let r = RemapTable { entries: HashMap::new() };
        assert(r@ =~= Map::<Usage, Usage>::empty());
        r
    }
}

impl RemapTable {
    pub fn new() -> (r: RemapTable)
        ensures
            r@ == Map::<Usage, Usage>::empty(),
    {
        Self::default()
    }

    /// What a Mac keyboard driving a Windows PC needs by default: the
    /// Command key takes Control's place, so Cmd+C copies on the PC.
    pub fn mac_to_windows_defaults() -> (r: RemapTable)
        ensures
            r@ == default_rules(),
    {
        let mut table = Self::new();
        table.insert(Usage(Usage::LEFT_GUI), Usage(Usage::LEFT_CTRL));
        table.insert(Usage(Usage::RIGHT_GUI), Usage(Usage::RIGHT_CTRL));
        table
    }

    /// Adds a rule. A later rule for the same key takes the place of an
    /// earlier one.
    pub fn insert(&mut self, from: Usage, to: Usage)
        ensures
            final(self)@ == old(self)@.insert(from, to),
    {
        self.entries.insert(from.0, to);
        assert(self@ =~= old(self)@.insert(from, to));
    }

    pub fn apply(&self, usage: Usage) -> (r: Usage)
        ensures
            r == remapped(self@, usage),
    {
        match self.entries.get(&usage.0) {
            Some(to) => *to,
            None => usage,
        }
    }
}

/// A rule is for its own key alone, takes the place of an earlier one for it,
/// and is applied once: what it gives is not translated again.
pub proof fn law_a_rule_is_for_its_own_key(rules: Map<Usage, Usage>, from: Usage, to: Usage, other: Usage)
    ensures
        remapped(rules.insert(from, to), from) == to,
        other != from ==> remapped(rules.insert(from, to), other) == remapped(rules, other),
        remapped(Map::empty(), other) == other,
        remapped(Map::empty().insert(from, to).insert(to, other), from) == if from == to {
            other
        } else {
            to
        },
{
}

/// By default the command key of either side becomes the control key of the
/// same side, and every other key stays what it is.
pub proof fn law_command_becomes_control_on_its_own_side(usage: Usage)
    ensures
        remapped(default_rules(), Usage(0xE3)) == Usage(0xE0),
        remapped(default_rules(), Usage(0xE7)) == Usage(0xE4),
        usage.0 != 0xE3 && usage.0 != 0xE7 ==> remapped(default_rules(), usage) == usage,
{
    assert(default_rules().contains_key(Usage(0xE3)));
    assert(default_rules().contains_key(Usage(0xE7)));
}

} // verus!
