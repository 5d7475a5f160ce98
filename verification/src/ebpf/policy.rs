//! Which tasks may be captured.
//!
//! The policy stands in one of two slots. The other slot is filled while the
//! first is in force, and a single word switches between them: its highest bit is
//! the slot, the others are the generation. Each allowed control group carries the
//! generation it was allowed in, so a slot that is only partly rewritten allows
//! nothing.
use std::collections::HashMap;

use vstd::prelude::*;

verus! {

broadcast use vstd::std_specs::hash::group_hash_axioms;

/// How deep a control group may stand.
pub const MAX_CGROUP_ANCESTOR_LEVEL: u64 = 32;

/// The depths at which control groups are allowed: a set of levels with its least
/// and its greatest.
#[derive(Debug, Clone, Copy, PartialEq, Eq, Structural)]
pub struct CgroupLevelPolicy {
    pub mask: u64,
    pub min: u64,
    pub max: u64,
}

/// Whether a level is in a set; the lowest bit is level 1.
pub open spec fn has_level(mask: nat, level: nat) -> bool
    decreases level,
{
    if level == 0 {
        false
    } else if level == 1 {
        mask % 2 == 1
    } else {
        has_level(mask / 2, (level - 1) as nat)
    }
}

/// The levels that a word holds: the set in its low half, the least in the eight
/// bits above, the greatest in the next eight.
pub open spec fn unpacked(packed: u64) -> CgroupLevelPolicy {
    CgroupLevelPolicy {
        mask: packed % 0x1_0000_0000,
        min: (packed / 0x1_0000_0000) % 0x100,
        max: (packed / 0x100_0000_0000) % 0x100,
    }
}

/// Whether levels agree with each other: the least and the greatest are in the
/// set, and nothing in it lies outside them.
pub open spec fn consistent(p: CgroupLevelPolicy) -> bool {
    &&& 1 <= p.min <= p.max <= MAX_CGROUP_ANCESTOR_LEVEL
    &&& has_level(p.mask as nat, p.min as nat)
    &&& has_level(p.mask as nat, p.max as nat)
    &&& forall|level: nat|
        1 <= level <= 32 && #[trigger] has_level(p.mask as nat, level) ==> p.min <= level <= p.max
}

/// Whether a level is in a set.
pub fn level_in(mask: u64, level: u64) -> (r: bool)
    ensures
        r == has_level(mask as nat, level as nat),
{
    if level == 0 {
        return false;
    }
    let mut m = mask;
    let mut l = level;
    while l > 1
        invariant
            1 <= l,
            has_level(m as nat, l as nat) == has_level(mask as nat, level as nat),
        decreases l,
    {
        m = m / 2;
        l = l - 1;
    }
    m % 2 == 1
}

/// The levels that a word holds, if they agree with each other.
pub fn configured_cgroup_levels(packed: u64) -> (r: Option<CgroupLevelPolicy>)
    ensures
        r == if consistent(unpacked(packed)) {
            Some(unpacked(packed))
        } else {
            None
        },
{
    let p = CgroupLevelPolicy {
        mask: packed % 0x1_0000_0000,
        min: (packed / 0x1_0000_0000) % 0x100,
        max: (packed / 0x100_0000_0000) % 0x100,
    };
    if p.min < 1 || p.max > MAX_CGROUP_ANCESTOR_LEVEL || p.min > p.max {
        return None;
    }
    if !level_in(p.mask, p.min) || !level_in(p.mask, p.max) {
        return None;
    }
    let mut level: u64 = 1;
    while level <= MAX_CGROUP_ANCESTOR_LEVEL
        invariant
            1 <= level <= 33,
            p == unpacked(packed),
            1 <= p.min <= p.max <= MAX_CGROUP_ANCESTOR_LEVEL,
            has_level(p.mask as nat, p.min as nat),
            has_level(p.mask as nat, p.max as nat),
            forall|l: nat|
                1 <= l < level && #[trigger] has_level(p.mask as nat, l) ==> p.min <= l <= p.max,
        decreases 33 - level,
    {
        if level_in(p.mask, level) && (level < p.min || level > p.max) {
            assert(has_level(p.mask as nat, level as nat));
            return None;
        }
        level = level + 1;
    }
    Some(p)
}

/// What the kernel holds of the policy.
pub struct CgroupPolicy {
    /// The word that says which slot is in force, and in which generation.
    pub selector: Option<u64>,
    pub levels_a: u64,
    pub levels_b: u64,
    /// The allowed control groups of each slot, with the generation of each.
    pub allowed_a: HashMap<u64, u64>,
    pub allowed_b: HashMap<u64, u64>,
}

/// The slot that a word selects.
pub open spec fn slot_of(selector: u64) -> u64 {
    selector / 0x8000_0000_0000_0000
}

/// The generation that a word selects.
pub open spec fn generation_of(selector: u64) -> u64 {
    selector % 0x8000_0000_0000_0000
}

impl CgroupPolicy {
    /// The word with the levels of a slot.
    pub open spec fn levels(self, slot: u64) -> u64 {
        if slot == 0 {
            self.levels_a
        } else {
            self.levels_b
        }
    }

    /// The allowed control groups of a slot.
    pub open spec fn slot(self, slot: u64) -> Map<u64, u64> {
        if slot == 0 {
            self.allowed_a@
        } else {
            self.allowed_b@
        }
    }

    /// Whether a slot allows a control group in a generation.
    pub open spec fn allows(self, slot: u64, cgroup_id: u64, generation: u64) -> bool {
        self.slot(slot).contains_key(cgroup_id) && self.slot(slot)[cgroup_id] == generation
    }

    fn cgroup_allowed(&self, slot: u64, cgroup_id: u64, generation: u64) -> (r: bool)
        requires
            slot <= 1,
        ensures
            r == self.allows(slot, cgroup_id, generation),
    {
        let stored = if slot == 0 {
            self.allowed_a.get(&cgroup_id)
        } else {
            self.allowed_b.get(&cgroup_id)
        };
        match stored {
            Some(g) => *g == generation,
            None => false,
        }
    }
}

/// The ancestor of a task's control group at a level; zero where there is none.
pub open spec fn ancestor(ancestors: Seq<u64>, level: int) -> u64 {
    if 0 <= level < ancestors.len() {
        ancestors[level]
    } else {
        0
    }
}

/// Whether the ancestor at a level is one that the policy allows: it is there, it
/// is not the root, its level is in the set and its control group is allowed.
pub open spec fn anchors(
    policy: CgroupPolicy,
    slot: u64,
    generation: u64,
    mask: u64,
    ancestors: Seq<u64>,
    level: int,
) -> bool {
    let id = ancestor(ancestors, level);
    has_level(mask as nat, level as nat) && id != 0 && id != ancestor(ancestors, 0)
        && policy.allows(slot, id, generation)
}

/// The deepest allowed ancestor at a level up to `level` and not below `min`.
pub open spec fn deepest(
    policy: CgroupPolicy,
    slot: u64,
    generation: u64,
    mask: u64,
    ancestors: Seq<u64>,
    level: int,
    min: int,
) -> Option<u64>
    decreases level,
{
    if level < min || level < 1 {
        None
    } else if anchors(policy, slot, generation, mask, ancestors, level) {
        Some(ancestor(ancestors, level))
    } else {
        deepest(policy, slot, generation, mask, ancestors, level - 1, min)
    }
}

/// The control group that a policy allows a task by, with the generation: the
/// task's own where it is allowed, else its deepest allowed ancestor. The root is
/// never one. Where the root is not known, or where the policy changed while it was
/// being read (`reread` is the selecting word read a second time), nothing is
/// allowed.
pub open spec fn scope_of(
    policy: CgroupPolicy,
    reread: Option<u64>,
    cgroup_id: u64,
    ancestors: Seq<u64>,
) -> Option<(u64, u64)> {
    if cgroup_id == 0 || policy.selector is None || reread != policy.selector {
        None
    } else {
        let slot = slot_of(policy.selector->0);
        let generation = generation_of(policy.selector->0);
        let levels = unpacked(policy.levels(slot));
        let root = ancestor(ancestors, 0);
        if generation == 0 || !consistent(levels) || root == 0 {
            None
        } else if policy.allows(slot, cgroup_id, generation) && cgroup_id != root {
            Some((cgroup_id, generation))
        } else {
            match deepest(
                policy,
                slot,
                generation,
                levels.mask,
                ancestors,
                levels.max as int,
                levels.min as int,
            ) {
                Some(id) => Some((id, generation)),
                None => None,
            }
        }
    }
}

fn ancestor_at(ancestors: &Vec<u64>, level: u64) -> (r: u64)
    ensures
        r == ancestor(ancestors@, level as int),
{
    if level < ancestors.len() as u64 {
        ancestors[level as usize]
    } else {
        0
    }
}

/// The control group that a policy allows a task by, with the generation.
/// `ancestors` holds the task's ancestors from the root down, `reread` the
/// selecting word read again after all else.
pub fn matched_cgroup_scope(
    policy: &CgroupPolicy,
    reread: Option<u64>,
    cgroup_id: u64,
    ancestors: &Vec<u64>,
) -> (r: Option<(u64, u64)>)
    ensures
        r == scope_of(*policy, reread, cgroup_id, ancestors@),
{
    if cgroup_id == 0 {
        return None;
    }
    let selector = match policy.selector {
        Some(selector) => selector,
        None => {
            return None;
        },
    };
    match reread {
        Some(again) => {
            if again != selector {
                return None;
            }
        },
        None => {
            return None;
        },
    }
    let slot = selector / 0x8000_0000_0000_0000;
    let generation = selector % 0x8000_0000_0000_0000;
    if generation == 0 {
        return None;
    }
    let packed = if slot == 0 {
        policy.levels_a
    } else {
        policy.levels_b
    };
    let levels = match configured_cgroup_levels(packed) {
        Some(levels) => levels,
        None => {
            return None;
        },
    };
    let root = ancestor_at(ancestors, 0);
    if root == 0 {
        return None;
    }
    if policy.cgroup_allowed(slot, cgroup_id, generation) && cgroup_id != root {
        return Some((cgroup_id, generation));
    }
    let mut level = levels.max;
    while level >= levels.min
        invariant
            consistent(levels),
            slot <= 1,
            root == ancestor(ancestors@, 0),
            level <= levels.max,
            scope_of(*policy, reread, cgroup_id, ancestors@) == match deepest(
                *policy,
                slot,
                generation,
                levels.mask,
                ancestors@,
                levels.max as int,
                levels.min as int,
            ) {
                Some(id) => Some((id, generation)),
                None => None,
            },
            deepest(
                *policy,
                slot,
                generation,
                levels.mask,
                ancestors@,
                level as int,
                levels.min as int,
            ) == deepest(
                *policy,
                slot,
                generation,
                levels.mask,
                ancestors@,
                levels.max as int,
                levels.min as int,
            ),
        decreases level,
    {
        if level_in(levels.mask, level) {
            let id = ancestor_at(ancestors, level);
            if id != 0 && id != root && policy.cgroup_allowed(slot, id, generation) {
                return Some((id, generation));
            }
        }
        level = level - 1;
    }
    None
}

/// By what a task may be captured.
#[derive(Debug, Clone, Copy, PartialEq, Eq, Structural)]
pub struct CaptureScope {
    /// The task's own control group, which its records are attributed to.
    pub cgroup_id: u64,
    /// The control group that the policy allows, or zero where it allows the
    /// process.
    pub scope_cgroup_id: u64,
    pub policy_generation: u64,
}

/// By what a task may be captured: the policy of control groups comes first, then
/// the generation in which its process was allowed, unless that is zero.
pub open spec fn capture_scope_of(
    policy: CgroupPolicy,
    reread: Option<u64>,
    cgroup_id: u64,
    ancestors: Seq<u64>,
    pid_generation: Option<u64>,
) -> Option<CaptureScope> {
    match scope_of(policy, reread, cgroup_id, ancestors) {
        Some(scope) => Some(
            CaptureScope { cgroup_id, scope_cgroup_id: scope.0, policy_generation: scope.1 },
        ),
        None => if pid_generation is Some && pid_generation->0 != 0 {
            Some(
                CaptureScope {
                    cgroup_id,
                    scope_cgroup_id: 0,
                    policy_generation: pid_generation->0,
                },
            )
        } else {
            None
        },
    }
}

/// By what a task may be captured.
pub fn capture_scope(
    policy: &CgroupPolicy,
    reread: Option<u64>,
    cgroup_id: u64,
    ancestors: &Vec<u64>,
    pid_generation: Option<u64>,
) -> (r: Option<CaptureScope>)
    ensures
        r == capture_scope_of(*policy, reread, cgroup_id, ancestors@, pid_generation),
{
    if let Some((scope_cgroup_id, policy_generation)) = matched_cgroup_scope(
        policy,
        reread,
        cgroup_id,
        ancestors,
    ) {
        return Some(CaptureScope { cgroup_id, scope_cgroup_id, policy_generation });
    }
    match pid_generation {
        Some(policy_generation) => if policy_generation != 0 {
            Some(CaptureScope { cgroup_id, scope_cgroup_id: 0, policy_generation })
        } else {
            None
        },
        None => None,
    }
}

/// Whether a task may be captured by the same as before.
pub fn capture_scopes_match(left: CaptureScope, right: CaptureScope) -> (r: bool)
    ensures
        r == (left == right),
{
    left.cgroup_id == right.cgroup_id && left.scope_cgroup_id == right.scope_cgroup_id
        && left.policy_generation == right.policy_generation
}

// ---------------------------------------------------------------------------
// Laws
// ---------------------------------------------------------------------------

proof fn lemma_deepest(
    policy: CgroupPolicy,
    slot: u64,
    generation: u64,
    mask: u64,
    ancestors: Seq<u64>,
    level: int,
    min: int,
)
    ensures
        match deepest(policy, slot, generation, mask, ancestors, level, min) {
            Some(id) => id != 0 && id != ancestor(ancestors, 0) && policy.allows(
                slot,
                id,
                generation,
            ),
            None => true,
        },
    decreases level,
{
    if level >= min && level >= 1 && !anchors(policy, slot, generation, mask, ancestors, level) {
        lemma_deepest(policy, slot, generation, mask, ancestors, level - 1, min);
    }
}

/// Whatever a task is captured by is a control group that the policy in force
/// allows in its generation, and never the root.
pub proof fn only_allowed_groups_are_captured(
    policy: CgroupPolicy,
    reread: Option<u64>,
    cgroup_id: u64,
    ancestors: Seq<u64>,
)
    requires
        scope_of(policy, reread, cgroup_id, ancestors) is Some,
    ensures
        ({
            let scope = scope_of(policy, reread, cgroup_id, ancestors)->0;
            &&& policy.selector is Some
            &&& scope.1 == generation_of(policy.selector->0)
            &&& scope.0 != 0
            &&& scope.0 != ancestor(ancestors, 0)
            &&& policy.allows(slot_of(policy.selector->0), scope.0, scope.1)
        }),
{
    let slot = slot_of(policy.selector->0);
    let generation = generation_of(policy.selector->0);
    let levels = unpacked(policy.levels(slot));
    lemma_deepest(
        policy,
        slot,
        generation,
        levels.mask,
        ancestors,
        levels.max as int,
        levels.min as int,
    );
}

/// While a policy is being switched, or where the root is not known, no control
/// group allows anything.
pub proof fn doubt_allows_nothing(
    policy: CgroupPolicy,
    reread: Option<u64>,
    cgroup_id: u64,
    ancestors: Seq<u64>,
)
    requires
        reread != policy.selector || policy.selector is None || ancestor(ancestors, 0) == 0
            || generation_of(policy.selector->0) == 0,
    ensures
        scope_of(policy, reread, cgroup_id, ancestors) is None,
{
}

} // verus!
