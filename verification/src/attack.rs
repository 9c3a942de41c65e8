//! Attacks: their active frames, the damage they deal, and breakable objects.

use vstd::prelude::*;

verus! {

/// The frames of an attack's animation, as indices into it: the hitbox appears at
/// `startup`, stays through `active`, and the attack is over at `recovery`.
#[derive(Debug, PartialEq, Eq, Structural, Clone, Copy)]
pub struct AttackFrames {
    pub startup: usize,
    pub active: usize,
    pub recovery: usize,
}

impl AttackFrames {
    /// Whether the attack's hitbox is out at animation frame `frame`.
    pub fn hitbox_active(&self, frame: usize) -> (res: bool)
        ensures
            res == (self.startup <= frame && frame <= self.active),
    {
        frame >= self.startup && frame <= self.active
    }

    /// Whether the attack is over at animation frame `frame`.
    pub fn hitbox_expired(&self, frame: usize) -> (res: bool)
        ensures
            res == (frame >= self.recovery),
    {
        frame >= self.recovery
    }
}

/// Whether an attack's hitbox collider is put out at animation frame `frame`: only for an
/// attack that carries hitbox data and has no collider yet, within its active frames.
pub fn activates_hitbox(frames: &AttackFrames, frame: usize, has_hitbox: bool, has_collider: bool) -> (res: bool)
    ensures
        res == (has_hitbox && !has_collider && frames.startup <= frame && frame <= frames.active),
{
    has_hitbox && !has_collider && frames.hitbox_active(frame)
}

/// Whether an attack whose hitbox is out (it has a collider) is removed at animation frame
/// `frame`: once its recovery frames start.
pub fn deactivates_hitbox(frames: &AttackFrames, frame: usize, has_collider: bool) -> (res: bool)
    ensures
        res == (has_collider && frame >= frames.recovery),
{
    has_collider && frames.hitbox_expired(frame)
}

/// How much damage something can still take.
#[derive(Debug, PartialEq, Eq, Structural, Clone, Copy)]
pub struct Health(pub i32);

/// Whether something with health can currently be damaged.
#[derive(Debug, PartialEq, Eq, Structural, Clone, Copy)]
pub struct Damageable(pub bool);

impl Default for Damageable {
    /// Things are damageable unless made invincible.
    fn default() -> (d: Damageable)
        ensures
            d.0,
    {
        Damageable(true)
    }
}

/// Applies an attack's damage to a target's health; an invincible target keeps its health.
/// Returns whether the target was damaged.
pub fn apply_damage(health: &mut Health, damageable: Damageable, damage: i32) -> (damaged: bool)
    requires
        damageable.0 ==> i32::MIN <= old(health).0 - damage <= i32::MAX,
    ensures
        damaged == damageable.0,
        final(health).0 == if damageable.0 { old(health).0 - damage } else { old(health).0 as int },
{
    if damageable.0 {
        health.0 = health.0 - damage;
        true
    } else {
        false
    }
}

/// Orders the two entities of a collision as (attack, hurtbox), when one is an attack and
/// the other a hurtbox; the first entity is taken as the attack when both orders fit.
pub fn attack_and_hurtbox<E>(
    e1: E,
    e2: E,
    e1_is_attack: bool,
    e1_is_hurtbox: bool,
    e2_is_attack: bool,
    e2_is_hurtbox: bool,
) -> (res: Option<(E, E)>)
    ensures
        res == if e1_is_attack && e2_is_hurtbox {
            Some((e1, e2))
        } else if e2_is_attack && e1_is_hurtbox {
            Some((e2, e1))
        } else {
            None
        },
{
    if e1_is_attack && e2_is_hurtbox {
        Some((e1, e2))
    } else if e2_is_attack && e1_is_hurtbox {
        Some((e2, e1))
    } else {
        None
    }
}

/// Something that breaks after taking more hits than it tolerates.
#[derive(Debug, PartialEq, Eq, Structural, Clone, Copy)]
pub struct Breakable {
    /// The number of hits taken without breaking.
    pub hit_tolerance: i32,
    /// The number of hits taken so far.
    pub hit_count: i32,
    /// Whether breaking also despawns the parent.
    pub despawn_parent: bool,
}

/// The breakable after one more hit, and whether that hit broke it.
pub open spec fn after_hit(b: Breakable) -> (Breakable, bool) {
    if b.hit_count < b.hit_tolerance {
        (Breakable { hit_count: (b.hit_count + 1) as i32, ..b }, false)
    } else {
        (b, true)
    }
}

/// The breakable after `k` hits.
pub open spec fn after_hits(b: Breakable, k: nat) -> Breakable
    decreases k,
{
    if k == 0 {
        b
    } else {
        after_hit(after_hits(b, (k - 1) as nat)).0
    }
}

impl Breakable {
    /// A breakable that tolerates `hits` hits.
    pub fn new(hits: i32, despawn_parent: bool) -> (b: Breakable)
        ensures
            b == (Breakable { hit_tolerance: hits, hit_count: 0, despawn_parent }),
    {
        Breakable { hit_tolerance: hits, hit_count: 0, despawn_parent }
    }

    /// Takes one hit; returns whether it broke.
    pub fn hit(&mut self) -> (broke: bool)
        ensures
            (*final(self), broke) == after_hit(*old(self)),
    {
        if self.hit_count < self.hit_tolerance {
            self.hit_count = self.hit_count + 1;
            false
        } else {
            true
        }
    }
}

/// A fresh breakable that tolerates `n` hits takes `n` hits without breaking and breaks
/// on the next one.
pub proof fn lemma_breaks_after_tolerated_hits(n: i32, despawn_parent: bool, k: nat)
    requires
        n >= 0,
        k <= n,
    ensures
        after_hits(Breakable { hit_tolerance: n, hit_count: 0, despawn_parent }, k).hit_count == k,
        k < n ==> !after_hit(after_hits(Breakable { hit_tolerance: n, hit_count: 0, despawn_parent }, k)).1,
        k == n ==> after_hit(after_hits(Breakable { hit_tolerance: n, hit_count: 0, despawn_parent }, k)).1,
    decreases k,
{
    let b = Breakable { hit_tolerance: n, hit_count: 0, despawn_parent };
    if k > 0 {
        lemma_breaks_after_tolerated_hits(n, despawn_parent, (k - 1) as nat);
    }
    assert(after_hits(b, k).hit_tolerance == n) by {
        lemma_hits_keep_tolerance(b, k);
    }
}

proof fn lemma_hits_keep_tolerance(b: Breakable, k: nat)
    ensures
        after_hits(b, k).hit_tolerance == b.hit_tolerance,
        after_hits(b, k).despawn_parent == b.despawn_parent,
    decreases k,
{
    if k > 0 {
        lemma_hits_keep_tolerance(b, (k - 1) as nat);
    }
}

} // verus!
