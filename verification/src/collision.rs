//! Collision layers and the collision groups given to bodies and attacks.
//!
//! A body belongs to the layers of its membership bits and collides with the layers of its
//! filter bits; two bodies interact when each belongs to a layer the other one filters for.

use vstd::prelude::*;

verus! {

/// The collision layers, one bit each.
pub struct BodyLayers;

impl BodyLayers {
    pub const ENEMY: u32 = 1;
    pub const PLAYER: u32 = 2;
    pub const PLAYER_ATTACK: u32 = 4;
    pub const ENEMY_ATTACK: u32 = 8;
    pub const BREAKABLE_ITEM: u32 = 16;
    /// Every layer.
    pub const ALL: u32 = 0xffff_ffff;
}

/// The layers a body belongs to, and the layers it collides with.
#[derive(Debug, PartialEq, Eq, Structural, Clone, Copy)]
pub struct CollisionGroups {
    pub memberships: u32,
    pub filters: u32,
}

/// Whether two bodies with these groups interact.
pub open spec fn groups_interact(a: CollisionGroups, b: CollisionGroups) -> bool {
    (a.memberships & b.filters) != 0 && (b.memberships & a.filters) != 0
}

/// Which side a fighter is on.
#[derive(Debug, PartialEq, Eq, Structural, Clone, Copy)]
pub enum Team {
    Players,
    Enemies,
}

/// The groups of an attack made by a fighter of `team`: a player's attacks hit enemies and
/// breakable items, an enemy's attacks hit players.
pub open spec fn spec_attack_groups(team: Team) -> CollisionGroups {
    match team {
        Team::Players => CollisionGroups {
            memberships: BodyLayers::PLAYER_ATTACK,
            filters: BodyLayers::ENEMY | BodyLayers::BREAKABLE_ITEM,
        },
        Team::Enemies => CollisionGroups {
            memberships: BodyLayers::ENEMY_ATTACK,
            filters: BodyLayers::PLAYER,
        },
    }
}

/// The groups of a fighter's body: it belongs to its team's layer and collides with all.
pub open spec fn spec_body_groups(team: Team) -> CollisionGroups {
    CollisionGroups {
        memberships: match team {
            Team::Players => BodyLayers::PLAYER,
            Team::Enemies => BodyLayers::ENEMY,
        },
        filters: BodyLayers::ALL,
    }
}

impl CollisionGroups {
    /// Whether a body with these groups and one with `other` interact: each belongs to a
    /// layer the other collides with.
    pub fn interacts(&self, other: &CollisionGroups) -> (res: bool)
        ensures
            res == groups_interact(*self, *other),
    {
        (self.memberships & other.filters) != 0 && (other.memberships & self.filters) != 0
    }

    /// Groups with the given memberships and filters.
    pub fn new(memberships: u32, filters: u32) -> (g: CollisionGroups)
        ensures
            g.memberships == memberships,
            g.filters == filters,
    {
        CollisionGroups { memberships, filters }
    }
}

/// The collision groups of an attack made by a fighter of `team`.
pub fn attack_groups(team: Team) -> (g: CollisionGroups)
    ensures
        g == spec_attack_groups(team),
{
    match team {
        Team::Players => CollisionGroups::new(
            BodyLayers::PLAYER_ATTACK,
            BodyLayers::ENEMY | BodyLayers::BREAKABLE_ITEM,
        ),
        Team::Enemies => CollisionGroups::new(BodyLayers::ENEMY_ATTACK, BodyLayers::PLAYER),
    }
}

/// The collision groups of a body on layer `layer` that collides with every layer.
pub fn body_groups(layer: u32) -> (g: CollisionGroups)
    ensures
        g == (CollisionGroups { memberships: layer, filters: BodyLayers::ALL }),
{
    CollisionGroups::new(layer, BodyLayers::ALL)
}

/// The body layer of a fighter that is a player or an enemy.
pub fn fighter_body_layer(is_player: bool, is_enemy: bool) -> (layer: u32)
    requires
        is_player || is_enemy,
    ensures
        layer == if is_player { BodyLayers::PLAYER } else { BodyLayers::ENEMY },
{
    if is_player {
        BodyLayers::PLAYER
    } else {
        BodyLayers::ENEMY
    }
}

/// The collision groups of a breakable item's body: it is hit by player attacks only.
pub fn breakable_item_groups() -> (g: CollisionGroups)
    ensures
        g == (CollisionGroups { memberships: BodyLayers::BREAKABLE_ITEM, filters: BodyLayers::PLAYER_ATTACK }),
{
    CollisionGroups::new(BodyLayers::BREAKABLE_ITEM, BodyLayers::PLAYER_ATTACK)
}

/// The collision groups of an explosion: one set off against enemies hits everyone (the
/// thrower included), one set off by an enemy hits players.
pub fn explosion_groups(attack_enemy: bool) -> (g: CollisionGroups)
    ensures
        g == if attack_enemy {
            CollisionGroups {
                memberships: BodyLayers::PLAYER_ATTACK,
                filters: BodyLayers::PLAYER | BodyLayers::ENEMY | BodyLayers::BREAKABLE_ITEM,
            }
        } else {
            CollisionGroups { memberships: BodyLayers::ENEMY_ATTACK, filters: BodyLayers::PLAYER }
        },
{
    if attack_enemy {
        CollisionGroups::new(
            BodyLayers::PLAYER_ATTACK,
            BodyLayers::PLAYER | BodyLayers::ENEMY | BodyLayers::BREAKABLE_ITEM,
        )
    } else {
        CollisionGroups::new(BodyLayers::ENEMY_ATTACK, BodyLayers::PLAYER)
    }
}

/// Attacks hit the other team's fighters and never their own team's.
pub proof fn lemma_attacks_hit_only_the_other_team(attacker: Team, target: Team)
    ensures
        groups_interact(spec_attack_groups(attacker), spec_body_groups(target)) <==> attacker != target,
{
    let a = spec_attack_groups(attacker);
    let b = spec_body_groups(target);
    assert((4u32 & 0xffff_ffffu32) != 0) by (bit_vector);
    assert((8u32 & 0xffff_ffffu32) != 0) by (bit_vector);
    assert((2u32 & (1u32 | 16u32)) == 0) by (bit_vector);
    assert((1u32 & (1u32 | 16u32)) != 0) by (bit_vector);
    assert((2u32 & 2u32) != 0) by (bit_vector);
    assert((1u32 & 2u32) == 0) by (bit_vector);
}

/// Breakable items are broken by player attacks only.
pub proof fn lemma_breakable_items_hit_by_players_only(attacker: Team)
    ensures
        groups_interact(
            spec_attack_groups(attacker),
            CollisionGroups { memberships: BodyLayers::BREAKABLE_ITEM, filters: BodyLayers::PLAYER_ATTACK },
        ) <==> attacker == Team::Players,
{
    assert((4u32 & 4u32) != 0) by (bit_vector);
    assert((16u32 & (1u32 | 16u32)) != 0) by (bit_vector);
    assert((8u32 & 4u32) == 0) by (bit_vector);
}

} // verus!
