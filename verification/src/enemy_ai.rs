//! Enemy decisions: once an enemy reaches the spot it walked to, it turns and attacks;
//! until then it walks there.

use vstd::prelude::*;

use crate::animation::Facing;
use crate::fighter_state::FighterState;
use crate::text::str_equal;

verus! {

/// What an enemy does this frame.
#[derive(Debug, PartialEq, Eq, Structural, Clone, Copy)]
pub struct EnemyDecision {
    /// The way the enemy faces.
    pub facing: Facing,
    /// The state the enemy asks to enter, if any.
    pub intent: Option<FighterState>,
    /// Whether the enemy forgets its walk target.
    pub remove_target: bool,
}

/// The facing toward something on the right (`true`) or not.
pub open spec fn facing_right_if(right: bool) -> Facing {
    if right { Facing::Right } else { Facing::Left }
}

/// The decision of an enemy. Near its target it drops the target, faces it and attacks: a
/// boss throws a bomb, others use their current attack (a punch, or a projectile thrown
/// after turning to face the player); unknown attacks do nothing. Away from its target it
/// faces the way it walks and moves on.
pub open spec fn spec_enemy_decision(
    near_target: bool,
    is_boss: bool,
    attack_name: Seq<char>,
    target_right: bool,
    player_right: bool,
    walking_left: bool,
) -> EnemyDecision {
    if near_target {
        if is_boss {
            EnemyDecision { facing: facing_right_if(target_right), intent: Some(FighterState::BossBombThrow), remove_target: true }
        } else if attack_name == "punch"@ {
            EnemyDecision { facing: facing_right_if(target_right), intent: Some(FighterState::Punching), remove_target: true }
        } else if attack_name == "projectile"@ {
            EnemyDecision { facing: facing_right_if(player_right), intent: Some(FighterState::ProjectileAttacking), remove_target: true }
        } else {
            EnemyDecision { facing: facing_right_if(target_right), intent: None, remove_target: true }
        }
    } else {
        EnemyDecision { facing: facing_right_if(!walking_left), intent: Some(FighterState::Moving), remove_target: false }
    }
}

/// Decides what an enemy does this frame, from where it stands relative to its target and
/// the player, and its current attack.
pub fn emit_enemy_intent(
    near_target: bool,
    is_boss: bool,
    attack_name: &str,
    target_right: bool,
    player_right: bool,
    walking_left: bool,
) -> (d: EnemyDecision)
    ensures
        d == spec_enemy_decision(near_target, is_boss, attack_name@, target_right, player_right, walking_left),
{
    if near_target {
        let facing = if target_right { Facing::Right } else { Facing::Left };
        if is_boss {
            EnemyDecision { facing, intent: Some(FighterState::BossBombThrow), remove_target: true }
        } else if str_equal(attack_name, "punch") {
            EnemyDecision { facing, intent: Some(FighterState::Punching), remove_target: true }
        } else if str_equal(attack_name, "projectile") {
            let facing = if player_right { Facing::Right } else { Facing::Left };
            EnemyDecision { facing, intent: Some(FighterState::ProjectileAttacking), remove_target: true }
        } else {
            EnemyDecision { facing, intent: None, remove_target: true }
        }
    } else {
        let facing = if walking_left { Facing::Left } else { Facing::Right };
        EnemyDecision { facing, intent: Some(FighterState::Moving), remove_target: false }
    }
}

/// An enemy away from its target keeps walking and faces the way it walks; one at its
/// target stops walking, forgets the target and faces it (a projectile thrower faces the
/// player instead), attacking with a bomb if it is a boss, else with its punch or its
/// projectile, and with nothing for any other attack.
pub proof fn lemma_enemy_decision_laws(
    near_target: bool,
    is_boss: bool,
    attack_name: Seq<char>,
    target_right: bool,
    player_right: bool,
    walking_left: bool,
)
    ensures
        ({
            let d = spec_enemy_decision(near_target, is_boss, attack_name, target_right, player_right, walking_left);
            let throws = !is_boss && attack_name == "projectile"@;
            &&& !near_target ==> d.intent == Some(FighterState::Moving) && !d.remove_target
                && (d.facing == Facing::Left <==> walking_left)
            &&& near_target ==> d.remove_target && d.intent != Some(FighterState::Moving)
            &&& near_target && !throws ==> (d.facing == Facing::Right <==> target_right)
            &&& near_target && throws ==> (d.facing == Facing::Right <==> player_right)
                && d.intent == Some(FighterState::ProjectileAttacking)
            &&& near_target && is_boss ==> d.intent == Some(FighterState::BossBombThrow)
            &&& near_target && !is_boss && attack_name == "punch"@ ==> d.intent == Some(FighterState::Punching)
            &&& near_target && !is_boss && attack_name != "punch"@ && attack_name != "projectile"@ ==> d.intent is None
        }),
{
    reveal_strlit("punch");
    reveal_strlit("projectile");
    assert("punch"@ != "projectile"@) by {
        assert("punch"@[1] != "projectile"@[1]);
    }
}

/// Whether an enemy that aims its current attack at the player adjusts its target for a
/// projectile's flight.
pub fn aims_projectile(attack_name: &str) -> (res: bool)
    ensures
        res == (attack_name@ == "projectile"@),
{
    str_equal(attack_name, "projectile")
}

} // verus!
