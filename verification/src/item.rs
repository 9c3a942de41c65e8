//! Items: picking them up, using health items, throwing what is carried, and what spawns
//! when a breakable or short-lived item goes away.

use std::collections::HashSet;

use vstd::prelude::*;

verus! {

/// What kind of item something is, as far as picking up, throwing and spawning go.
#[derive(Debug, PartialEq, Eq, Structural, Clone, Copy)]
pub enum ItemClass {
    /// Restores health when picked up.
    Health { health: i32 },
    /// Carried, then thrown.
    Throwable,
    /// Carried, then thrown; drops another item when it breaks.
    BreakableBox { hits: i32 },
    /// Runs a script.
    Script,
    /// Explodes after a fuse.
    Bomb,
    /// Carried as a weapon.
    Weapon,
}

/// `health + item_health`, kept within `0..=max_health`.
pub open spec fn refilled_health(health: i32, item_health: i32, max_health: i32) -> int {
    let h = health + item_health;
    if h < 0 {
        0
    } else if h > max_health {
        max_health as int
    } else {
        h
    }
}

/// A fighter's health after picking up a health item.
pub fn refill_health(health: i32, item_health: i32, max_health: i32) -> (h: i32)
    requires
        max_health >= 0,
        i32::MIN <= health + item_health <= i32::MAX,
    ensures
        h == refilled_health(health, item_health, max_health),
        0 <= h <= max_health,
{
    let sum = health + item_health;
    if sum < 0 {
        0
    } else if sum > max_health {
        max_health
    } else {
        sum
    }
}

/// The first item at or after `j` within reach (per `in_range`) that has not been taken.
pub open spec fn first_reachable(in_range: Seq<bool>, taken: Seq<bool>, j: int) -> Option<int>
    decreases in_range.len() - j,
{
    if j >= in_range.len() || j < 0 {
        None
    } else if !taken[j] && in_range[j] {
        Some(j)
    } else {
        first_reachable(in_range, taken, j + 1)
    }
}

/// The item a fighter takes, given which items are in reach, which are already taken and
/// whether the fighter's hands are free: the first reachable item not yet taken, and none
/// when the hands are full.
pub open spec fn grab_choice(in_range: Seq<bool>, taken: Seq<bool>, hands_free: bool) -> Option<int> {
    if hands_free {
        first_reachable(in_range, taken, 0)
    } else {
        None
    }
}

/// The taken-marks after a fighter's choice: the chosen item is taken.
pub open spec fn taken_after(taken: Seq<bool>, choice: Option<int>) -> Seq<bool> {
    match choice {
        Some(j) => taken.update(j, true),
        None => taken,
    }
}

/// The taken-marks over `n_items` items after the first `n` fighters have grabbed.
pub open spec fn taken_after_fighters(in_range: Seq<Seq<bool>>, hands_free: Seq<bool>, n_items: nat, n: int) -> Seq<bool>
    decreases n,
{
    if n <= 0 {
        Seq::new(n_items, |j: int| false)
    } else {
        let taken = taken_after_fighters(in_range, hands_free, n_items, n - 1);
        taken_after(taken, grab_choice(in_range[n - 1], taken, hands_free[n - 1]))
    }
}

/// The item chosen by fighter `i`, fighters grabbing in turn.
pub open spec fn grab_choice_of(in_range: Seq<Seq<bool>>, hands_free: Seq<bool>, n_items: nat, i: int) -> Option<int> {
    grab_choice(in_range[i], taken_after_fighters(in_range, hands_free, n_items, i), hands_free[i])
}

/// Well-shaped grab inputs: one row of reach flags per fighter, one flag per item.
pub open spec fn grab_inputs_wf(in_range: Seq<Seq<bool>>, hands_free: Seq<bool>, n_items: nat) -> bool {
    &&& in_range.len() == hands_free.len()
    &&& forall|i: int| 0 <= i < in_range.len() ==> (#[trigger] in_range[i]).len() == n_items
}

proof fn lemma_taken_len(in_range: Seq<Seq<bool>>, hands_free: Seq<bool>, n_items: nat, n: int)
    requires
        grab_inputs_wf(in_range, hands_free, n_items),
        0 <= n <= in_range.len(),
    ensures
        taken_after_fighters(in_range, hands_free, n_items, n).len() == n_items,
    decreases n,
{
    if n > 0 {
        lemma_taken_len(in_range, hands_free, n_items, n - 1);
        let taken = taken_after_fighters(in_range, hands_free, n_items, n - 1);
        lemma_first_reachable_bounds(in_range[n - 1], taken, 0);
    }
}

proof fn lemma_first_reachable_bounds(in_range: Seq<bool>, taken: Seq<bool>, j: int)
    requires
        taken.len() == in_range.len(),
        j >= 0,
    ensures
        first_reachable(in_range, taken, j) matches Some(k) ==> (j <= k < in_range.len() && !taken[k]
            && in_range[k]),
        first_reachable(in_range, taken, j) is None ==> forall|k: int|
            j <= k < in_range.len() ==> !(!taken[k] && in_range[k]),
    decreases in_range.len() - j,
{
    if 0 <= j < in_range.len() && !(!taken[j] && in_range[j]) {
        lemma_first_reachable_bounds(in_range, taken, j + 1);
    }
}

/// The set of picked items stands for the taken-marks `taken`.
pub open spec fn picked_matches(picked: Set<usize>, taken: Seq<bool>) -> bool {
    forall|j: int| 0 <= j < taken.len() ==> (picked.contains(j as usize) <==> #[trigger] taken[j])
}

/// Finds the first item within reach that has not been picked.
fn find_reachable(in_range: &Vec<bool>, picked: &HashSet<usize>, Ghost(taken): Ghost<Seq<bool>>) -> (res: Option<usize>)
    requires
        in_range@.len() == taken.len(),
        picked_matches(picked@, taken),
    ensures
        match res {
            Some(j) => first_reachable(in_range@, taken, 0) == Some(j as int),
            None => first_reachable(in_range@, taken, 0) is None,
        },
{
    let mut j: usize = 0;
    while j < in_range.len()
        invariant
            j <= in_range@.len(),
            in_range@.len() == taken.len(),
            picked_matches(picked@, taken),
            first_reachable(in_range@, taken, 0) == first_reachable(in_range@, taken, j as int),
        decreases in_range@.len() - j,
    {
        let is_picked = picked.contains(&j);
        proof {
            assert(taken[j as int] == picked@.contains(j));
        }
        if !is_picked && in_range[j] {
            return Some(j);
        }
        j = j + 1;
    }
    None
}

/// Decides which of `n_items` items each fighter picks up this frame. Fighters grab in
/// turn; each takes the first item (in item order) that is within its reach and not yet
/// picked, if its hands are free; a fighter whose hands are full takes nothing. Every item
/// picked, whether carried off or used on the spot, is recorded as picked, so no two
/// fighters pick the same item.
pub fn grab_items(in_range: &Vec<Vec<bool>>, hands_free: &Vec<bool>, n_items: usize) -> (choices: Vec<
    Option<usize>,
>)
    requires
        grab_inputs_wf(in_range@.map_values(|r: Vec<bool>| r@), hands_free@, n_items as nat),
    ensures
        choices@.len() == in_range@.len(),
        forall|i: int| 0 <= i < choices@.len() ==> (match #[trigger] choices@[i] {
            Some(j) => grab_choice_of(in_range@.map_values(|r: Vec<bool>| r@), hands_free@, n_items as nat, i) == Some(j as int),
            None => grab_choice_of(in_range@.map_values(|r: Vec<bool>| r@), hands_free@, n_items as nat, i) is None,
        }),
{
    let ghost rows = in_range@.map_values(|r: Vec<bool>| r@);
    let ghost n = n_items as nat;
    let mut picked: HashSet<usize> = HashSet::new();
    let mut choices: Vec<Option<usize>> = Vec::new();
    let mut i: usize = 0;
    while i < in_range.len()
        invariant
            i <= in_range@.len(),
            n == n_items as nat,
            rows == in_range@.map_values(|r: Vec<bool>| r@),
            grab_inputs_wf(rows, hands_free@, n),
            picked_matches(picked@, taken_after_fighters(rows, hands_free@, n, i as int)),
            choices@.len() == i,
            forall|f: int| 0 <= f < i ==> (match #[trigger] choices@[f] {
                Some(j) => grab_choice_of(rows, hands_free@, n, f) == Some(j as int),
                None => grab_choice_of(rows, hands_free@, n, f) is None,
            }),
        decreases in_range@.len() - i,
    {
        let ghost taken = taken_after_fighters(rows, hands_free@, n, i as int);
        proof {
            lemma_taken_len(rows, hands_free@, n, i as int);
            assert(rows[i as int] == in_range@[i as int]@);
        }
        let choice = if hands_free[i] {
            find_reachable(&in_range[i], &picked, Ghost(taken))
        } else {
            None
        };
        match choice {
            Some(j) => {
                proof {
                    lemma_first_reachable_bounds(rows[i as int], taken, 0);
                }
                picked.insert(j);
                proof {
                    let next = taken.update(j as int, true);
                    assert(picked_matches(picked@, next));
                }
            },
            None => {},
        }
        choices.push(choice);
        i = i + 1;
    }
    choices
}

/// A fighter takes at most one item per frame, only one within its reach that nobody took
/// before it, and nothing when its hands are full. No item is picked by two fighters.
pub proof fn lemma_grab_laws(in_range: Seq<Seq<bool>>, hands_free: Seq<bool>, n_items: nat)
    requires
        grab_inputs_wf(in_range, hands_free, n_items),
    ensures
        forall|i: int| 0 <= i < in_range.len() && !hands_free[i] ==> #[trigger] grab_choice_of(in_range, hands_free, n_items, i) is None,
        forall|i: int| 0 <= i < in_range.len() ==> (#[trigger] grab_choice_of(in_range, hands_free, n_items, i) matches Some(j) ==> 0 <= j < n_items && in_range[i][j]),
        forall|a: int, b: int|
            #![trigger grab_choice_of(in_range, hands_free, n_items, a), grab_choice_of(in_range, hands_free, n_items, b)]
            0 <= a < b < in_range.len() && grab_choice_of(in_range, hands_free, n_items, a) is Some
            ==> grab_choice_of(in_range, hands_free, n_items, a) != grab_choice_of(in_range, hands_free, n_items, b),
{
    assert forall|i: int| 0 <= i < in_range.len() implies (#[trigger] grab_choice_of(in_range, hands_free, n_items, i) matches Some(j) ==> 0 <= j < n_items && in_range[i][j]) by {
        lemma_taken_len(in_range, hands_free, n_items, i);
        lemma_first_reachable_bounds(in_range[i], taken_after_fighters(in_range, hands_free, n_items, i), 0);
    }
    assert forall|a: int, b: int|
        #![trigger grab_choice_of(in_range, hands_free, n_items, a), grab_choice_of(in_range, hands_free, n_items, b)]
        0 <= a < b < in_range.len() && grab_choice_of(in_range, hands_free, n_items, a) is Some
        implies grab_choice_of(in_range, hands_free, n_items, a) != grab_choice_of(in_range, hands_free, n_items, b) by {
        let j = grab_choice_of(in_range, hands_free, n_items, a)->0;
        lemma_taken_len(in_range, hands_free, n_items, a);
        lemma_first_reachable_bounds(in_range[a], taken_after_fighters(in_range, hands_free, n_items, a), 0);
        lemma_taken_stays(in_range, hands_free, n_items, a + 1, b, j);
        lemma_taken_len(in_range, hands_free, n_items, b);
        lemma_first_reachable_bounds(in_range[b], taken_after_fighters(in_range, hands_free, n_items, b), 0);
    }
}

/// Fighter `f`, one of the first `i` fighters, picked item `j`.
pub open spec fn chosen_before(in_range: Seq<Seq<bool>>, hands_free: Seq<bool>, n_items: nat, i: int, j: int) -> bool {
    exists|f: int| 0 <= f < i && #[trigger] grab_choice_of(in_range, hands_free, n_items, f) == Some(j)
}

/// The first reachable item from `s` on is the least index at or after `s` that is within
/// reach and not taken.
proof fn lemma_first_reachable_is_least(in_range: Seq<bool>, taken: Seq<bool>, s: int, j: int)
    requires
        taken.len() == in_range.len(),
        s >= 0,
    ensures
        first_reachable(in_range, taken, s) == Some(j) <==> (s <= j < in_range.len() && !taken[j]
            && in_range[j] && forall|k: int| s <= k < j ==> !(!taken[k] && in_range[k])),
    decreases in_range.len() - s,
{
    if s < in_range.len() && !(!taken[s] && in_range[s]) {
        lemma_first_reachable_is_least(in_range, taken, s + 1, j);
        if s + 1 <= j < in_range.len() && !taken[j] && in_range[j] && forall|k: int| s + 1 <= k < j ==> !(!taken[k] && in_range[k]) {
            assert forall|k: int| s <= k < j implies !(!taken[k] && in_range[k]) by {
                if k > s {
                }
            }
        }
    }
}

/// An item is taken after the first `i` fighters exactly when one of them picked it.
proof fn lemma_taken_is_chosen(in_range: Seq<Seq<bool>>, hands_free: Seq<bool>, n_items: nat, i: int)
    requires
        grab_inputs_wf(in_range, hands_free, n_items),
        0 <= i <= in_range.len(),
    ensures
        forall|j: int| 0 <= j < n_items ==> (#[trigger] taken_after_fighters(in_range, hands_free, n_items, i)[j]
            <==> chosen_before(in_range, hands_free, n_items, i, j)),
    decreases i,
{
    if i > 0 {
        lemma_taken_is_chosen(in_range, hands_free, n_items, i - 1);
        lemma_taken_len(in_range, hands_free, n_items, i - 1);
        let prev = taken_after_fighters(in_range, hands_free, n_items, i - 1);
        lemma_first_reachable_bounds(in_range[i - 1], prev, 0);
        let c = grab_choice_of(in_range, hands_free, n_items, i - 1);
        assert forall|j: int| 0 <= j < n_items implies (#[trigger] taken_after_fighters(in_range, hands_free, n_items, i)[j]
            <==> chosen_before(in_range, hands_free, n_items, i, j)) by {
            if c == Some(j) {
                assert(taken_after_fighters(in_range, hands_free, n_items, i)[j]);
                assert(grab_choice_of(in_range, hands_free, n_items, i - 1) == Some(j));
            } else {
                if chosen_before(in_range, hands_free, n_items, i, j) {
                    let f = choose|f: int| 0 <= f < i && #[trigger] grab_choice_of(in_range, hands_free, n_items, f) == Some(j);
                    assert(f < i - 1);
                    assert(chosen_before(in_range, hands_free, n_items, i - 1, j));
                }
                if chosen_before(in_range, hands_free, n_items, i - 1, j) {
                    let f = choose|f: int| 0 <= f < i - 1 && #[trigger] grab_choice_of(in_range, hands_free, n_items, f) == Some(j);
                    assert(chosen_before(in_range, hands_free, n_items, i, j));
                }
            }
        }
    }
}

/// A fighter picks an item exactly when its hands are free and some item within its reach
/// has not been picked by a fighter before it; it then picks the first such item, in item
/// order.
pub proof fn lemma_grab_picks_first_free_item(in_range: Seq<Seq<bool>>, hands_free: Seq<bool>, n_items: nat)
    requires
        grab_inputs_wf(in_range, hands_free, n_items),
    ensures
        forall|i: int, j: int|
            #![trigger grab_choice_of(in_range, hands_free, n_items, i), chosen_before(in_range, hands_free, n_items, i, j)]
            0 <= i < in_range.len() ==> (grab_choice_of(in_range, hands_free, n_items, i) == Some(j) <==> (
                hands_free[i] && 0 <= j < n_items && in_range[i][j] && !chosen_before(in_range, hands_free, n_items, i, j)
                    && forall|k: int| 0 <= k < j && #[trigger] in_range[i][k] ==> chosen_before(in_range, hands_free, n_items, i, k))),
        forall|i: int|
            0 <= i < in_range.len() ==> (#[trigger] grab_choice_of(in_range, hands_free, n_items, i) is Some <==> (hands_free[i]
                && exists|j: int| 0 <= j < n_items && in_range[i][j] && !chosen_before(in_range, hands_free, n_items, i, j))),
{
    assert forall|i: int, j: int|
        #![trigger grab_choice_of(in_range, hands_free, n_items, i), chosen_before(in_range, hands_free, n_items, i, j)]
        0 <= i < in_range.len() implies (grab_choice_of(in_range, hands_free, n_items, i) == Some(j) <==> (
            hands_free[i] && 0 <= j < n_items && in_range[i][j] && !chosen_before(in_range, hands_free, n_items, i, j)
                && forall|k: int| 0 <= k < j && #[trigger] in_range[i][k] ==> chosen_before(in_range, hands_free, n_items, i, k))) by {
        let taken = taken_after_fighters(in_range, hands_free, n_items, i);
        lemma_taken_len(in_range, hands_free, n_items, i);
        lemma_taken_is_chosen(in_range, hands_free, n_items, i);
        lemma_first_reachable_is_least(in_range[i], taken, 0, j);
        if hands_free[i] && 0 <= j < n_items && in_range[i][j] && !chosen_before(in_range, hands_free, n_items, i, j)
            && forall|k: int| 0 <= k < j && #[trigger] in_range[i][k] ==> chosen_before(in_range, hands_free, n_items, i, k) {
            assert forall|k: int| 0 <= k < j implies !(!taken[k] && in_range[i][k]) by {
                if in_range[i][k] {
                    assert(chosen_before(in_range, hands_free, n_items, i, k));
                }
            }
        }
        if grab_choice_of(in_range, hands_free, n_items, i) == Some(j) {
            assert forall|k: int| 0 <= k < j && #[trigger] in_range[i][k] implies chosen_before(in_range, hands_free, n_items, i, k) by {
                assert(!(!taken[k] && in_range[i][k]));
            }
        }
    }
    assert forall|i: int|
        0 <= i < in_range.len() implies (#[trigger] grab_choice_of(in_range, hands_free, n_items, i) is Some <==> (hands_free[i]
            && exists|j: int| 0 <= j < n_items && in_range[i][j] && !chosen_before(in_range, hands_free, n_items, i, j))) by {
        let taken = taken_after_fighters(in_range, hands_free, n_items, i);
        lemma_taken_len(in_range, hands_free, n_items, i);
        lemma_taken_is_chosen(in_range, hands_free, n_items, i);
        lemma_first_reachable_bounds(in_range[i], taken, 0);
        if grab_choice_of(in_range, hands_free, n_items, i) is Some {
            let j = grab_choice_of(in_range, hands_free, n_items, i)->0;
            assert(0 <= j < n_items && in_range[i][j] && !chosen_before(in_range, hands_free, n_items, i, j));
        }
        if hands_free[i] && exists|j: int| 0 <= j < n_items && in_range[i][j] && !chosen_before(in_range, hands_free, n_items, i, j) {
            let j = choose|j: int| 0 <= j < n_items && in_range[i][j] && !chosen_before(in_range, hands_free, n_items, i, j);
            assert(!taken[j] && in_range[i][j]);
        }
    }
}

/// Once an item is taken it stays taken.
proof fn lemma_taken_stays(in_range: Seq<Seq<bool>>, hands_free: Seq<bool>, n_items: nat, a: int, b: int, j: int)
    requires
        grab_inputs_wf(in_range, hands_free, n_items),
        0 < a <= b <= in_range.len(),
        0 <= j < n_items,
        taken_after_fighters(in_range, hands_free, n_items, a)[j],
    ensures
        taken_after_fighters(in_range, hands_free, n_items, b)[j],
    decreases b - a,
{
    if b > a {
        lemma_taken_stays(in_range, hands_free, n_items, a, b - 1, j);
        lemma_taken_len(in_range, hands_free, n_items, b - 1);
        lemma_first_reachable_bounds(in_range[b - 1], taken_after_fighters(in_range, hands_free, n_items, b - 1), 0);
    }
}


/// What throwing a carried item spawns.
#[derive(Debug, PartialEq, Eq, Structural, Clone, Copy)]
pub enum ThrowAction {
    /// A projectile.
    Projectile,
    /// A projectile that drops the box's item when it breaks; the box sprite the fighter
    /// held goes away.
    ProjectileWithDrop,
}

/// What throwing the carried item `class` spawns; only throwables and boxes are thrown.
pub fn throw_action(class: ItemClass) -> (a: ThrowAction)
    requires
        class is Throwable || class is BreakableBox,
    ensures
        a == if class is BreakableBox { ThrowAction::ProjectileWithDrop } else { ThrowAction::Projectile },
{
    match class {
        ItemClass::BreakableBox { .. } => ThrowAction::ProjectileWithDrop,
        _ => ThrowAction::Projectile,
    }
}

/// What an item placed in a level comes with.
#[derive(Debug, PartialEq, Eq, Structural, Clone, Copy)]
pub enum SpawnPlan {
    /// A breakable body that tolerates `hits` hits and drops the box's item.
    Breakable { hits: i32 },
    /// Its script is made active.
    ActivateScript,
    /// Nothing more.
    Plain,
}

/// What an item of class `class` comes with when placed in a level.
pub fn spawn_plan(class: ItemClass) -> (p: SpawnPlan)
    ensures
        p == match class {
            ItemClass::BreakableBox { hits } => SpawnPlan::Breakable { hits },
            ItemClass::Script => SpawnPlan::ActivateScript,
            _ => SpawnPlan::Plain,
        },
{
    match class {
        ItemClass::BreakableBox { hits } => SpawnPlan::Breakable { hits },
        ItemClass::Script => SpawnPlan::ActivateScript,
        _ => SpawnPlan::Plain,
    }
}

/// What a bomb does this frame.
#[derive(Debug, PartialEq, Eq, Structural, Clone, Copy)]
pub enum ExplodableAction {
    /// Stop moving and start the fuse.
    StartFusing,
    /// The fuse has burnt down: explode.
    Explode,
    /// Nothing yet.
    Wait,
}

/// What a bomb does: once its flight timer is up it stops and starts fusing; once the fuse
/// animation has played it explodes.
pub fn explodable_action(fusing: bool, timer_finished: bool, animation_finished: bool) -> (a: ExplodableAction)
    ensures
        a == if !fusing && timer_finished {
            ExplodableAction::StartFusing
        } else if animation_finished && fusing {
            ExplodableAction::Explode
        } else {
            ExplodableAction::Wait
        },
{
    if !fusing && timer_finished {
        ExplodableAction::StartFusing
    } else if animation_finished && fusing {
        ExplodableAction::Explode
    } else {
        ExplodableAction::Wait
    }
}

/// Every event that carries a drop also carries the place to drop it.
pub open spec fn drops_placed<D, T>(events: Seq<(Option<D>, Option<T>)>) -> bool {
    forall|i: int| 0 <= i < events.len() && (#[trigger] events[i]).0 is Some ==> events[i].1 is Some
}

/// The drops of `events` with their places, in event order.
pub open spec fn drops_of<D, T>(events: Seq<(Option<D>, Option<T>)>) -> Seq<(D, T)>
    decreases events.len(),
{
    if events.len() == 0 {
        Seq::empty()
    } else {
        let rest = drops_of(events.drop_first());
        match events[0] {
            (Some(d), Some(t)) => seq![(d, t)] + rest,
            _ => rest,
        }
    }
}

/// Appends the drops of `events` to `drops`.
fn push_drops<D, T>(drops: &mut Vec<(D, T)>, events: Vec<(Option<D>, Option<T>)>)
    requires
        drops_placed(events@),
    ensures
        final(drops)@ == old(drops)@ + drops_of(events@),
{
    let ghost orig = events@;
    let mut rest = events;
    let ghost mut n: int = 0;
    proof {
        assert(rest@ =~= orig.skip(0));
        assert(old(drops)@ =~= old(drops)@ + Seq::<(D, T)>::empty());
    }
    while rest.len() > 0
        invariant
            0 <= n <= orig.len(),
            rest@ == orig.skip(n),
            drops_placed(orig),
            drops@ + drops_of(orig.skip(n)) == old(drops)@ + drops_of(orig),
        decreases rest@.len(),
    {
        let e = rest.remove(0);
        proof {
            assert(e == orig[n]);
            assert(orig.skip(n).drop_first() =~= orig.skip(n + 1));
            assert(orig.skip(n)[0] == orig[n]);
        }
        match e {
            (Some(d), Some(t)) => {
                proof {
                    assert(drops@.push((d, t)) + drops_of(orig.skip(n + 1)) =~= drops@ + (seq![(d, t)]
                        + drops_of(orig.skip(n + 1))));
                }
                drops.push((d, t));
            },
            (Some(_), None) => {
                proof {
                    assert(orig[n].0 is Some);
                }
            },
            _ => {},
        }
        proof {
            n = n + 1;
            assert(rest@ =~= orig.skip(n));
        }
    }
    proof {
        assert(drops_of(orig.skip(n)) =~= Seq::<(D, T)>::empty());
        assert(drops@ + Seq::<(D, T)>::empty() =~= drops@);
    }
}

/// The items to drop this frame: those of expired short-lived items, then those of broken
/// ones, each with where it goes.
pub fn collect_drops<D, T>(
    lifetime_events: Vec<(Option<D>, Option<T>)>,
    broke_events: Vec<(Option<D>, Option<T>)>,
) -> (drops: Vec<(D, T)>)
    requires
        drops_placed(lifetime_events@),
        drops_placed(broke_events@),
    ensures
        drops@ == drops_of(lifetime_events@) + drops_of(broke_events@),
{
    let mut drops: Vec<(D, T)> = Vec::new();
    push_drops(&mut drops, lifetime_events);
    push_drops(&mut drops, broke_events);
    assert(Seq::<(D, T)>::empty() + drops_of(lifetime_events@) =~= drops_of(lifetime_events@));
    drops
}

} // verus!
