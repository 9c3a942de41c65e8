//! Fighter states, their priorities, and how queued transition intents are applied.
//!
//! Each fighter holds a queue of transition intents. Once per frame the queue is drained,
//! ordered from the highest priority down (intents of equal priority keep the order in
//! which they were queued), and every intent whose priority is above the priority of the
//! current state is applied in that order, until one that replaces the current state has
//! been applied.

use vstd::prelude::*;
use std::collections::VecDeque;

use crate::animation::{Animation, Facing};
use crate::attack::AttackFrames;

verus! {

broadcast use vstd::seq_lib::group_filter_ensures;

/// A queued transition to another state, carrying the state's data.
pub struct StateTransition<T> {
    /// The data of the state to transition to.
    pub data: T,
    /// The priority of the transition; `i32::MAX` goes through whatever the current state.
    pub priority: i32,
    /// An additive transition leaves the current state in place.
    pub is_additive: bool,
}

impl<T> StateTransition<T> {
    /// Creates a transition to the given state data with the given priority.
    pub fn new(data: T, priority: i32, is_additive: bool) -> (t: Self)
        ensures
            t.data == data,
            t.priority == priority,
            t.is_additive == is_additive,
    {
        StateTransition { data, priority, is_additive }
    }
}

/// The predicate "has priority `p`".
pub open spec fn has_priority<T>(p: i32) -> spec_fn(StateTransition<T>) -> bool {
    |t: StateTransition<T>| t.priority == p
}

/// The transitions of `s` that have priority `p`, in their order in `s`.
pub open spec fn with_priority<T>(s: Seq<StateTransition<T>>, p: i32) -> Seq<StateTransition<T>> {
    s.filter(has_priority::<T>(p))
}

/// No transition of `s` comes before one of higher priority.
pub open spec fn priority_descending<T>(s: Seq<StateTransition<T>>) -> bool {
    forall|i: int, j: int| 0 <= i < j < s.len() ==> s[i].priority >= s[j].priority
}

/// `sorted` holds the transitions of `orig` from the highest priority down, transitions of
/// equal priority in their order in `orig` (a stable sort by descending priority).
pub open spec fn is_priority_order_of<T>(
    sorted: Seq<StateTransition<T>>,
    orig: Seq<StateTransition<T>>,
) -> bool {
    &&& priority_descending(sorted)
    &&& forall|p: i32| #[trigger] with_priority(sorted, p) == with_priority(orig, p)
}

/// The stable descending-priority order of `s`.
pub open spec fn priority_order<T>(s: Seq<StateTransition<T>>) -> Seq<StateTransition<T>> {
    choose|r: Seq<StateTransition<T>>| is_priority_order_of(r, s)
}

/// The predicate "has priority above `current`".
pub open spec fn is_above<T>(current: i32) -> spec_fn(StateTransition<T>) -> bool {
    |t: StateTransition<T>| t.priority > current
}

/// The transitions of `s` whose priority is above `current`, in their order in `s`.
pub open spec fn above<T>(s: Seq<StateTransition<T>>, current: i32) -> Seq<StateTransition<T>> {
    s.filter(is_above::<T>(current))
}

/// The leading transitions of `s` up to and including its first non-additive one (all of
/// `s` when every transition is additive).
pub open spec fn through_first_replacing<T>(s: Seq<StateTransition<T>>) -> Seq<StateTransition<T>>
    decreases s.len(),
{
    if s.len() == 0 {
        s
    } else if !s[0].is_additive {
        seq![s[0]]
    } else {
        seq![s[0]] + through_first_replacing(s.drop_first())
    }
}

/// Whether `s` holds a non-additive transition.
pub open spec fn has_replacing<T>(s: Seq<StateTransition<T>>) -> bool {
    exists|i: int| 0 <= i < s.len() && !(#[trigger] s[i]).is_additive
}

/// The transitions applied from the intents `intents` to a fighter whose current state has
/// priority `current`, in the order they are applied.
pub open spec fn applied_transitions<T>(
    intents: Seq<StateTransition<T>>,
    current: i32,
) -> Seq<StateTransition<T>> {
    through_first_replacing(above(priority_order(intents), current))
}

/// Whether applying the intents `intents` replaces a current state of priority `current`.
pub open spec fn replaces_current<T>(intents: Seq<StateTransition<T>>, current: i32) -> bool {
    has_replacing(above(priority_order(intents), current))
}

proof fn lemma_filter_singleton<T>(x: StateTransition<T>, f: spec_fn(StateTransition<T>) -> bool)
    ensures
        seq![x].filter(f) == (if f(x) { seq![x] } else { Seq::<StateTransition<T>>::empty() }),
{
    Seq::<StateTransition<T>>::empty().lemma_filter_prepend(x, f);
    assert(seq![x] + Seq::<StateTransition<T>>::empty() =~= seq![x]);
}

proof fn lemma_filter_none<T>(s: Seq<StateTransition<T>>, f: spec_fn(StateTransition<T>) -> bool)
    requires
        forall|i: int| 0 <= i < s.len() ==> !f(#[trigger] s[i]),
    ensures
        s.filter(f) == Seq::<StateTransition<T>>::empty(),
{
    assert(s.all(|x: StateTransition<T>| !f(x)));
    s.lemma_all_neg_filter_empty(f);
    assert(s.filter(f) =~= Seq::<StateTransition<T>>::empty());
}

/// Inserting `x` after every transition of priority at least its own, and before every
/// transition of lower priority, extends a priority order of `orig` to one of `orig.push(x)`.
proof fn lemma_insert_keeps_priority_order<T>(
    sorted: Seq<StateTransition<T>>,
    orig: Seq<StateTransition<T>>,
    k: int,
    x: StateTransition<T>,
)
    requires
        is_priority_order_of(sorted, orig),
        0 <= k <= sorted.len(),
        forall|i: int| 0 <= i < k ==> (#[trigger] sorted[i]).priority >= x.priority,
        forall|i: int| k <= i < sorted.len() ==> (#[trigger] sorted[i]).priority < x.priority,
    ensures
        is_priority_order_of(sorted.insert(k, x), orig.push(x)),
{
    let ins = sorted.insert(k, x);
    let pre = sorted.take(k);
    let post = sorted.skip(k);
    assert(sorted =~= pre + post);
    assert(ins =~= pre + seq![x] + post);
    assert forall|p: i32| #[trigger] with_priority(ins, p) == with_priority(orig.push(x), p) by {
        let f = has_priority::<T>(p);
        Seq::filter_distributes_over_add(pre + seq![x], post, f);
        Seq::filter_distributes_over_add(pre, seq![x], f);
        Seq::filter_distributes_over_add(pre, post, f);
        orig.lemma_filter_push(x, f);
        lemma_filter_singleton(x, f);
        assert(with_priority(sorted, p) == with_priority(orig, p));
        if p == x.priority {
            lemma_filter_none(post, f);
            assert(pre.filter(f) + Seq::<StateTransition<T>>::empty() =~= pre.filter(f));
            assert(with_priority(ins, p) =~= with_priority(orig, p).push(x));
        } else {
            assert(pre.filter(f) + Seq::<StateTransition<T>>::empty() =~= pre.filter(f));
            assert(with_priority(ins, p) =~= pre.filter(f) + post.filter(f));
        }
    }
}

/// The transitions of a sequence of priority `p`, when its first one has priority `p`,
/// start with that first one.
proof fn lemma_with_priority_first<T>(s: Seq<StateTransition<T>>, q: i32)
    requires
        s.len() > 0,
    ensures
        with_priority(s, q) == (if s[0].priority == q {
            seq![s[0]] + with_priority(s.drop_first(), q)
        } else {
            with_priority(s.drop_first(), q)
        }),
{
    let f = has_priority::<T>(q);
    assert(s =~= seq![s[0]] + s.drop_first());
    s.drop_first().lemma_filter_prepend(s[0], f);
    if s[0].priority != q {
        assert(Seq::<StateTransition<T>>::empty() + with_priority(s.drop_first(), q)
            =~= with_priority(s.drop_first(), q));
    }
}

/// A sequence holding a transition of priority `p` has a non-empty `with_priority(_, p)`.
proof fn lemma_with_priority_nonempty<T>(s: Seq<StateTransition<T>>, i: int)
    requires
        0 <= i < s.len(),
    ensures
        with_priority(s, s[i].priority).len() > 0,
{
    let f = has_priority::<T>(s[i].priority);
    assert(f(s[i]));
    assert(s.filter(f).contains(s[i]));
}

/// Two priority orders of the same transitions are equal.
pub proof fn lemma_priority_order_unique<T>(
    a: Seq<StateTransition<T>>,
    b: Seq<StateTransition<T>>,
    s: Seq<StateTransition<T>>,
)
    requires
        is_priority_order_of(a, s),
        is_priority_order_of(b, s),
    ensures
        a == b,
    decreases a.len(),
{
    if a.len() == 0 {
        if b.len() > 0 {
            lemma_with_priority_nonempty(b, 0);
            assert(with_priority(a, b[0].priority) == with_priority(s, b[0].priority));
            lemma_filter_none(a, has_priority::<T>(b[0].priority));
        }
        assert(a =~= b);
    } else {
        if b.len() == 0 {
            lemma_with_priority_nonempty(a, 0);
            assert(with_priority(b, a[0].priority) == with_priority(s, a[0].priority));
            lemma_filter_none(b, has_priority::<T>(a[0].priority));
        }
        let pa = a[0].priority;
        let pb = b[0].priority;
        // b holds a transition of priority pa, so pb >= pa; and symmetrically.
        lemma_with_priority_nonempty(a, 0);
        lemma_with_priority_nonempty(b, 0);
        assert(with_priority(a, pa) == with_priority(s, pa));
        assert(with_priority(b, pa) == with_priority(s, pa));
        assert(with_priority(a, pb) == with_priority(s, pb));
        assert(with_priority(b, pb) == with_priority(s, pb));
        let wb = with_priority(b, pa);
        assert(wb.len() > 0);
        assert(has_priority::<T>(pa)(wb[0]));
        assert(wb.contains(wb[0]));
        b.lemma_filter_contains_rev(has_priority::<T>(pa), wb[0]);
        assert(b.contains(wb[0]));
        let wa = with_priority(a, pb);
        assert(has_priority::<T>(pb)(wa[0]));
        assert(wa.contains(wa[0]));
        a.lemma_filter_contains_rev(has_priority::<T>(pb), wa[0]);
        assert(a.contains(wa[0]));
        assert(pa == pb);
        let p = pa;
        lemma_with_priority_first(a, p);
        lemma_with_priority_first(b, p);
        assert(a[0] == with_priority(a, p)[0]);
        assert(b[0] == with_priority(b, p)[0]);
        assert(a[0] == b[0]);
        let a2 = a.drop_first();
        let b2 = b.drop_first();
        assert forall|q: i32| #[trigger] with_priority(b2, q) == with_priority(a2, q) by {
            lemma_with_priority_first(a, q);
            lemma_with_priority_first(b, q);
            assert(with_priority(a, q) == with_priority(s, q));
            assert(with_priority(b, q) == with_priority(s, q));
            if q == p {
                assert(with_priority(a2, q) =~= with_priority(a, q).drop_first());
                assert(with_priority(b2, q) =~= with_priority(b, q).drop_first());
            }
        }
        assert(is_priority_order_of(a2, a2));
        assert(is_priority_order_of(b2, a2));
        lemma_priority_order_unique(a2, b2, a2);
        assert(a =~= seq![a[0]] + a2);
        assert(b =~= seq![b[0]] + b2);
    }
}

/// Any priority order of `s` is the priority order of `s`.
pub proof fn lemma_priority_order_is<T>(sorted: Seq<StateTransition<T>>, s: Seq<StateTransition<T>>)
    requires
        is_priority_order_of(sorted, s),
    ensures
        priority_order(s) == sorted,
{
    let r = priority_order(s);
    assert(is_priority_order_of(r, s));
    lemma_priority_order_unique(r, sorted, s);
}

/// The index at which a transition of priority `priority` is inserted into `sorted`: after
/// every transition of priority at least `priority`.
fn insertion_index<T>(sorted: &Vec<StateTransition<T>>, priority: i32) -> (k: usize)
    requires
        priority_descending(sorted@),
    ensures
        k <= sorted@.len(),
        forall|i: int| 0 <= i < k ==> (#[trigger] sorted@[i]).priority >= priority,
        forall|i: int| k <= i < sorted@.len() ==> (#[trigger] sorted@[i]).priority < priority,
{
    let mut k: usize = 0;
    while k < sorted.len() && sorted[k].priority >= priority
        invariant
            k <= sorted@.len(),
            priority_descending(sorted@),
            forall|i: int| 0 <= i < k ==> (#[trigger] sorted@[i]).priority >= priority,
        decreases sorted@.len() - k,
    {
        k = k + 1;
    }
    proof {
        if k < sorted@.len() {
            assert forall|i: int| k <= i < sorted@.len() implies (#[trigger] sorted@[i]).priority
                < priority by {
                assert(sorted@[k as int].priority >= sorted@[i].priority);
            }
        }
    }
    k
}

/// Orders transitions from the highest priority down, keeping the queued order among
/// transitions of equal priority.
pub fn sort_by_priority<T>(transitions: Vec<StateTransition<T>>) -> (sorted: Vec<StateTransition<T>>)
    ensures
        is_priority_order_of(sorted@, transitions@),
        sorted@ == priority_order(transitions@),
{
    let ghost orig = transitions@;
    let mut rest = transitions;
    let mut sorted: Vec<StateTransition<T>> = Vec::new();
    let ghost mut n: int = 0;
    proof {
        assert(orig.take(0) =~= Seq::<StateTransition<T>>::empty());
        assert forall|p: i32| #[trigger] with_priority(sorted@, p) == with_priority(orig.take(0), p) by {
            lemma_filter_none(sorted@, has_priority::<T>(p));
            lemma_filter_none(orig.take(0), has_priority::<T>(p));
        }
        assert(rest@ =~= orig.skip(0));
    }
    while rest.len() > 0
        invariant
            0 <= n <= orig.len(),
            rest@ == orig.skip(n),
            is_priority_order_of(sorted@, orig.take(n)),
        decreases rest@.len(),
    {
        let x = rest.remove(0);
        let k = insertion_index(&sorted, x.priority);
        proof {
            lemma_insert_keeps_priority_order(sorted@, orig.take(n), k as int, x);
            assert(x == orig[n]);
            assert(orig.take(n).push(x) =~= orig.take(n + 1));
        }
        sorted.insert(k, x);
        proof {
            n = n + 1;
            assert(rest@ =~= orig.skip(n));
        }
    }
    proof {
        assert(orig.take(n) =~= orig);
        lemma_priority_order_is(sorted@, orig);
    }
    sorted
}


/// Every transition of `s` is additive.
pub open spec fn all_additive<T>(s: Seq<StateTransition<T>>) -> bool {
    forall|i: int| 0 <= i < s.len() ==> (#[trigger] s[i]).is_additive
}

proof fn lemma_through_first_replacing_additive_prefix<T>(
    a: Seq<StateTransition<T>>,
    s: Seq<StateTransition<T>>,
)
    requires
        all_additive(a),
    ensures
        through_first_replacing(a + s) == a + through_first_replacing(s),
    decreases a.len(),
{
    if a.len() == 0 {
        assert(a + s =~= s);
        assert(a + through_first_replacing(s) =~= through_first_replacing(s));
    } else {
        let a2 = a.drop_first();
        assert((a + s)[0] == a[0]);
        assert((a + s).drop_first() =~= a2 + s);
        lemma_through_first_replacing_additive_prefix(a2, s);
        assert(a =~= seq![a[0]] + a2);
        assert(seq![a[0]] + (a2 + through_first_replacing(s)) =~= a + through_first_replacing(s));
    }
}

proof fn lemma_through_first_replacing_all_additive<T>(a: Seq<StateTransition<T>>)
    requires
        all_additive(a),
    ensures
        through_first_replacing(a) == a,
        !has_replacing(a),
{
    lemma_through_first_replacing_additive_prefix(a, Seq::<StateTransition<T>>::empty());
    assert(a + Seq::<StateTransition<T>>::empty() =~= a);
}

proof fn lemma_above_split<T>(sorted: Seq<StateTransition<T>>, n: int, current: i32)
    requires
        0 <= n < sorted.len(),
    ensures
        above(sorted.take(n + 1), current) == (if sorted[n].priority > current {
            above(sorted.take(n), current).push(sorted[n])
        } else {
            above(sorted.take(n), current)
        }),
        above(sorted, current) == above(sorted.take(n + 1), current) + above(sorted.skip(n + 1), current),
{
    let f = is_above::<T>(current);
    assert(sorted.take(n + 1) =~= sorted.take(n).push(sorted[n]));
    sorted.take(n).lemma_filter_push(sorted[n], f);
    assert(sorted =~= sorted.take(n + 1) + sorted.skip(n + 1));
    Seq::filter_distributes_over_add(sorted.take(n + 1), sorted.skip(n + 1), f);
}

proof fn lemma_stop_at_replacing<T>(sorted: Seq<StateTransition<T>>, n: int, c: i32)
    requires
        0 <= n < sorted.len(),
        sorted[n].priority > c,
        !sorted[n].is_additive,
        all_additive(above(sorted.take(n), c)),
    ensures
        through_first_replacing(above(sorted, c)) == above(sorted.take(n), c).push(sorted[n]),
        has_replacing(above(sorted, c)),
{
    lemma_above_split(sorted, n, c);
    let a = above(sorted.take(n), c);
    let b = above(sorted.skip(n + 1), c);
    let x = sorted[n];
    assert(above(sorted, c) =~= a + (seq![x] + b));
    lemma_through_first_replacing_additive_prefix(a, seq![x] + b);
    assert((seq![x] + b)[0] == x);
    assert(through_first_replacing(seq![x] + b) == seq![x]);
    assert(a + seq![x] =~= a.push(x));
    let k = a.len() as int;
    assert(above(sorted, c)[k] == x);
}

/// The queue of transition intents that a fighter has collected this frame.
pub struct StateTransitionIntents<T> {
    intents: VecDeque<StateTransition<T>>,
}

impl<T> View for StateTransitionIntents<T> {
    type V = Seq<StateTransition<T>>;

    closed spec fn view(&self) -> Seq<StateTransition<T>> {
        self.intents@
    }
}

/// Takes every element out of `queue`, front first.
fn take_all<T>(queue: &mut VecDeque<StateTransition<T>>) -> (all: Vec<StateTransition<T>>)
    ensures
        all@ == old(queue)@,
        final(queue)@ == Seq::<StateTransition<T>>::empty(),
{
    let ghost start = queue@;
    let mut all: Vec<StateTransition<T>> = Vec::new();
    while queue.len() > 0
        invariant
            all@ + queue@ == start,
        decreases queue@.len(),
    {
        match queue.pop_front() {
            Some(t) => {
                all.push(t);
            },
            None => {},
        }
    }
    assert(all@ + queue@ =~= all@);
    all
}

impl<T> StateTransitionIntents<T> {
    /// An empty queue.
    pub fn new() -> (q: Self)
        ensures
            q@ == Seq::<StateTransition<T>>::empty(),
    {
        StateTransitionIntents { intents: VecDeque::new() }
    }

    /// Queues a transition intent behind the ones already queued.
    pub fn push_back(&mut self, transition: StateTransition<T>)
        ensures
            final(self)@ == old(self)@.push(transition),
    {
        self.intents.push_back(transition);
    }

    /// Takes all queued intents out, in queued order.
    pub fn drain(&mut self) -> (all: Vec<StateTransition<T>>)
        ensures
            all@ == old(self)@,
            final(self)@ == Seq::<StateTransition<T>>::empty(),
    {
        take_all(&mut self.intents)
    }

    /// The number of queued intents.
    pub fn len(&self) -> (n: usize)
        ensures
            n == self@.len(),
    {
        self.intents.len()
    }

    /// Drains the queue and returns, in the order they are to be applied, the transitions
    /// to perform on a fighter whose current state has priority `current_state_priority`,
    /// together with whether one of them replaces the current state.
    ///
    /// The intents are taken from the highest priority down, equal priorities in queued
    /// order; those of priority above the current one are applied, and applying stops after
    /// the first that is not additive.
    pub fn transition_to_higher_priority_states(&mut self, current_state_priority: i32) -> (res: (
        Vec<StateTransition<T>>,
        bool,
    ))
        ensures
            final(self)@ == Seq::<StateTransition<T>>::empty(),
            res.0@ == applied_transitions(old(self)@, current_state_priority),
            res.1 == replaces_current(old(self)@, current_state_priority),
    {
        let ghost orig = self@;
        let queued = take_all(&mut self.intents);
        let mut rest = sort_by_priority(queued);
        let ghost sorted = rest@;
        let ghost mut n: int = 0;
        let mut applied: Vec<StateTransition<T>> = Vec::new();
        let c = current_state_priority;
        let mut replaced = false;
        proof {
            assert(sorted.take(0) =~= Seq::<StateTransition<T>>::empty());
            lemma_filter_none(sorted.take(0), is_above::<T>(c));
            assert(rest@ =~= sorted.skip(0));
        }
        while !replaced && rest.len() > 0
            invariant
                self@ == Seq::<StateTransition<T>>::empty(),
                orig == old(self)@,
                sorted == priority_order(orig),
                0 <= n <= sorted.len(),
                rest@ == sorted.skip(n),
                replaced ==> applied@ == through_first_replacing(above(sorted, c)),
                replaced ==> has_replacing(above(sorted, c)),
                !replaced ==> applied@ == above(sorted.take(n), c),
                !replaced ==> all_additive(applied@),
            decreases rest@.len(),
        {
            let t = rest.remove(0);
            proof {
                assert(t == sorted[n]);
                lemma_above_split(sorted, n, c);
            }
            if t.priority > c {
                let additive = t.is_additive;
                applied.push(t);
                if !additive {
                    proof {
                        lemma_stop_at_replacing(sorted, n, c);
                    }
                    replaced = true;
                }
            }
            proof {
                n = n + 1;
                assert(rest@ =~= sorted.skip(n));
            }
        }
        proof {
            if !replaced {
                assert(sorted.take(n) =~= sorted);
                lemma_through_first_replacing_all_additive(applied@);
            }
        }
        (applied, replaced)
    }
}


/// The states a fighter can be in.
#[derive(Debug, PartialEq, Eq, Structural, Clone, Copy)]
pub enum FighterState {
    Idling,
    Moving,
    Throwing,
    Grabbing,
    Flopping,
    GroundSlam,
    Punching,
    ProjectileAttacking,
    BossBombThrow,
    KnockedBack,
    Dying,
}

/// The priority of each fighter state.
pub open spec fn state_priority(s: FighterState) -> i32 {
    match s {
        FighterState::Idling => 0,
        FighterState::Moving => 10,
        FighterState::Throwing => 15,
        FighterState::Grabbing => 15,
        FighterState::Flopping => 30,
        FighterState::GroundSlam => 30,
        FighterState::Punching => 30,
        FighterState::ProjectileAttacking => 30,
        FighterState::BossBombThrow => 30,
        FighterState::KnockedBack => 40,
        FighterState::Dying => 1000,
    }
}

/// Whether a transition to the state leaves the current state in place.
pub open spec fn state_is_additive(s: FighterState) -> bool {
    s == FighterState::Throwing || s == FighterState::Grabbing
}

impl FighterState {
    /// The state's priority.
    pub fn priority(&self) -> (p: i32)
        ensures
            p == state_priority(*self),
    {
        match self {
            FighterState::Idling => 0,
            FighterState::Moving => 10,
            FighterState::Throwing => 15,
            FighterState::Grabbing => 15,
            FighterState::Flopping => 30,
            FighterState::GroundSlam => 30,
            FighterState::Punching => 30,
            FighterState::ProjectileAttacking => 30,
            FighterState::BossBombThrow => 30,
            FighterState::KnockedBack => 40,
            FighterState::Dying => 1000,
        }
    }

    /// The transition intent to this state, with its priority and additivity.
    pub fn intent(self) -> (t: StateTransition<FighterState>)
        ensures
            t == state_intent(self),
    {
        let priority = self.priority();
        let additive = match self {
            FighterState::Throwing | FighterState::Grabbing => true,
            _ => false,
        };
        StateTransition::new(self, priority, additive)
    }
}

/// The transition intent to state `s`.
pub open spec fn state_intent(s: FighterState) -> StateTransition<FighterState> {
    StateTransition { data: s, priority: state_priority(s), is_additive: state_is_additive(s) }
}

/// How a fighter leaves its current state this frame.
#[derive(Debug, PartialEq, Eq, Structural, Clone, Copy)]
pub enum StateExit {
    /// The fighter stays in its current state.
    Stays,
    /// A transition replaced the current state.
    Replaced,
    /// The state has run its course and the fighter goes back to idling.
    ToIdle,
}

/// How a state of priority `current` that is (or is not) finished is left, given the
/// fighter's intents.
pub open spec fn state_exit<T>(intents: Seq<StateTransition<T>>, current: i32, finished: bool) -> StateExit {
    if replaces_current(intents, current) {
        StateExit::Replaced
    } else if finished {
        StateExit::ToIdle
    } else {
        StateExit::Stays
    }
}

/// Processes a fighter's intents for its current state of priority `current_priority`:
/// applies the higher-priority transitions and, unless one replaced the current state,
/// sends the fighter back to idling once the state is finished.
pub fn transition_from_state<T>(
    intents: &mut StateTransitionIntents<T>,
    current_priority: i32,
    finished: bool,
) -> (res: (Vec<StateTransition<T>>, StateExit))
    ensures
        final(intents)@ == Seq::<StateTransition<T>>::empty(),
        res.0@ == applied_transitions(old(intents)@, current_priority),
        res.1 == state_exit(old(intents)@, current_priority, finished),
{
    let (applied, replaced) = intents.transition_to_higher_priority_states(current_priority);
    let exit = if replaced {
        StateExit::Replaced
    } else if finished {
        StateExit::ToIdle
    } else {
        StateExit::Stays
    };
    (applied, exit)
}

/// The intents a player's input raises, in the order they are queued: a flop attack
/// (unless the player carries a box), a throw or a grab, and a move.
pub open spec fn player_intents(
    attack_pressed: bool,
    throw_pressed: bool,
    move_pressed: bool,
    holding_item: bool,
    holding_box: bool,
) -> Seq<StateTransition<FighterState>> {
    let attack = if attack_pressed && !holding_box {
        seq![state_intent(FighterState::Flopping)]
    } else {
        Seq::empty()
    };
    let throw = if throw_pressed {
        if holding_item {
            seq![state_intent(FighterState::Throwing)]
        } else {
            seq![state_intent(FighterState::Grabbing)]
        }
    } else {
        Seq::empty()
    };
    let moving = if move_pressed {
        seq![state_intent(FighterState::Moving)]
    } else {
        Seq::empty()
    };
    attack + throw + moving
}

/// Queues the intents raised by a player's input; the moving intent's velocity comes from
/// the input axis and is filled in by the caller.
pub fn collect_player_actions(
    intents: &mut StateTransitionIntents<FighterState>,
    attack_just_pressed: bool,
    throw_just_pressed: bool,
    move_pressed: bool,
    holding_item: bool,
    holding_box: bool,
)
    ensures
        final(intents)@ == old(intents)@ + player_intents(
            attack_just_pressed,
            throw_just_pressed,
            move_pressed,
            holding_item,
            holding_box,
        ),
{
    let ghost start = intents@;
    if attack_just_pressed && !holding_box {
        intents.push_back(FighterState::Flopping.intent());
    }
    if throw_just_pressed {
        if holding_item {
            intents.push_back(FighterState::Throwing.intent());
        } else {
            intents.push_back(FighterState::Grabbing.intent());
        }
    }
    if move_pressed {
        intents.push_back(FighterState::Moving.intent());
    }
    assert(intents@ =~= start + player_intents(
        attack_just_pressed,
        throw_just_pressed,
        move_pressed,
        holding_item,
        holding_box,
    ));
}

/// What a player's input raises: pressing move always queues exactly one moving intent,
/// last; the flop attack is queued, first, exactly when attack is pressed and no box is
/// carried; a throw is queued exactly when throw is pressed with an item in hand, and a
/// grab exactly when it is pressed with free hands; nothing else is queued.
pub proof fn lemma_player_intents_laws(
    attack_pressed: bool,
    throw_pressed: bool,
    move_pressed: bool,
    holding_item: bool,
    holding_box: bool,
)
    ensures
        ({
            let s = player_intents(attack_pressed, throw_pressed, move_pressed, holding_item, holding_box);
            &&& s.contains(state_intent(FighterState::Moving)) <==> move_pressed
            &&& move_pressed ==> s.last() == state_intent(FighterState::Moving)
            &&& s.contains(state_intent(FighterState::Flopping)) <==> (attack_pressed && !holding_box)
            &&& attack_pressed && !holding_box ==> s[0] == state_intent(FighterState::Flopping)
            &&& s.contains(state_intent(FighterState::Throwing)) <==> (throw_pressed && holding_item)
            &&& s.contains(state_intent(FighterState::Grabbing)) <==> (throw_pressed && !holding_item)
            &&& s.len() == (if attack_pressed && !holding_box { 1int } else { 0 }) + (if throw_pressed { 1int } else { 0 })
                + (if move_pressed { 1int } else { 0 })
            &&& forall|k: int| 0 <= k < s.len() ==> (#[trigger] s[k]).priority == state_priority(s[k].data)
                && s[k].is_additive == state_is_additive(s[k].data)
        }),
{
    let s = player_intents(attack_pressed, throw_pressed, move_pressed, holding_item, holding_box);
    let attack = if attack_pressed && !holding_box {
        seq![state_intent(FighterState::Flopping)]
    } else {
        Seq::empty()
    };
    let throw = if throw_pressed {
        if holding_item {
            seq![state_intent(FighterState::Throwing)]
        } else {
            seq![state_intent(FighterState::Grabbing)]
        }
    } else {
        Seq::empty()
    };
    let moving = if move_pressed {
        seq![state_intent(FighterState::Moving)]
    } else {
        Seq::empty()
    };
    assert(s == attack + throw + moving);
    let all = attack + throw + moving;
    assert forall|x: StateTransition<FighterState>| all.contains(x) <==> (attack.contains(x) || throw.contains(x)
        || moving.contains(x)) by {
        if all.contains(x) {
            let k = choose|k: int| 0 <= k < all.len() && all[k] == x;
            if k < attack.len() {
                assert(attack[k] == x);
            } else if k < attack.len() + throw.len() {
                assert(throw[k - attack.len()] == x);
            } else {
                assert(moving[k - attack.len() - throw.len()] == x);
            }
        }
        if attack.contains(x) {
            let k = choose|k: int| 0 <= k < attack.len() && attack[k] == x;
            assert(all[k] == x);
        }
        if throw.contains(x) {
            let k = choose|k: int| 0 <= k < throw.len() && throw[k] == x;
            assert(all[attack.len() + k] == x);
        }
        if moving.contains(x) {
            let k = choose|k: int| 0 <= k < moving.len() && moving[k] == x;
            assert(all[attack.len() + throw.len() + k] == x);
        }
    }
    let m = state_intent(FighterState::Moving);
    let f = state_intent(FighterState::Flopping);
    let t = state_intent(FighterState::Throwing);
    let g = state_intent(FighterState::Grabbing);
    if move_pressed {
        assert(moving[0] == m);
    }
    if attack_pressed && !holding_box {
        assert(attack[0] == f);
    }
    if throw_pressed {
        assert(throw[0] == t || throw[0] == g);
    }
}

/// Queues the dying transition for a fighter whose health is depleted.
pub fn collect_fighter_elimination(intents: &mut StateTransitionIntents<FighterState>, health: i32)
    ensures
        final(intents)@ == if health <= 0 {
            old(intents)@.push(state_intent(FighterState::Dying))
        } else {
            old(intents)@
        },
{
    if health <= 0 {
        intents.push_back(FighterState::Dying.intent());
    }
}

/// Queues the knock-back transition for a fighter that took damage.
pub fn collect_attack_knockback(intents: &mut StateTransitionIntents<FighterState>)
    ensures
        final(intents)@ == old(intents)@.push(state_intent(FighterState::KnockedBack)),
{
    intents.push_back(FighterState::KnockedBack.intent());
}


/// The number of leading transitions of `r` with priority at least `p`.
pub open spec fn count_at_least<T>(r: Seq<StateTransition<T>>, p: i32) -> int
    decreases r.len(),
{
    if r.len() == 0 || r[0].priority < p {
        0
    } else {
        1 + count_at_least(r.drop_first(), p)
    }
}

proof fn lemma_count_at_least<T>(r: Seq<StateTransition<T>>, p: i32)
    requires
        priority_descending(r),
    ensures
        0 <= count_at_least(r, p) <= r.len(),
        forall|i: int| 0 <= i < count_at_least(r, p) ==> (#[trigger] r[i]).priority >= p,
        forall|i: int| count_at_least(r, p) <= i < r.len() ==> (#[trigger] r[i]).priority < p,
    decreases r.len(),
{
    if r.len() > 0 && r[0].priority >= p {
        let r2 = r.drop_first();
        lemma_count_at_least(r2, p);
        assert forall|i: int| 0 <= i < count_at_least(r, p) implies (#[trigger] r[i]).priority >= p by {
            if i > 0 {
                assert(r[i] == r2[i - 1]);
            }
        }
        assert forall|i: int| count_at_least(r, p) <= i < r.len() implies (#[trigger] r[i]).priority < p by {
            assert(r[i] == r2[i - 1]);
        }
    } else if r.len() > 0 {
        assert forall|i: int| 0 <= i < r.len() implies (#[trigger] r[i]).priority < p by {
            if i > 0 {
                assert(r[0].priority >= r[i].priority);
            }
        }
    }
}

/// Every sequence of transitions has a priority order.
pub proof fn lemma_priority_order_exists<T>(s: Seq<StateTransition<T>>)
    ensures
        is_priority_order_of(priority_order(s), s),
    decreases s.len(),
{
    if s.len() == 0 {
        assert forall|p: i32| #[trigger] with_priority(s, p) == with_priority(s, p) by {}
        assert(is_priority_order_of(s, s));
    } else {
        let init = s.drop_last();
        let x = s.last();
        lemma_priority_order_exists(init);
        let r = priority_order(init);
        lemma_count_at_least(r, x.priority);
        let k = count_at_least(r, x.priority);
        lemma_insert_keeps_priority_order(r, init, k, x);
        assert(init.push(x) =~= s);
        assert(is_priority_order_of(r.insert(k, x), s));
    }
}

/// The transitions in `through_first_replacing(s)` are the leading ones of `s`.
proof fn lemma_through_first_replacing_prefix<T>(s: Seq<StateTransition<T>>)
    ensures
        through_first_replacing(s).len() <= s.len(),
        through_first_replacing(s) == s.take(through_first_replacing(s).len() as int),
        forall|i: int| 0 <= i < through_first_replacing(s).len() - 1 ==> (#[trigger] through_first_replacing(s)[i]).is_additive,
        has_replacing(s) <==> (through_first_replacing(s).len() > 0 && !through_first_replacing(s).last().is_additive),
    decreases s.len(),
{
    if s.len() == 0 {
        assert(s.take(0) =~= s);
    } else if !s[0].is_additive {
        assert(seq![s[0]] =~= s.take(1));
    } else {
        let s2 = s.drop_first();
        lemma_through_first_replacing_prefix(s2);
        let t2 = through_first_replacing(s2);
        let t = through_first_replacing(s);
        assert(t == seq![s[0]] + t2);
        assert(t =~= s.take(t.len() as int));
        assert forall|i: int| 0 <= i < t.len() - 1 implies (#[trigger] t[i]).is_additive by {
            if i > 0 {
                assert(t[i] == t2[i - 1]);
            }
        }
        if has_replacing(s) {
            let j = choose|j: int| 0 <= j < s.len() && !(#[trigger] s[j]).is_additive;
            assert(s2[j - 1] == s[j]);
            assert(has_replacing(s2));
        }
        if has_replacing(s2) {
            let j = choose|j: int| 0 <= j < s2.len() && !(#[trigger] s2[j]).is_additive;
            assert(s[j + 1] == s2[j]);
        }
        if t2.len() > 0 {
            assert(t.last() == t2.last());
        }
    }
}

proof fn lemma_filter_descending<T>(s: Seq<StateTransition<T>>, f: spec_fn(StateTransition<T>) -> bool)
    requires
        priority_descending(s),
    ensures
        priority_descending(s.filter(f)),
        forall|i: int| 0 <= i < s.filter(f).len() ==> s.contains(#[trigger] s.filter(f)[i]),
    decreases s.len(),
{
    if s.len() > 0 {
        let init = s.drop_last();
        let x = s.last();
        assert(init.push(x) =~= s);
        lemma_filter_descending(init, f);
        init.lemma_filter_push(x, f);
        let fi = init.filter(f);
        assert forall|i: int| 0 <= i < s.filter(f).len() implies s.contains(#[trigger] s.filter(f)[i]) by {
            if i < fi.len() {
                assert(s.filter(f)[i] == fi[i]);
                assert(init.contains(fi[i]));
                let j = choose|j: int| 0 <= j < init.len() && init[j] == fi[i];
                assert(s[j] == init[j]);
            } else {
                assert(s[s.len() - 1] == x);
            }
        }
        if f(x) {
            assert forall|i: int, j: int| 0 <= i < j < s.filter(f).len() implies s.filter(f)[i].priority
                >= s.filter(f)[j].priority by {
                if j == fi.len() {
                    assert(init.contains(fi[i]));
                    let m = choose|m: int| 0 <= m < init.len() && init[m] == fi[i];
                    assert(s[m] == init[m]);
                    assert(s[m].priority >= s[s.len() - 1].priority);
                } else {
                    assert(s.filter(f)[i] == fi[i]);
                    assert(s.filter(f)[j] == fi[j]);
                }
            }
        }
    } else {
        reveal(Seq::filter);
    }
}

/// Every transition in a priority order of `s` is one of `s`.
proof fn lemma_priority_order_members<T>(r: Seq<StateTransition<T>>, s: Seq<StateTransition<T>>)
    requires
        is_priority_order_of(r, s),
    ensures
        forall|i: int| 0 <= i < r.len() ==> s.contains(#[trigger] r[i]),
{
    assert forall|i: int| 0 <= i < r.len() implies s.contains(#[trigger] r[i]) by {
        let p = r[i].priority;
        let f = has_priority::<T>(p);
        assert(f(r[i]));
        assert(r.filter(f).contains(r[i]));
        assert(with_priority(r, p) == with_priority(s, p));
        s.lemma_filter_contains_rev(f, r[i]);
    }
}

/// Applying intents to a fighter only applies transitions of higher priority than the
/// current state, from the highest priority down, every one of them queued; all but the
/// last are additive, and the current state is replaced exactly when the last one is not
/// additive. Intents of equal priority keep the order in which they were queued.
pub proof fn lemma_applied_transitions_laws<T>(intents: Seq<StateTransition<T>>, current: i32)
    ensures
        ({
            let applied = applied_transitions(intents, current);
            &&& forall|i: int| 0 <= i < applied.len() ==> (#[trigger] applied[i]).priority > current
            &&& forall|i: int| 0 <= i < applied.len() ==> intents.contains(#[trigger] applied[i])
            &&& priority_descending(applied)
            &&& forall|i: int| 0 <= i < applied.len() - 1 ==> (#[trigger] applied[i]).is_additive
            &&& replaces_current(intents, current) <==> (applied.len() > 0 && !applied.last().is_additive)
            &&& forall|p: i32| #[trigger] with_priority(priority_order(intents), p) == with_priority(intents, p)
        }),
{
    lemma_priority_order_exists(intents);
    let r = priority_order(intents);
    let h = above(r, current);
    let applied = applied_transitions(intents, current);
    lemma_filter_descending(r, is_above::<T>(current));
    lemma_priority_order_members(r, intents);
    lemma_through_first_replacing_prefix(h);
    assert forall|i: int| 0 <= i < applied.len() implies (#[trigger] applied[i]).priority > current
        && intents.contains(applied[i]) by {
        assert(applied[i] == h[i]);
        assert(is_above::<T>(current)(h[i]));
        assert(r.contains(h[i]));
        let j = choose|j: int| 0 <= j < r.len() && r[j] == h[i];
        assert(intents.contains(r[j]));
    }
    assert forall|i: int, j: int| 0 <= i < j < applied.len() implies applied[i].priority
        >= applied[j].priority by {
        assert(applied[i] == h[i]);
        assert(applied[j] == h[j]);
    }
}

/// When no intent has a priority above the current state's, nothing is applied and the
/// current state stays.
pub proof fn lemma_nothing_above_nothing_applied<T>(intents: Seq<StateTransition<T>>, current: i32)
    requires
        forall|i: int| 0 <= i < intents.len() ==> (#[trigger] intents[i]).priority <= current,
    ensures
        applied_transitions(intents, current) == Seq::<StateTransition<T>>::empty(),
        !replaces_current(intents, current),
{
    lemma_priority_order_exists(intents);
    let r = priority_order(intents);
    lemma_priority_order_members(r, intents);
    assert forall|i: int| 0 <= i < r.len() implies !is_above::<T>(current)(#[trigger] r[i]) by {
        assert(intents.contains(r[i]));
    }
    lemma_filter_none(r, is_above::<T>(current));
    assert(above(r, current) =~= Seq::<StateTransition<T>>::empty());
}

/// An intent of priority `i32::MAX` goes through whatever the current state (short of
/// `i32::MAX` itself): the first such intent queued is the first applied.
pub proof fn lemma_max_priority_goes_first<T>(intents: Seq<StateTransition<T>>, current: i32, k: int)
    requires
        current < i32::MAX,
        0 <= k < intents.len(),
        intents[k].priority == i32::MAX,
    ensures
        applied_transitions(intents, current).len() > 0,
        applied_transitions(intents, current)[0] == with_priority(intents, i32::MAX)[0],
{
    lemma_priority_order_exists(intents);
    let r = priority_order(intents);
    lemma_with_priority_nonempty(intents, k);
    assert(with_priority(r, i32::MAX) == with_priority(intents, i32::MAX));
    let w = with_priority(r, i32::MAX);
    assert(has_priority::<T>(i32::MAX)(w[0]));
    assert(w.contains(w[0]));
    r.lemma_filter_contains_rev(has_priority::<T>(i32::MAX), w[0]);
    let j = choose|j: int| 0 <= j < r.len() && r[j] == w[0];
    assert(r[0].priority >= r[j].priority);
    lemma_with_priority_first(r, i32::MAX);
    assert(w[0] == r[0]);
    let f = is_above::<T>(current);
    assert(r =~= seq![r[0]] + r.drop_first());
    r.drop_first().lemma_filter_prepend(r[0], f);
    let h = above(r, current);
    assert(h[0] == r[0]);
    if h[0].is_additive {
        assert(through_first_replacing(h) == seq![h[0]] + through_first_replacing(h.drop_first()));
    }
}

/// A dying fighter stays dying: no fighter state's transition has a priority above dying.
pub proof fn lemma_dying_is_final(intents: Seq<StateTransition<FighterState>>)
    requires
        forall|i: int| 0 <= i < intents.len() ==> #[trigger] intents[i] == state_intent(intents[i].data),
    ensures
        applied_transitions(intents, state_priority(FighterState::Dying)) == Seq::<StateTransition<FighterState>>::empty(),
        state_exit(intents, state_priority(FighterState::Dying), false) == StateExit::Stays,
{
    assert forall|i: int| 0 <= i < intents.len() implies (#[trigger] intents[i]).priority
        <= state_priority(FighterState::Dying) by {
        assert(intents[i] == state_intent(intents[i].data));
    }
    lemma_nothing_above_nothing_applied(intents, state_priority(FighterState::Dying));
}


/// The vertical part of an attack's jump at some frame.
#[derive(Debug, PartialEq, Eq, Structural, Clone, Copy)]
pub enum Vertical {
    /// Rising, spread evenly over `over_frames` frames.
    Rise { over_frames: usize },
    /// Falling back, spread evenly over `over_frames` frames.
    Fall { over_frames: usize },
    /// Neither.
    Level,
}

/// The jump of an attack animation at `frame`: rising until the hitbox comes out, falling
/// until it is gone. The frame counts to spread the motion over are never zero.
pub fn jump_phase(frame: usize, frames: AttackFrames) -> (v: Vertical)
    ensures
        v == if frame < frames.startup {
            Vertical::Rise { over_frames: frames.startup }
        } else if frame < frames.active {
            Vertical::Fall { over_frames: (frames.active - frames.startup) as usize }
        } else {
            Vertical::Level
        },
        v matches Vertical::Rise { over_frames } ==> over_frames > 0,
        v matches Vertical::Fall { over_frames } ==> over_frames > 0,
{
    if frame < frames.startup {
        Vertical::Rise { over_frames: frames.startup }
    } else if frame < frames.active {
        Vertical::Fall { over_frames: frames.active - frames.startup }
    } else {
        Vertical::Level
    }
}

/// Whether the flop attack still lunges forward at `frame`: until recovery.
pub fn flop_lunges(frame: usize, frames: AttackFrames) -> (res: bool)
    ensures
        res == (frame < frames.recovery),
{
    frame < frames.recovery
}

/// Whether the ground slam still moves forward at `frame`: until the hitbox comes out.
pub fn ground_slam_advances(frame: usize, frames: AttackFrames) -> (res: bool)
    ensures
        res == (frame < frames.startup),
{
    frame < frames.startup
}

/// The knock-back clip: a hit pushing the fighter the way it faces plays the "knocked
/// right" clip, a hit pushing it against the way it faces plays "knocked left" (clips are
/// drawn facing right and mirrored).
pub open spec fn spec_knock_back_left(facing: Facing, pushed_left: bool) -> bool {
    if facing == Facing::Left { !pushed_left } else { pushed_left }
}

/// The name of the knock-back clip for a fighter facing `facing` pushed left or right.
pub fn knocked_back_animation(facing: Facing, pushed_left: bool) -> (name: &'static str)
    ensures
        spec_knock_back_left(facing, pushed_left) ==> name@ == "knocked_left"@,
        !spec_knock_back_left(facing, pushed_left) ==> name@ == "knocked_right"@,
{
    let use_left = if facing.is_left() { !pushed_left } else { pushed_left };
    if use_left {
        "knocked_left"
    } else {
        "knocked_right"
    }
}

/// What happens to a dying fighter this frame.
#[derive(Debug, PartialEq, Eq, Structural, Clone, Copy)]
pub enum DyingAction {
    /// Stop and start the dying clip.
    StartDying,
    /// The clip is over: remove the fighter.
    Despawn,
    /// Keep dying.
    Wait,
}

/// What happens to a dying fighter, given its animation.
pub fn dying_action(animation: &Animation) -> (a: DyingAction)
    ensures
        a == if !(animation.current_animation matches Some(n) && n@ == "dying"@) {
            DyingAction::StartDying
        } else if animation.played_once {
            DyingAction::Despawn
        } else {
            DyingAction::Wait
        },
{
    if !animation.is_playing("dying") {
        DyingAction::StartDying
    } else if animation.is_finished() {
        DyingAction::Despawn
    } else {
        DyingAction::Wait
    }
}

/// Which way something moves along the x axis.
#[derive(Debug, PartialEq, Eq, Structural, Clone, Copy)]
pub enum Heading {
    Left,
    Still,
    Right,
}

/// The facing after moving with `heading`: moving turns the fighter, standing still keeps
/// its facing.
pub open spec fn spec_turned(facing: Facing, heading: Heading) -> Facing {
    match heading {
        Heading::Left => Facing::Left,
        Heading::Right => Facing::Right,
        Heading::Still => facing,
    }
}

/// Turns a fighter to face the way it moves.
pub fn turn_toward(facing: &mut Facing, heading: Heading)
    ensures
        *final(facing) == spec_turned(*old(facing), heading),
{
    match heading {
        Heading::Left => *facing = Facing::Left,
        Heading::Right => *facing = Facing::Right,
        Heading::Still => {},
    }
}

/// How a child sprite follows its parent.
#[derive(Debug, PartialEq, Eq, Structural, Clone, Copy)]
pub struct Attached {
    /// Faces the way the parent faces.
    pub sync_facing: bool,
    /// Plays the parent's clip, frame for frame.
    pub sync_animation: bool,
    /// Sits on the side the child faces.
    pub position_face: bool,
}

impl Attached {
    /// Brings an attached sprite's facing and animation in line with its parent's.
    pub fn sync(&self, facing: &mut Facing, animation: &mut Animation, parent_facing: Facing, parent: &Animation)
        ensures
            *final(facing) == if self.sync_facing { parent_facing } else { *old(facing) },
            final(animation).animations == old(animation).animations,
            self.sync_animation ==> final(animation).current_frame == parent.current_frame
                && final(animation).current_animation == parent.current_animation
                && final(animation).played_once == parent.played_once,
            !self.sync_animation ==> *final(animation) == *old(animation),
    {
        if self.sync_facing {
            *facing = parent_facing;
        }
        if self.sync_animation {
            animation.current_frame = parent.current_frame;
            animation.current_animation = match &parent.current_animation {
                Some(n) => Some(n.clone()),
                None => None,
            };
            animation.played_once = parent.played_once;
        }
    }
}

/// The attacks a fighter can make; the last one is the current one.
pub struct AvailableAttacks<A> {
    pub attacks: Vec<A>,
}

impl<A> AvailableAttacks<A> {
    /// The current attack: the last one made available.
    pub fn current_attack(&self) -> (a: &A)
        requires
            self.attacks@.len() > 0,
        ensures
            *a == self.attacks@.last(),
    {
        &self.attacks[self.attacks.len() - 1]
    }
}

} // verus!
