//! Sprite-sheet animation state: named clips of frame ranges, the playing clip, and how the
//! frame advances each time the frame timer finishes.
//!
//! The frame timer itself is driven by the game loop; this module decides what happens
//! when it fires.

use vstd::prelude::*;

use crate::text::str_equal;

verus! {

/// The direction a sprite faces.
#[derive(Debug, PartialEq, Eq, Structural, Clone, Copy)]
pub enum Facing {
    Left,
    Right,
}

impl Facing {
    /// Whether the sprite faces left.
    pub fn is_left(&self) -> (res: bool)
        ensures
            res == (*self == Facing::Left),
    {
        match self {
            Facing::Left => true,
            Facing::Right => false,
        }
    }
}

/// A clip: a range of sprite-sheet frames, played once or repeatedly.
pub struct Clip {
    pub frames: std::ops::Range<usize>,
    pub repeat: bool,
}

/// A clip under its name.
pub struct NamedClip {
    pub name: String,
    pub clip: Clip,
}

/// The clip named `name` in `clips`: the first one under that name.
pub open spec fn clip_named(clips: Seq<NamedClip>, name: Seq<char>) -> Option<Clip>
    decreases clips.len(),
{
    if clips.len() == 0 {
        None
    } else if clips[0].name@ == name {
        Some(clips[0].clip)
    } else {
        clip_named(clips.drop_first(), name)
    }
}

/// No two clips share a name, as in a sprite sheet's table of clips.
pub open spec fn names_distinct(clips: Seq<NamedClip>) -> bool {
    forall|i: int, j: int|
        0 <= i < j < clips.len() ==> #[trigger] clips[i].name@ != #[trigger] clips[j].name@
}

/// Among clips with distinct names, looking up a name gives the clip under that name, and
/// nothing where no clip has it: the lookup of a table keyed by name.
pub proof fn lemma_clip_named_is_table_lookup(clips: Seq<NamedClip>, name: Seq<char>)
    requires
        names_distinct(clips),
    ensures
        forall|i: int|
            0 <= i < clips.len() && #[trigger] clips[i].name@ == name ==> clip_named(clips, name)
                == Some(clips[i].clip),
        (forall|i: int| 0 <= i < clips.len() ==> #[trigger] clips[i].name@ != name) ==> clip_named(
            clips,
            name,
        ) is None,
    decreases clips.len(),
{
    if clips.len() > 0 {
        let rest = clips.drop_first();
        assert(names_distinct(rest)) by {
            assert forall|i: int, j: int| 0 <= i < j < rest.len() implies #[trigger] rest[i].name@
                != #[trigger] rest[j].name@ by {
                assert(rest[i] == clips[i + 1]);
                assert(rest[j] == clips[j + 1]);
            }
        }
        lemma_clip_named_is_table_lookup(rest, name);
        assert forall|i: int|
            0 <= i < clips.len() && #[trigger] clips[i].name@ == name implies clip_named(clips, name)
                == Some(clips[i].clip) by {
            if i > 0 {
                assert(clips[0].name@ != clips[i].name@);
                assert(rest[i - 1] == clips[i]);
            }
        }
        if forall|i: int| 0 <= i < clips.len() ==> #[trigger] clips[i].name@ != name {
            assert forall|i: int| 0 <= i < rest.len() implies #[trigger] rest[i].name@ != name by {
                assert(rest[i] == clips[i + 1]);
            }
        }
    }
}

/// The animation state of a sprite.
pub struct Animation {
    /// The clips this sprite can play, by name.
    pub animations: Vec<NamedClip>,
    /// The frame of the playing clip, counted from the clip's first frame.
    pub current_frame: usize,
    /// The name of the playing clip.
    pub current_animation: Option<String>,
    /// Whether the playing clip has reached its last frame at least once.
    pub played_once: bool,
}

impl Animation {
    /// The playing clip, if the playing name names one.
    pub open spec fn current_clip(self) -> Option<Clip> {
        match self.current_animation {
            Some(name) => clip_named(self.animations@, name@),
            None => None,
        }
    }

    /// Whether the playing clip repeats.
    pub open spec fn spec_is_repeating(self) -> bool {
        match self.current_clip() {
            Some(c) => c.repeat,
            None => false,
        }
    }

    /// The sprite-sheet index of the current frame.
    pub open spec fn spec_current_index(self) -> Option<int> {
        match self.current_clip() {
            Some(c) => Some(c.frames.start + self.current_frame),
            None => None,
        }
    }

    /// The sprite-sheet index of the current frame fits in a `usize`.
    pub open spec fn index_fits(self) -> bool {
        match self.spec_current_index() {
            Some(i) => i <= usize::MAX,
            None => true,
        }
    }

    /// Whether the current frame is at or past the end of the playing clip.
    pub open spec fn spec_is_last_frame(self) -> bool {
        match (self.current_clip(), self.spec_current_index()) {
            (Some(c), Some(i)) => i >= c.frames.end,
            _ => false,
        }
    }

    /// Whether the frame timer still drives this animation: a clip that plays once stops
    /// once it has been played.
    pub open spec fn spec_should_cycle(self) -> bool {
        !(self.played_once && !self.spec_is_repeating())
    }

    /// The animation after its frame timer has fired: at the last frame the clip counts as
    /// played and a repeating clip starts over; otherwise the next frame comes.
    pub open spec fn after_frame(self) -> Animation {
        if self.spec_is_last_frame() {
            Animation {
                current_frame: if self.spec_is_repeating() { 0 } else { self.current_frame },
                played_once: true,
                ..self
            }
        } else {
            Animation { current_frame: (self.current_frame + 1) as usize, ..self }
        }
    }

    /// An animation with the given clips, no two under one name, that plays nothing yet.
    pub fn new(animations: Vec<NamedClip>) -> (a: Animation)
        requires
            names_distinct(animations@),
        ensures
            a.animations == animations,
            a.current_frame == 0,
            a.current_animation is None,
            !a.played_once,
    {
        Animation { animations, current_frame: 0, current_animation: None, played_once: false }
    }

    /// The clip named `name`, if any.
    pub fn clip(&self, name: &String) -> (res: Option<&Clip>)
        ensures
            match res {
                Some(c) => clip_named(self.animations@, name@) == Some(*c),
                None => clip_named(self.animations@, name@) is None,
            },
    {
        let mut i: usize = 0;
        proof {
            assert(self.animations@.skip(0) =~= self.animations@);
        }
        while i < self.animations.len()
            invariant
                i <= self.animations@.len(),
                clip_named(self.animations@, name@) == clip_named(self.animations@.skip(i as int), name@),
            decreases self.animations@.len() - i,
        {
            proof {
                let rest = self.animations@.skip(i as int);
                assert(rest[0] == self.animations@[i as int]);
                assert(rest.drop_first() =~= self.animations@.skip(i + 1));
            }
            if self.animations[i].name == *name {
                return Some(&self.animations[i].clip);
            }
            i = i + 1;
        }
        None
    }

    /// Starts playing the clip `name` from its first frame.
    pub fn play(&mut self, name: &str)
        ensures
            final(self).animations == old(self).animations,
            final(self).current_animation matches Some(n) && n@ == name@,
            final(self).current_frame == 0,
            !final(self).played_once,
    {
        self.current_animation = Some(name.to_owned());
        self.current_frame = 0;
        self.played_once = false;
    }

    /// Whether the playing clip is named `name`.
    pub fn is_playing(&self, name: &str) -> (res: bool)
        ensures
            res == (self.current_animation matches Some(n) && n@ == name@),
    {
        match &self.current_animation {
            Some(n) => str_equal(n.as_str(), name),
            None => false,
        }
    }

    /// Whether the playing clip has been played through.
    pub fn is_finished(&self) -> (res: bool)
        ensures
            res == self.played_once,
    {
        self.played_once
    }

    /// Whether the playing clip repeats.
    pub fn is_repeating(&self) -> (res: bool)
        ensures
            res == self.spec_is_repeating(),
    {
        match &self.current_animation {
            Some(name) => match self.clip(name) {
                Some(c) => c.repeat,
                None => false,
            },
            None => false,
        }
    }

    /// The frame range of the playing clip.
    pub fn get_current_indices(&self) -> (res: Option<&std::ops::Range<usize>>)
        ensures
            match res {
                Some(r) => self.current_clip() matches Some(c) && c.frames == *r,
                None => self.current_clip() is None,
            },
    {
        match &self.current_animation {
            Some(name) => match self.clip(name) {
                Some(c) => Some(&c.frames),
                None => None,
            },
            None => None,
        }
    }

    /// The sprite-sheet index of the current frame.
    pub fn get_current_index(&self) -> (res: Option<usize>)
        requires
            self.index_fits(),
        ensures
            match res {
                Some(i) => self.spec_current_index() == Some(i as int),
                None => self.spec_current_index() is None,
            },
    {
        match self.get_current_indices() {
            Some(r) => Some(r.start + self.current_frame),
            None => None,
        }
    }

    /// Whether the current frame is at or past the end of the playing clip.
    pub fn is_last_frame(&self) -> (res: bool)
        requires
            self.index_fits(),
        ensures
            res == self.spec_is_last_frame(),
    {
        match self.get_current_indices() {
            Some(r) => r.start + self.current_frame >= r.end,
            None => false,
        }
    }

    /// Whether the frame timer still drives this animation.
    pub fn should_cycle(&self) -> (res: bool)
        ensures
            res == self.spec_should_cycle(),
    {
        !(self.is_finished() && !self.is_repeating())
    }

    /// Moves the animation on when its frame timer has fired.
    pub fn advance_frame(&mut self)
        requires
            old(self).index_fits(),
            old(self).current_clip() is None ==> old(self).current_frame < usize::MAX,
        ensures
            *final(self) == old(self).after_frame(),
    {
        if self.is_last_frame() {
            self.played_once = true;
            if self.is_repeating() {
                self.current_frame = 0;
            }
        } else {
            self.current_frame = self.current_frame + 1;
        }
    }
}


/// The animation after its frame timer has fired `k` times.
pub open spec fn after_frames(a: Animation, k: nat) -> Animation
    decreases k,
{
    if k == 0 {
        a
    } else {
        after_frames(a, (k - 1) as nat).after_frame()
    }
}

proof fn lemma_after_frames_keeps_clip(a: Animation, k: nat)
    ensures
        after_frames(a, k).animations == a.animations,
        after_frames(a, k).current_animation == a.current_animation,
    decreases k,
{
    if k > 0 {
        lemma_after_frames_keeps_clip(a, (k - 1) as nat);
    }
}

/// A clip of `n` frames played from its first frame shows frame `k` after `k` firings of
/// the frame timer, for every `k` up to `n`, without counting as played; the next firing
/// marks it played. A clip that repeats then starts over from its first frame; one that
/// does not stays on its last frame and stops being driven by the timer.
pub proof fn lemma_clip_plays_through(a: Animation, k: nat)
    requires
        a.current_clip() matches Some(c) && c.frames.start <= c.frames.end,
        a.current_frame == 0,
        !a.played_once,
        k <= a.current_clip()->0.frames.end - a.current_clip()->0.frames.start,
    ensures
        after_frames(a, k).current_frame == k,
        !after_frames(a, k).played_once,
        k == a.current_clip()->0.frames.end - a.current_clip()->0.frames.start ==> {
            let done = after_frames(a, k + 1);
            &&& done.played_once
            &&& done.current_frame == if a.spec_is_repeating() { 0 } else { k }
            &&& (a.spec_is_repeating() <==> done.spec_should_cycle())
        },
    decreases k,
{
    let c = a.current_clip()->0;
    if k > 0 {
        lemma_clip_plays_through(a, (k - 1) as nat);
        lemma_after_frames_keeps_clip(a, (k - 1) as nat);
        let prev = after_frames(a, (k - 1) as nat);
        assert(prev.current_clip() == a.current_clip());
        assert(!prev.spec_is_last_frame());
    }
    lemma_after_frames_keeps_clip(a, k);
    let now = after_frames(a, k);
    assert(now.current_clip() == a.current_clip());
    if k == c.frames.end - c.frames.start {
        assert(now.spec_is_last_frame());
        lemma_after_frames_keeps_clip(a, k + 1);
        assert(after_frames(a, k + 1) == now.after_frame());
    }
}

/// One firing of the frame timer off the last frame moves on exactly one frame, whether or
/// not the clip has been played through before; on the last frame it marks the clip played
/// and starts a repeating clip over from its first frame, while a clip that plays once
/// stays put. The clips and the playing clip never change.
pub proof fn lemma_frame_advance_laws(a: Animation)
    requires
        a.current_clip() is None ==> a.current_frame < usize::MAX,
    ensures
        a.after_frame().animations == a.animations,
        a.after_frame().current_animation == a.current_animation,
        !a.spec_is_last_frame() ==> a.after_frame().current_frame == a.current_frame + 1
            && a.after_frame().played_once == a.played_once,
        a.spec_is_last_frame() ==> a.after_frame().played_once,
        a.spec_is_last_frame() && a.spec_is_repeating() ==> a.after_frame().current_frame == 0,
        a.spec_is_last_frame() && !a.spec_is_repeating() ==> a.after_frame().current_frame == a.current_frame,
{
}

/// The timer firing `k + m` times is the timer firing `k` times, then `m` times.
proof fn lemma_after_frames_add(a: Animation, k: nat, m: nat)
    ensures
        after_frames(a, k + m) == after_frames(after_frames(a, k), m),
    decreases m,
{
    if m > 0 {
        lemma_after_frames_add(a, k, (m - 1) as nat);
        assert(after_frames(a, k + m) == after_frames(a, (k + m - 1) as nat).after_frame());
    }
}

/// One loop of a repeating clip of `n` frames beyond its first, from its first frame:
/// after `r <= n` firings the clip shows frame `r`, and after `n + 1` it is back on its
/// first frame, played through.
proof fn lemma_one_loop(b: Animation, r: nat)
    requires
        b.current_clip() matches Some(c) && c.repeat && c.frames.start <= c.frames.end,
        b.current_frame == 0,
        r <= b.current_clip()->0.frames.end - b.current_clip()->0.frames.start + 1,
    ensures
        r <= b.current_clip()->0.frames.end - b.current_clip()->0.frames.start ==> after_frames(b, r)
            == (Animation { current_frame: r as usize, ..b }),
        r == b.current_clip()->0.frames.end - b.current_clip()->0.frames.start + 1 ==> after_frames(b, r)
            == (Animation { current_frame: 0, played_once: true, ..b }),
    decreases r,
{
    if r > 0 {
        lemma_one_loop(b, (r - 1) as nat);
        let prev = Animation { current_frame: (r - 1) as usize, ..b };
        assert(after_frames(b, (r - 1) as nat) == prev);
        assert(prev.current_clip() == b.current_clip());
    }
}

/// A repeating clip of `n` frames beyond its first, played from its first frame, keeps
/// looping: after `q` whole loops of `n + 1` firings and `r <= n` more it shows frame `r`,
/// and it counts as played exactly when at least one loop has passed.
pub proof fn lemma_repeating_clip_loops(a: Animation, q: nat, r: nat)
    requires
        a.current_clip() matches Some(c) && c.repeat && c.frames.start <= c.frames.end,
        a.current_frame == 0,
        !a.played_once,
        r <= a.current_clip()->0.frames.end - a.current_clip()->0.frames.start,
    ensures
        ({
            let n = a.current_clip()->0.frames.end - a.current_clip()->0.frames.start;
            let later = after_frames(a, q * (n + 1) as nat + r);
            &&& later.current_frame == r
            &&& later.played_once == (q > 0)
            &&& later.current_animation == a.current_animation
        }),
    decreases q,
{
    let n = a.current_clip()->0.frames.end - a.current_clip()->0.frames.start;
    lemma_whole_loops(a, q);
    let b = after_frames(a, q * (n + 1) as nat);
    lemma_after_frames_add(a, q * (n + 1) as nat, r);
    assert(b.current_clip() == a.current_clip());
    lemma_one_loop(b, r);
}

/// After `q` whole loops a repeating clip is back on its first frame, played through once
/// any loop has passed.
proof fn lemma_whole_loops(a: Animation, q: nat)
    requires
        a.current_clip() matches Some(c) && c.repeat && c.frames.start <= c.frames.end,
        a.current_frame == 0,
        !a.played_once,
    ensures
        after_frames(a, q * ((a.current_clip()->0.frames.end - a.current_clip()->0.frames.start + 1) as nat))
            == (Animation { current_frame: 0, played_once: q > 0, ..a }),
    decreases q,
{
    let n = a.current_clip()->0.frames.end - a.current_clip()->0.frames.start;
    let len = (n + 1) as nat;
    if q == 0 {
        assert(q * len == 0) by (nonlinear_arith)
            requires
                q == 0,
        ;
    } else {
        lemma_whole_loops(a, (q - 1) as nat);
        assert(q * len == (q - 1) as nat * len + len) by (nonlinear_arith)
            requires
                q >= 1,
        ;
        lemma_after_frames_add(a, (q - 1) as nat * len, len);
        let b = after_frames(a, (q - 1) as nat * len);
        assert(b.current_clip() == a.current_clip());
        lemma_one_loop(b, len);
    }
}

/// The current frame stays within the playing clip as the frame timer fires.
pub proof fn lemma_frame_stays_in_clip(a: Animation)
    requires
        a.current_clip() matches Some(c) && c.frames.start <= c.frames.end
            && c.frames.start + a.current_frame <= c.frames.end,
    ensures
        a.after_frame().current_clip() == a.current_clip(),
        a.current_clip() matches Some(c) && c.frames.start + a.after_frame().current_frame <= c.frames.end,
{
}

/// A clip that plays once and has been played is no longer driven by the frame timer; a
/// repeating one always is.
pub proof fn lemma_finished_clip_frozen(a: Animation)
    ensures
        a.played_once && !a.spec_is_repeating() ==> !a.spec_should_cycle(),
        a.spec_is_repeating() ==> a.spec_should_cycle(),
{
}

} // verus!
