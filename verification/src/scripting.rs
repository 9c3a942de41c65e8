//! Scripts: when their assets are (re)loaded into the engine, the log levels they use, and
//! the source the engine evaluates.

use vstd::prelude::*;

use crate::text::str_equal;

verus! {

/// What happened to a script asset.
pub enum ScriptEvent<H> {
    Created(H),
    Modified(H),
    Removed(H),
}

/// A script waiting to be loaded into the engine.
pub struct ScriptToLoad<H> {
    pub handle: H,
    /// Whether an already loaded script is loaded again.
    pub reload: bool,
}

/// The scripts to load for `events`, in event order: new scripts load, modified scripts
/// reload, removals are ignored.
pub open spec fn loads_for_events<H>(events: Seq<ScriptEvent<H>>) -> Seq<ScriptToLoad<H>>
    decreases events.len(),
{
    if events.len() == 0 {
        Seq::empty()
    } else {
        let rest = loads_for_events(events.drop_first());
        match events[0] {
            ScriptEvent::Created(h) => seq![ScriptToLoad { handle: h, reload: false }] + rest,
            ScriptEvent::Modified(h) => seq![ScriptToLoad { handle: h, reload: true }] + rest,
            ScriptEvent::Removed(_) => rest,
        }
    }
}

/// Queues the scripts to load for this frame's asset events behind those already waiting.
pub fn queue_script_events<H>(queue: &mut Vec<ScriptToLoad<H>>, events: Vec<ScriptEvent<H>>)
    ensures
        final(queue)@ == old(queue)@ + loads_for_events(events@),
{
    let ghost orig = events@;
    let mut rest = events;
    let ghost mut n: int = 0;
    proof {
        assert(rest@ =~= orig.skip(0));
        assert(old(queue)@ + loads_for_events(orig) =~= old(queue)@ + loads_for_events(orig.skip(0)));
    }
    while rest.len() > 0
        invariant
            0 <= n <= orig.len(),
            rest@ == orig.skip(n),
            queue@ + loads_for_events(orig.skip(n)) == old(queue)@ + loads_for_events(orig),
        decreases rest@.len(),
    {
        let e = rest.remove(0);
        proof {
            assert(orig.skip(n)[0] == e);
            assert(orig.skip(n).drop_first() =~= orig.skip(n + 1));
        }
        match e {
            ScriptEvent::Created(h) => {
                let ghost l = ScriptToLoad { handle: h, reload: false };
                proof {
                    assert(queue@.push(l) + loads_for_events(orig.skip(n + 1)) =~= queue@ + (seq![l]
                        + loads_for_events(orig.skip(n + 1))));
                }
                queue.push(ScriptToLoad { handle: h, reload: false });
            },
            ScriptEvent::Modified(h) => {
                let ghost l = ScriptToLoad { handle: h, reload: true };
                proof {
                    assert(queue@.push(l) + loads_for_events(orig.skip(n + 1)) =~= queue@ + (seq![l]
                        + loads_for_events(orig.skip(n + 1))));
                }
                queue.push(ScriptToLoad { handle: h, reload: true });
            },
            ScriptEvent::Removed(_) => {},
        }
        proof {
            n = n + 1;
            assert(rest@ =~= orig.skip(n));
        }
    }
    proof {
        assert(loads_for_events(orig.skip(n)) =~= Seq::<ScriptToLoad<H>>::empty());
        assert(queue@ + Seq::<ScriptToLoad<H>>::empty() =~= queue@);
    }
}

/// The waiting scripts whose assets are (`want` true) or are not (`want` false) ready,
/// in queue order.
pub open spec fn scripts_where<H>(queue: Seq<ScriptToLoad<H>>, ready: Seq<bool>, want: bool) -> Seq<ScriptToLoad<H>>
    decreases queue.len(),
{
    if queue.len() == 0 {
        Seq::empty()
    } else {
        let rest = scripts_where(queue.drop_first(), ready.drop_first(), want);
        if ready[0] == want { seq![queue[0]] + rest } else { rest }
    }
}

/// Splits the waiting scripts into those whose asset has loaded (to hand to the engine
/// now) and those still loading (to try again next frame), each in queue order.
pub fn split_loadable<H>(queue: Vec<ScriptToLoad<H>>, ready: &Vec<bool>) -> (res: (Vec<ScriptToLoad<H>>, Vec<ScriptToLoad<H>>))
    requires
        ready@.len() == queue@.len(),
    ensures
        res.0@ == scripts_where(queue@, ready@, true),
        res.1@ == scripts_where(queue@, ready@, false),
{
    let ghost orig = queue@;
    let mut rest = queue;
    let mut now: Vec<ScriptToLoad<H>> = Vec::new();
    let mut later: Vec<ScriptToLoad<H>> = Vec::new();
    let mut i: usize = 0;
    let n = ready.len();
    proof {
        assert(rest@ =~= orig.skip(0));
        assert(ready@.skip(0) =~= ready@);
    }
    while rest.len() > 0
        invariant
            n == ready@.len(),
            i <= orig.len(),
            ready@.len() == orig.len(),
            rest@ == orig.skip(i as int),
            now@ + scripts_where(orig.skip(i as int), ready@.skip(i as int), true) == scripts_where(orig, ready@, true),
            later@ + scripts_where(orig.skip(i as int), ready@.skip(i as int), false) == scripts_where(orig, ready@, false),
        decreases rest@.len(),
    {
        assert(orig.skip(i as int).len() == orig.len() - i);
        let s = rest.remove(0);
        proof {
            assert(orig.skip(i as int)[0] == s);
            assert(orig.skip(i as int).drop_first() =~= orig.skip(i + 1));
            assert(ready@.skip(i as int).drop_first() =~= ready@.skip(i + 1));
            assert(ready@.skip(i as int)[0] == ready@[i as int]);
        }
        let r = ready[i];
        if r {
            proof {
                let t = scripts_where(orig.skip(i + 1), ready@.skip(i + 1), true);
                assert(now@.push(s) + t =~= now@ + (seq![s] + t));
            }
            now.push(s);
        } else {
            proof {
                let t = scripts_where(orig.skip(i + 1), ready@.skip(i + 1), false);
                assert(later@.push(s) + t =~= later@ + (seq![s] + t));
            }
            later.push(s);
        }
        i = i + 1;
        proof {
            assert(rest@ =~= orig.skip(i as int));
        }
    }
    proof {
        assert(scripts_where(orig.skip(i as int), ready@.skip(i as int), true) =~= Seq::<ScriptToLoad<H>>::empty());
        assert(scripts_where(orig.skip(i as int), ready@.skip(i as int), false) =~= Seq::<ScriptToLoad<H>>::empty());
        assert(now@ + Seq::<ScriptToLoad<H>>::empty() =~= now@);
        assert(later@ + Seq::<ScriptToLoad<H>>::empty() =~= later@);
    }
    (now, later)
}

/// Whether the engine (re)evaluates a script: a reload always does, otherwise only a
/// script not loaded yet is.
pub fn should_load_script(reload: bool, already_loaded: bool) -> (res: bool)
    ensures
        res == (reload || !already_loaded),
{
    reload || !already_loaded
}

/// The level of a message a script logs.
#[derive(Debug, PartialEq, Eq, Structural, Clone, Copy)]
pub enum LogLevel {
    Error,
    Warn,
    Info,
    Debug,
    Trace,
}

/// The level a script's level name stands for; unknown names log at the info level.
pub open spec fn spec_log_level(name: Seq<char>) -> LogLevel {
    if name == "error"@ {
        LogLevel::Error
    } else if name == "warn"@ {
        LogLevel::Warn
    } else if name == "debug"@ {
        LogLevel::Debug
    } else if name == "trace"@ {
        LogLevel::Trace
    } else {
        LogLevel::Info
    }
}

impl LogLevel {
    /// The level named by a script.
    pub fn from_name(name: &str) -> (l: LogLevel)
        ensures
            l == spec_log_level(name@),
    {
        if str_equal(name, "error") {
            LogLevel::Error
        } else if str_equal(name, "warn") {
            LogLevel::Warn
        } else if str_equal(name, "debug") {
            LogLevel::Debug
        } else if str_equal(name, "trace") {
            LogLevel::Trace
        } else {
            LogLevel::Info
        }
    }
}

/// The kinds of script source.
pub enum ScriptCode {
    JavaScript(String),
}

impl ScriptCode {
    /// The JavaScript source, if the script is JavaScript.
    pub fn as_javascript(&self) -> (res: Option<&str>)
        ensures
            match *self {
                ScriptCode::JavaScript(code) => res matches Some(c) && c@ == code@,
            },
    {
        match self {
            ScriptCode::JavaScript(code) => Some(code.as_str()),
        }
    }
}

/// The source the engine evaluates for a script: the script learns its own path first.
pub fn script_source(path: &str, code: &str) -> (src: String)
    ensures
        src@ == "Punchy.SCRIPT_PATH = '"@ + path@ + "'; "@ + code@,
{
    let mut src = "Punchy.SCRIPT_PATH = '".to_owned();
    src.append(path);
    src.append("'; ");
    src.append(code);
    src
}


/// Every waiting script goes either to the engine now or back to the queue, none is lost
/// or doubled, and a ready one is never kept waiting.
pub proof fn lemma_split_partitions<H>(queue: Seq<ScriptToLoad<H>>, ready: Seq<bool>)
    requires
        ready.len() == queue.len(),
    ensures
        scripts_where(queue, ready, true).len() + scripts_where(queue, ready, false).len() == queue.len(),
        (forall|i: int| 0 <= i < ready.len() ==> #[trigger] ready[i]) ==> scripts_where(queue, ready, true) == queue,
    decreases queue.len(),
{
    if queue.len() > 0 {
        lemma_split_partitions(queue.drop_first(), ready.drop_first());
        if forall|i: int| 0 <= i < ready.len() ==> #[trigger] ready[i] {
            assert(ready[0]);
            assert forall|i: int| 0 <= i < ready.drop_first().len() implies #[trigger] ready.drop_first()[i] by {
                assert(ready[i + 1]);
            }
            assert(queue =~= seq![queue[0]] + queue.drop_first());
        }
    } else {
        assert(scripts_where(queue, ready, true) =~= queue);
    }
}

} // verus!
