//! Asset paths: resolving a path written in one asset relative to that asset, by the
//! component rules of Unix paths (empty and `.` components are ignored, except a leading
//! `.`; a leading `/` is the root).

use vstd::prelude::*;

verus! {

/// The path starts at the root.
pub open spec fn has_root(p: Seq<char>) -> bool {
    p.len() > 0 && p[0] == '/'
}

/// The path starts with a `.` component, which counts only at the very start.
pub open spec fn starts_cur_dir(p: Seq<char>) -> bool {
    !has_root(p) && p.len() > 0 && p[0] == '.' && (p.len() == 1 || p[1] == '/')
}

/// How many characters come before the first body component: the root `/` or a leading
/// `.` component.
pub open spec fn before_body(p: Seq<char>) -> int {
    if has_root(p) || starts_cur_dir(p) {
        1
    } else {
        0
    }
}

/// Where the components that may be trimmed start: after the root or leading `.` when
/// the path is looked at from its start, else at once.
pub open spec fn body_start(p: Seq<char>, from_start: bool) -> int {
    if from_start {
        before_body(p)
    } else {
        0
    }
}

/// The last body component of `p` (body from `b`) is `.`.
pub open spec fn ends_in_dot(p: Seq<char>, b: int) -> bool {
    p.len() > b && p.last() == '.' && (p.len() - 1 == b || p[p.len() - 2] == '/')
}

/// The length of `p` once its last component, a `.`, and the separator before it are cut.
pub open spec fn dot_cut(p: Seq<char>, b: int) -> int {
    if p.len() - 1 == b {
        p.len() - 1
    } else {
        p.len() - 2
    }
}

/// The path without its trailing empty and `.` components (body from `body_start`).
pub open spec fn trim_right(p: Seq<char>, from_start: bool) -> Seq<char>
    decreases p.len(),
{
    let b = body_start(p, from_start);
    if p.len() > b && p.last() == '/' {
        trim_right(p.drop_last(), from_start)
    } else if ends_in_dot(p, b) {
        trim_right(p.take(dot_cut(p, b)), from_start)
    } else {
        p
    }
}

/// The path without its leading separators and `.` components.
pub open spec fn trim_left(p: Seq<char>) -> Seq<char>
    decreases p.len(),
{
    if p.len() > 0 && (p[0] == '/' || (p[0] == '.' && (p.len() == 1 || p[1] == '/'))) {
        trim_left(p.drop_first())
    } else {
        p
    }
}

/// The length of `p` up to its last separator at or after `b`, or `b` when there is none.
pub open spec fn seg_cut(p: Seq<char>, b: int) -> int
    decreases p.len(),
{
    if p.len() == 0 || p.len() <= b {
        b
    } else if p.last() == '/' {
        p.len() - 1
    } else {
        seg_cut(p.drop_last(), b)
    }
}

/// The parent of a path: the path without its last component (ignoring trailing empty and
/// `.` components), trimmed; nothing for the root alone or the empty path, and the empty
/// path for `.` alone.
pub open spec fn parent_of(p: Seq<char>) -> Option<Seq<char>>
    decreases p.len(),
{
    let b = before_body(p);
    if p.len() > b {
        if p.last() == '/' {
            parent_of(p.drop_last())
        } else if ends_in_dot(p, b) {
            parent_of(p.take(dot_cut(p, b)))
        } else {
            Some(trim_right(p.take(seg_cut(p.drop_last(), b)), true))
        }
    } else if starts_cur_dir(p) {
        Some(Seq::empty())
    } else {
        None
    }
}

/// `rel` joined onto `base`, with a separator between them unless `base` is empty or
/// already ends in one.
pub open spec fn join_path(base: Seq<char>, rel: Seq<char>) -> Seq<char> {
    if base.len() == 0 || base.last() == '/' {
        base + rel
    } else {
        base + seq!['/'] + rel
    }
}

/// The path of an asset referenced as `relative_path` from the asset at `asset_path`: a
/// path starting with `/` is taken from the asset root, without its root and with leading
/// and trailing empty and `.` components dropped; any other is joined onto the parent of
/// the referring asset (the empty path where it has none).
pub open spec fn spec_relative_asset_path(asset_path: Seq<char>, relative_path: Seq<char>) -> Seq<char> {
    if relative_path.len() > 0 && relative_path[0] == '/' {
        trim_right(trim_left(relative_path.drop_first()), false)
    } else {
        join_path(
            match parent_of(asset_path) {
                Some(base) => base,
                None => Seq::empty(),
            },
            relative_path,
        )
    }
}

/// `before_body` of `s[lo..hi]`.
fn before_body_at(s: &str, lo: usize, hi: usize) -> (b: usize)
    requires
        lo <= hi <= s@.len(),
    ensures
        b == before_body(s@.subrange(lo as int, hi as int)),
{
    let ghost p = s@.subrange(lo as int, hi as int);
    if hi > lo {
        let c0 = s.get_char(lo);
        assert(p[0] == c0);
        if c0 == '/' {
            return 1;
        }
        if c0 == '.' {
            if hi == lo + 1 {
                return 1;
            }
            let c1 = s.get_char(lo + 1);
            assert(p[1] == c1);
            if c1 == '/' {
                return 1;
            }
        }
    }
    0
}

/// `body_start` of `s[lo..hi]`.
fn body_start_at(s: &str, lo: usize, hi: usize, from_start: bool) -> (b: usize)
    requires
        lo <= hi <= s@.len(),
    ensures
        b == body_start(s@.subrange(lo as int, hi as int), from_start),
        b <= 1,
{
    if from_start {
        before_body_at(s, lo, hi)
    } else {
        0
    }
}

/// Whether `s[lo..hi]` ends in a `.` body component, and its length once that is cut.
fn dot_cut_at(s: &str, lo: usize, hi: usize, b: usize) -> (r: Option<usize>)
    requires
        lo <= hi <= s@.len(),
    ensures
        match r {
            Some(k) => ends_in_dot(s@.subrange(lo as int, hi as int), b as int) && k == dot_cut(
                s@.subrange(lo as int, hi as int),
                b as int,
            ),
            None => !ends_in_dot(s@.subrange(lo as int, hi as int), b as int),
        },
{
    let ghost p = s@.subrange(lo as int, hi as int);
    let n = hi - lo;
    if n > b {
        let last = s.get_char(hi - 1);
        assert(p.last() == last);
        if last == '.' {
            if n - 1 == b {
                return Some(n - 1);
            }
            let before = s.get_char(hi - 2);
            assert(p[p.len() - 2] == before);
            if before == '/' {
                return Some(n - 2);
            }
        }
    }
    None
}

/// `s[lo..h]` is `trim_right` of `s[lo..hi]`.
fn trim_right_at(s: &str, lo: usize, hi: usize, from_start: bool) -> (h: usize)
    requires
        lo <= hi <= s@.len(),
    ensures
        lo <= h <= hi,
        s@.subrange(lo as int, h as int) == trim_right(s@.subrange(lo as int, hi as int), from_start),
{
    let mut h = hi;
    loop
        invariant
            lo <= h <= hi <= s@.len(),
            trim_right(s@.subrange(lo as int, h as int), from_start) == trim_right(
                s@.subrange(lo as int, hi as int),
                from_start,
            ),
        decreases h,
    {
        let ghost p = s@.subrange(lo as int, h as int);
        let b = body_start_at(s, lo, h, from_start);
        if h - lo > b && s.get_char(h - 1) == '/' {
            assert(p.last() == s@[h - 1]);
            assert(p.drop_last() =~= s@.subrange(lo as int, h - 1));
            h = h - 1;
        } else {
            match dot_cut_at(s, lo, h, b) {
                Some(k) => {
                    assert(p.take(k as int) =~= s@.subrange(lo as int, lo + k));
                    h = lo + k;
                },
                None => {
                    return h;
                },
            }
        }
    }
}

/// `s[l..hi]` is `trim_left` of `s[lo..hi]`.
fn trim_left_at(s: &str, lo: usize, hi: usize) -> (l: usize)
    requires
        lo <= hi <= s@.len(),
    ensures
        lo <= l <= hi,
        s@.subrange(l as int, hi as int) == trim_left(s@.subrange(lo as int, hi as int)),
{
    let mut l = lo;
    loop
        invariant
            lo <= l <= hi <= s@.len(),
            trim_left(s@.subrange(l as int, hi as int)) == trim_left(s@.subrange(lo as int, hi as int)),
        decreases hi - l,
    {
        let ghost p = s@.subrange(l as int, hi as int);
        let mut skip = false;
        if l < hi {
            let c = s.get_char(l);
            assert(p[0] == c);
            if c == '/' {
                skip = true;
            } else if c == '.' {
                if l + 1 == hi {
                    skip = true;
                } else {
                    let d = s.get_char(l + 1);
                    assert(p[1] == d);
                    skip = d == '/';
                }
            }
        }
        if skip {
            assert(p.drop_first() =~= s@.subrange(l + 1, hi as int));
            l = l + 1;
        } else {
            return l;
        }
    }
}

/// `seg_cut` of `s[lo..hi]` from body start `b`.
fn seg_cut_at(s: &str, lo: usize, hi: usize, b: usize) -> (r: usize)
    requires
        lo <= hi <= s@.len(),
    ensures
        r == seg_cut(s@.subrange(lo as int, hi as int), b as int),
        b <= hi - lo ==> b <= r <= hi - lo,
{
    let mut n = hi - lo;
    assert(s@.subrange(lo as int, lo + n) =~= s@.subrange(lo as int, hi as int));
    loop
        invariant
            lo + n <= hi <= s@.len(),
            seg_cut(s@.subrange(lo as int, lo + n), b as int) == seg_cut(s@.subrange(lo as int, hi as int), b as int),
            b <= hi - lo ==> b <= n || n == hi - lo,
        decreases n,
    {
        let ghost p = s@.subrange(lo as int, lo + n);
        if n <= b {
            return b;
        }
        let c = s.get_char(lo + n - 1);
        assert(p.last() == c);
        if c == '/' {
            return n - 1;
        }
        assert(p.drop_last() =~= s@.subrange(lo as int, lo + n - 1));
        n = n - 1;
    }
}

/// The length of the parent of `s` (a prefix of it), if it has one.
fn parent_at(s: &str) -> (r: Option<usize>)
    ensures
        match r {
            Some(h) => h <= s@.len() && parent_of(s@) == Some(s@.take(h as int)),
            None => parent_of(s@) is None,
        },
{
    let len = s.unicode_len();
    let mut h = len;
    assert(s@.subrange(0, len as int) =~= s@);
    loop
        invariant
            h <= len,
            len == s@.len(),
            parent_of(s@.subrange(0, h as int)) == parent_of(s@),
        decreases h,
    {
        let ghost p = s@.subrange(0, h as int);
        let b = before_body_at(s, 0, h);
        if h > b {
            let last = s.get_char(h - 1);
            assert(p.last() == last);
            if last == '/' {
                assert(p.drop_last() =~= s@.subrange(0, h - 1));
                h = h - 1;
            } else {
                match dot_cut_at(s, 0, h, b) {
                    Some(k) => {
                        assert(p.take(k as int) =~= s@.subrange(0, k as int));
                        h = k;
                    },
                    None => {
                        assert(p.drop_last() =~= s@.subrange(0, h - 1));
                        let cut = seg_cut_at(s, 0, h - 1, b);
                        assert(p.take(cut as int) =~= s@.subrange(0, cut as int));
                        let t = trim_right_at(s, 0, cut, true);
                        assert(s@.take(t as int) =~= s@.subrange(0, t as int));
                        return Some(t);
                    },
                }
            }
        } else {
            if h > 0 && s.get_char(0) == '.' && (h == 1 || s.get_char(1) == '/') {
                assert(p[0] == s@[0]);
                assert(s@.take(0) =~= Seq::<char>::empty());
                return Some(0);
            }
            proof {
                if h > 0 {
                    assert(p[0] == s@[0]);
                    if h > 1 {
                        assert(p[1] == s@[1]);
                    }
                }
            }
            return None;
        }
    }
}

/// Resolves `relative_path`, written in the asset at `asset_path`, to a path from the
/// asset root.
pub fn relative_asset_path(asset_path: &str, relative_path: &str) -> (res: String)
    ensures
        res@ == spec_relative_asset_path(asset_path@, relative_path@),
{
    let rl = relative_path.unicode_len();
    if rl > 0 && relative_path.get_char(0) == '/' {
        proof {
            assert(relative_path@.drop_first() =~= relative_path@.subrange(1, rl as int));
        }
        let l = trim_left_at(relative_path, 1, rl);
        let h = trim_right_at(relative_path, l, rl, false);
        return relative_path.substring_char(l, h).to_owned();
    }
    let base = match parent_at(asset_path) {
        Some(h) => h,
        None => 0,
    };
    let ghost base_seq = asset_path@.take(base as int);
    proof {
        assert(asset_path@.take(0) =~= Seq::<char>::empty());
        assert(asset_path@.subrange(0, base as int) =~= base_seq);
    }
    let mut out = asset_path.substring_char(0, base).to_owned();
    if base > 0 && asset_path.get_char(base - 1) != '/' {
        out.append("/");
        proof {
            reveal_strlit("/");
        }
    }
    out.append(relative_path);
    proof {
        reveal_strlit("/");
        if base > 0 {
            assert(base_seq.last() == asset_path@[base - 1]);
        }
        assert(out@ =~= join_path(base_seq, relative_path@));
    }
    out
}

} // verus!
