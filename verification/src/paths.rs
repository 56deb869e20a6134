use vstd::prelude::*;

use crate::text::chars_of;

verus! {

/// The path that `Path::join` produces on a Unix system: a component that
/// starts with `/` is absolute and replaces the base; otherwise a separator is
/// put between the two when the base is non-empty and does not already end
/// with one.
pub open spec fn path_join(base: Seq<char>, part: Seq<char>) -> Seq<char> {
    if part.len() > 0 && part[0] == '/' {
        part
    } else if base.len() == 0 || base.last() == '/' {
        base + part
    } else {
        base + seq!['/'] + part
    }
}

/// Whether a path names the home directory or something in it: it is `~`
/// alone or starts with `~/`.
pub open spec fn is_home_relative(path: Seq<char>) -> bool {
    path =~= seq!['~'] || (path.len() >= 2 && path[0] == '~' && path[1] == '/')
}

/// `~` stands for the home directory, and `~/rest` for `rest` inside it; any
/// other path is left as it is.
pub open spec fn tilde_expanded(path: Seq<char>, home: Seq<char>) -> Seq<char> {
    if path =~= seq!['~'] {
        home
    } else if is_home_relative(path) {
        path_join(home, path.skip(2))
    } else {
        path
    }
}

/// Joins `part` onto `base` as `Path::join` does on Unix.
pub fn join_path(base: &str, part: &str) -> (r: String)
    ensures
        r@ == path_join(base@, part@),
{
    let b = chars_of(base);
    let p = chars_of(part);
    if p.len() > 0 && p[0] == '/' {
        return String::from_str(part);
    }
    let mut r = String::from_str(base);
    if b.len() > 0 && b[b.len() - 1] != '/' {
        r.append("/");
        proof {
            reveal_strlit("/");
            assert("/"@ =~= seq!['/']);
        }
    }
    r.append(part);
    r
}

/// Expands a leading `~` in a path to the home directory.
pub fn expand_tilde(path: &str, home: &str) -> (r: String)
    ensures
        r@ == tilde_expanded(path@, home@),
{
    let v = chars_of(path);
    if v.len() == 1 && v[0] == '~' {
        proof {
            assert(path@ =~= seq!['~']);
        }
        String::from_str(home)
    } else if v.len() >= 2 && v[0] == '~' && v[1] == '/' {
        proof {
            assert(!(path@ =~= seq!['~']));
        }
        let rest = path.substring_char(2, v.len());
        join_path(home, rest)
    } else {
        proof {
            if path@ =~= seq!['~'] {
                assert(v@.len() == 1);
            }
        }
        String::from_str(path)
    }
}

/// With an absolute home directory, a path that named the home directory is
/// absolute once expanded, and expanding any path a second time changes
/// nothing.
pub proof fn lemma_expand_tilde_idempotent(path: Seq<char>, home: Seq<char>)
    requires
        home.len() > 0 && home[0] == '/',
    ensures
        tilde_expanded(tilde_expanded(path, home), home) == tilde_expanded(path, home),
        is_home_relative(path) ==> tilde_expanded(path, home)[0] == '/',
{
    let e = tilde_expanded(path, home);
    if is_home_relative(path) && !(path =~= seq!['~']) {
        let part = path.skip(2);
        if !(part.len() > 0 && part[0] == '/') {
            assert(e[0] == home[0]);
        }
    }
    if is_home_relative(path) {
        assert(e.len() > 0 && e[0] == '/');
        assert(!(e =~= seq!['~']));
    }
}

/// Joining a relative component keeps the base as the start of the path.
pub proof fn lemma_join_relative_extends(base: Seq<char>, part: Seq<char>)
    requires
        !(part.len() > 0 && part[0] == '/'),
    ensures
        base.is_prefix_of(path_join(base, part)),
        part.is_suffix_of(path_join(base, part)),
{
    let j = path_join(base, part);
    assert(j.subrange(0, base.len() as int) =~= base);
    assert(j.subrange(j.len() - part.len(), j.len() as int) =~= part);
}

/// How deep a finished path component leads, one level at a time: an empty
/// component and `.` stay, `..` goes up a level (and a path that climbs above
/// its start escapes for good, `None`), any other name goes down a level.
pub open spec fn close_component(depth: Option<int>, comp: Seq<char>) -> Option<int> {
    match depth {
        None => None,
        Some(d) => if comp.len() == 0 || comp =~= seq!['.'] {
            Some(d)
        } else if comp =~= seq!['.', '.'] {
            if d == 0 {
                None
            } else {
                Some(d - 1)
            }
        } else {
            Some(d + 1)
        },
    }
}

/// What reading a relative path character by character has found: the depth
/// reached by its finished components, and the component being read.
pub open spec fn scan_path(s: Seq<char>) -> (Option<int>, Seq<char>)
    decreases s.len(),
{
    if s.len() == 0 {
        (Some(0), Seq::empty())
    } else {
        let (d, c) = scan_path(s.drop_last());
        if s.last() == '/' {
            (close_component(d, c), Seq::empty())
        } else {
            (d, c.push(s.last()))
        }
    }
}

/// How many levels below its start a relative path ends, or `None` when it
/// climbs above its start on the way.
pub open spec fn path_depth(rel: Seq<char>) -> Option<int> {
    close_component(scan_path(rel).0, scan_path(rel).1)
}

/// The start that `path_join(base, ...)` puts in front of a relative part.
pub open spec fn join_prefix(base: Seq<char>) -> Seq<char> {
    if base.len() == 0 || base.last() == '/' {
        base
    } else {
        base + seq!['/']
    }
}

/// Whether `path_join(base, part)` names a path strictly inside `base`,
/// reading `.` and `..` as the file system does: a relative part must end
/// below `base` without climbing above it; an absolute part must spell out
/// `base/` and go on in the same way.
pub open spec fn joins_strictly_inside(base: Seq<char>, part: Seq<char>) -> bool {
    if part.len() > 0 && part[0] == '/' {
        &&& base.len() > 0
        &&& join_prefix(base).is_prefix_of(part)
        &&& path_depth(part.skip(join_prefix(base).len() as int)) matches Some(d) && d > 0
    } else {
        path_depth(part) matches Some(d) && d > 0
    }
}

fn close_component_exec(escaped: bool, depth: usize, comp_len: usize, dots: bool, Ghost(
    comp,
): Ghost<Seq<char>>) -> (r: (bool, usize))
    requires
        comp.len() == comp_len,
        dots == (forall|k: int| 0 <= k < comp.len() ==> comp[k] == '.'),
        depth + comp_len <= usize::MAX,
    ensures
        close_component(if escaped { None } else { Some(depth as int) }, comp) == if r.0 {
            None
        } else {
            Some(r.1 as int)
        },
        r.1 <= depth + comp_len,
{
    if escaped {
        return (true, depth);
    }
    if comp_len == 0 {
        return (false, depth);
    }
    if comp_len == 1 && dots {
        assert(comp =~= seq!['.']);
        return (false, depth);
    }
    if comp_len == 2 && dots {
        assert(comp =~= seq!['.', '.']);
        if depth == 0 {
            return (true, 0);
        }
        return (false, depth - 1);
    }
    assert(!(comp =~= seq!['.'])) by {
        if comp =~= seq!['.'] {
            assert(comp[0] == '.');
        }
    }
    assert(!(comp =~= seq!['.', '.'])) by {
        if comp =~= seq!['.', '.'] {
            assert(comp[0] == '.' && comp[1] == '.');
            assert(dots);
        }
    }
    (false, depth + 1)
}

/// Whether the characters of `v` from `start` on form a relative path that
/// ends strictly below its start without climbing above it.
fn ends_below(v: &Vec<char>, start: usize) -> (r: bool)
    requires
        start <= v@.len(),
    ensures
        r == (path_depth(v@.skip(start as int)) matches Some(d) && d > 0),
{
    let n = v.len();
    let mut escaped = false;
    let mut depth: usize = 0;
    let mut comp_len: usize = 0;
    let mut dots = true;
    let mut i = start;
    let ghost mut comp: Seq<char> = Seq::empty();
    proof {
        assert(v@.subrange(start as int, start as int) =~= Seq::<char>::empty());
    }
    while i < n
        invariant
            start <= i <= n,
            n == v@.len(),
            depth + comp_len <= i - start,
            scan_path(v@.subrange(start as int, i as int)) == (
            if escaped {
                None
            } else {
                Some(depth as int)
            },
            comp),
            comp.len() == comp_len,
            dots == (forall|k: int| 0 <= k < comp.len() ==> comp[k] == '.'),
        decreases n - i,
    {
        let c = v[i];
        let ghost prev = v@.subrange(start as int, i as int);
        proof {
            assert(v@.subrange(start as int, i + 1).drop_last() =~= prev);
            assert(v@.subrange(start as int, i + 1).last() == c);
        }
        if c == '/' {
            let (e, d) = close_component_exec(escaped, depth, comp_len, dots, Ghost(comp));
            escaped = e;
            depth = d;
            comp_len = 0;
            dots = true;
            proof {
                comp = Seq::empty();
            }
        } else {
            let ghost old_comp = comp;
            let ghost old_dots = dots;
            dots = dots && c == '.';
            comp_len = comp_len + 1;
            proof {
                comp = old_comp.push(c);
                if old_dots && c == '.' {
                    assert forall|k: int| 0 <= k < comp.len() implies comp[k] == '.' by {
                        if k < old_comp.len() {
                            assert(comp[k] == old_comp[k]);
                        }
                    }
                } else if !old_dots {
                    let k = choose|k: int| 0 <= k < old_comp.len() && old_comp[k] != '.';
                    assert(comp[k] == old_comp[k]);
                } else {
                    assert(comp[old_comp.len() as int] == c);
                }
            }
        }
        i = i + 1;
    }
    proof {
        assert(v@.subrange(start as int, n as int) =~= v@.skip(start as int));
    }
    let (e, d) = close_component_exec(escaped, depth, comp_len, dots, Ghost(comp));
    !e && d > 0
}

/// Whether `join_path(base, part)` names a path strictly inside `base`.
pub fn join_stays_inside(base: &str, part: &str) -> (r: bool)
    ensures
        r == joins_strictly_inside(base@, part@),
{
    let b = chars_of(base);
    let p = chars_of(part);
    if p.len() > 0 && p[0] == '/' {
        if b.len() == 0 {
            return false;
        }
        let need_sep = b[b.len() - 1] != '/';
        if b.len() > p.len() || (need_sep && b.len() == p.len()) {
            proof {
                assert(join_prefix(base@).len() > part@.len());
            }
            return false;
        }
        let plen = if need_sep { b.len() + 1 } else { b.len() };
        proof {
            assert(join_prefix(base@).len() == plen);
        }
        if plen > p.len() {
            return false;
        }
        let mut i: usize = 0;
        while i < b.len()
            invariant
                i <= b@.len(),
                b@ == base@,
                p@ == part@,
                plen <= p@.len(),
                b@.len() <= plen,
                plen == join_prefix(base@).len(),
                base@.len() > 0,
                part@.len() > 0 && part@[0] == '/',
                forall|k: int| 0 <= k < i ==> b@[k] == p@[k],
            decreases b@.len() - i,
        {
            if b[i] != p[i] {
                proof {
                    assert(join_prefix(base@)[i as int] == b@[i as int]);
                    assert(part@.subrange(0, plen as int)[i as int] == p@[i as int]);
                    assert(!(join_prefix(base@) =~= part@.subrange(0, plen as int)));
                }
                return false;
            }
            i = i + 1;
        }
        if need_sep && p[b.len()] != '/' {
            proof {
                assert(join_prefix(base@)[b@.len() as int] == '/');
                assert(part@.subrange(0, plen as int)[b@.len() as int] == p@[b@.len() as int]);
                assert(!(join_prefix(base@) =~= part@.subrange(0, plen as int)));
            }
            return false;
        }
        proof {
            assert(join_prefix(base@) =~= part@.subrange(0, plen as int));
        }
        ends_below(&p, plen)
    } else {
        proof {
            assert(p@.skip(0) =~= p@);
        }
        ends_below(&p, 0)
    }
}

/// `~` alone expands to the home directory; `~/rest` with a relative `rest`
/// to a path that starts with the home directory and ends with `rest`; a path
/// that names nothing in the home directory comes back unchanged.
pub proof fn lemma_tilde_expanded_effect(path: Seq<char>, home: Seq<char>)
    ensures
        path =~= seq!['~'] ==> tilde_expanded(path, home) == home,
        is_home_relative(path) && path.len() >= 2 && !(path.len() > 2 && path[2] == '/') ==> {
            &&& home.is_prefix_of(tilde_expanded(path, home))
            &&& path.skip(2).is_suffix_of(tilde_expanded(path, home))
        },
        !is_home_relative(path) ==> tilde_expanded(path, home) == path,
{
    if is_home_relative(path) && path.len() >= 2 && !(path.len() > 2 && path[2] == '/') {
        assert(!(path =~= seq!['~'])) by {
            if path =~= seq!['~'] {
                assert(path.len() == 1);
            }
        }
        let part = path.skip(2);
        assert(!(part.len() > 0 && part[0] == '/')) by {
            if part.len() > 0 {
                assert(part[0] == path[2]);
            }
        }
        lemma_join_relative_extends(home, part);
    }
}

} // verus!
