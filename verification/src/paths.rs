//! Relative paths as sequences of component names, and the name-level
//! operations the build rules and the tree walker need: the hidden-entry
//! test, extension lookup and replacement, and prefix handling.
use vstd::prelude::*;

use crate::text::{str_chars, string_from_chars, vec_slice, vec_extend_str};

verus! {

/// The view of a path: its component names as character sequences.
pub open spec fn pv(p: Seq<String>) -> Seq<Seq<char>> {
    p.map_values(|s: String| s@)
}

/// A name marked as internal bookkeeping: it begins with the hidden-entry
/// marker character, and the tree walker must skip it.
pub open spec fn spec_hidden(name: Seq<char>) -> bool {
    name.len() > 0 && name[0] == '.'
}

/// A path with a hidden component anywhere: such an entry, or anything
/// beneath it, never reaches the merged output.
pub open spec fn spec_path_hidden(p: Seq<Seq<char>>) -> bool {
    exists|i: int| 0 <= i < p.len() && spec_hidden(p[i])
}

/// Whether a name begins with the hidden-entry marker.
pub fn is_hidden(name: &str) -> (r: bool)
    ensures
        r == spec_hidden(name@),
{
    if name.unicode_len() == 0 {
        false
    } else {
        name.get_char(0) == '.'
    }
}

/// Whether any component of `p` is hidden.
pub fn path_hidden(p: &Vec<String>) -> (r: bool)
    ensures
        r == spec_path_hidden(pv(p@)),
{
    let mut i: usize = 0;
    while i < p.len()
        invariant
            i <= p@.len(),
            forall|j: int| 0 <= j < i ==> !spec_hidden(pv(p@)[j]),
        decreases p@.len() - i,
    {
        if is_hidden(p[i].as_str()) {
            proof {
                assert(spec_hidden(pv(p@)[i as int]));
            }
            return true;
        }
        i = i + 1;
    }
    false
}

/// Whether two paths name the same components.
pub fn path_eq(a: &Vec<String>, b: &Vec<String>) -> (r: bool)
    ensures
        r == (pv(a@) == pv(b@)),
{
    if a.len() != b.len() {
        proof {
            assert(pv(a@).len() != pv(b@).len());
        }
        return false;
    }
    let mut i: usize = 0;
    while i < a.len()
        invariant
            a@.len() == b@.len(),
            i <= a@.len(),
            forall|j: int| 0 <= j < i ==> pv(a@)[j] == pv(b@)[j],
        decreases a@.len() - i,
    {
        if !(a[i] == b[i]) {
            proof {
                assert(pv(a@)[i as int] != pv(b@)[i as int]);
            }
            return false;
        }
        i = i + 1;
    }
    proof {
        assert(pv(a@) =~= pv(b@));
    }
    true
}

/// Whether `pre` is a prefix of `p`, component by component.
pub fn path_has_prefix(p: &Vec<String>, pre: &Vec<String>) -> (r: bool)
    ensures
        r == pv(pre@).is_prefix_of(pv(p@)),
{
    if pre.len() > p.len() {
        return false;
    }
    let mut i: usize = 0;
    while i < pre.len()
        invariant
            pre@.len() <= p@.len(),
            i <= pre@.len(),
            forall|j: int| 0 <= j < i ==> pv(pre@)[j] == pv(p@)[j],
        decreases pre@.len() - i,
    {
        if !(p[i] == pre[i]) {
            proof {
                assert(pv(pre@)[i as int] != pv(p@).subrange(0, pv(pre@).len() as int)[i as int]);
            }
            return false;
        }
        i = i + 1;
    }
    proof {
        assert(pv(pre@) =~= pv(p@).subrange(0, pv(pre@).len() as int));
    }
    true
}

/// A copy of `p` without its first `n` components.
pub fn path_skip(p: &Vec<String>, n: usize) -> (r: Vec<String>)
    requires
        n <= p@.len(),
    ensures
        pv(r@) == pv(p@).skip(n as int),
{
    let mut r: Vec<String> = Vec::new();
    let mut i: usize = n;
    while i < p.len()
        invariant
            n <= i <= p@.len(),
            r@.len() == i - n,
            forall|j: int| n <= j < i ==> r@[j - n]@ == p@[j]@,
        decreases p@.len() - i,
    {
        let c = p[i].clone();
        assert(c@ == p@[i as int]@);
        r.push(c);
        i = i + 1;
    }
    proof {
        assert(pv(r@) =~= pv(p@).skip(n as int));
    }
    r
}

/// A copy of `p`, viewed as the same components.
pub fn path_clone(p: &Vec<String>) -> (r: Vec<String>)
    ensures
        pv(r@) == pv(p@),
{
    let r = path_skip(p, 0);
    proof {
        assert(pv(p@).skip(0) =~= pv(p@));
    }
    r
}

/// The position of the last `.` in a name, if any.
pub open spec fn spec_rlast_dot(name: Seq<char>) -> Option<int>
    decreases name.len(),
{
    if name.len() == 0 {
        None
    } else if name[name.len() - 1] == '.' {
        Some(name.len() - 1)
    } else {
        spec_rlast_dot(name.take(name.len() - 1))
    }
}

/// The extension of a file name: what follows the last `.`, unless the
/// only `.` is the leading (hidden-marker) character.
pub open spec fn spec_ext(name: Seq<char>) -> Option<Seq<char>> {
    match spec_rlast_dot(name) {
        Some(i) => if i > 0 {
            Some(name.skip(i + 1))
        } else {
            None
        },
        None => None,
    }
}

/// The stem of a file name: what precedes its extension, or the whole name
/// where it has none.
pub open spec fn spec_stem(name: Seq<char>) -> Seq<char> {
    match spec_rlast_dot(name) {
        Some(i) => if i > 0 {
            name.take(i)
        } else {
            name
        },
        None => name,
    }
}

/// The name with its extension replaced by `ext` (or `.ext` appended when
/// the name has no extension).
pub open spec fn spec_set_ext(name: Seq<char>, ext: Seq<char>) -> Seq<char> {
    match spec_rlast_dot(name) {
        Some(i) => if i > 0 {
            name.take(i) + seq!['.'] + ext
        } else {
            name + seq!['.'] + ext
        },
        None => name + seq!['.'] + ext,
    }
}

fn rlast_dot(v: &Vec<char>) -> (r: Option<usize>)
    ensures
        match r {
            Some(i) => spec_rlast_dot(v@) == Some(i as int) && i < v@.len(),
            None => spec_rlast_dot(v@) is None,
        },
{
    let mut i: usize = v.len();
    proof {
        assert(v@.take(v@.len() as int) =~= v@);
    }
    while i > 0
        invariant
            i <= v@.len(),
            spec_rlast_dot(v@) == spec_rlast_dot(v@.take(i as int)),
        decreases i,
    {
        if v[i - 1] == '.' {
            proof {
                assert(v@.take(i as int).len() == i);
                assert(v@.take(i as int)[i - 1] == '.');
            }
            return Some(i - 1);
        }
        proof {
            assert(v@.take(i as int)[i - 1] != '.');
            assert(v@.take(i as int).take(i - 1 as int) =~= v@.take(i - 1 as int));
        }
        i = i - 1;
    }
    proof {
        assert(v@.take(0).len() == 0);
    }
    None
}

/// The extension of a file name, as `std::path` reads it.
pub fn extension(name: &str) -> (r: Option<String>)
    ensures
        match r {
            Some(e) => spec_ext(name@) == Some(e@),
            None => spec_ext(name@) is None,
        },
{
    let v = str_chars(name);
    let n = v.len();
    match rlast_dot(&v) {
        Some(i) => if i > 0 {
            assert(i < n);
            let e = vec_slice(&v, i + 1, n);
            proof {
                assert(v@.subrange(i + 1 as int, v@.len() as int) =~= v@.skip(i + 1 as int));
            }
            Some(string_from_chars(e))
        } else {
            None
        },
        None => None,
    }
}

/// The stem of a file name.
pub fn stem(name: &str) -> (r: String)
    ensures
        r@ == spec_stem(name@),
{
    let v = str_chars(name);
    let stem_end: usize = match rlast_dot(&v) {
        Some(i) => if i > 0 {
            i
        } else {
            v.len()
        },
        None => v.len(),
    };
    let out = vec_slice(&v, 0, stem_end);
    proof {
        if stem_end < v@.len() {
            assert(v@.subrange(0, stem_end as int) =~= v@.take(stem_end as int));
        } else {
            assert(v@.subrange(0, stem_end as int) =~= v@);
        }
    }
    string_from_chars(out)
}

/// The name with its extension replaced by `ext`.
pub fn with_ext(name: &str, ext: &str) -> (r: String)
    ensures
        r@ == spec_set_ext(name@, ext@),
{
    let v = str_chars(name);
    let stem_end: usize = match rlast_dot(&v) {
        Some(i) => if i > 0 {
            i
        } else {
            v.len()
        },
        None => v.len(),
    };
    let mut out = vec_slice(&v, 0, stem_end);
    out.push('.');
    vec_extend_str(&mut out, ext);
    proof {
        if stem_end < v@.len() {
            assert(v@.subrange(0, stem_end as int) =~= v@.take(stem_end as int));
        } else {
            assert(v@.subrange(0, stem_end as int) =~= v@);
        }
        assert(v@.subrange(0, stem_end as int).push('.') =~= v@.subrange(0, stem_end as int)
            + seq!['.']);
    }
    string_from_chars(out)
}

/// Whether `name` begins with the characters of `prefix`.
pub fn name_starts_with(name: &str, prefix: &str) -> (r: bool)
    ensures
        r == prefix@.is_prefix_of(name@),
{
    let v = str_chars(name);
    let p = str_chars(prefix);
    if p.len() > v.len() {
        return false;
    }
    let m = crate::text::check_match(&v, &p, 0);
    proof {
        if m {
            assert(p@ =~= v@.subrange(0, p@.len() as int));
        } else {
            assert(!(p@ =~= v@.subrange(0, p@.len() as int)));
        }
    }
    m
}

/// Whether `name` ends with the characters of `suffix`.
pub fn name_ends_with(name: &str, suffix: &str) -> (r: bool)
    ensures
        r == suffix@.is_suffix_of(name@),
{
    let v = str_chars(name);
    let s = str_chars(suffix);
    if s.len() > v.len() {
        return false;
    }
    let at = v.len() - s.len();
    let m = crate::text::check_match(&v, &s, at);
    proof {
        if m {
            assert(s@ =~= v@.subrange(v@.len() - s@.len(), v@.len() as int));
        } else {
            assert(!(s@ =~= v@.subrange(v@.len() - s@.len(), v@.len() as int)));
        }
    }
    m
}

} // verus!
