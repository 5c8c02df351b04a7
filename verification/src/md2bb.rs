//! Markdown to bbcode: nine rewriting passes, applied in a fixed order —
//! links, fenced code (longest fence first), headings (deepest first),
//! then bold, italic and strikethrough.  Each pass repeatedly rewrites the
//! leftmost shortest match and continues after it.
use vstd::prelude::*;

use crate::text::{
    str_chars, string_from_chars, vec_slice, vec_extend, matches_at, spec_find, find_sub,
    lemma_find_bounds,
};

verus! {

/// The leftmost wrapped span at or after `from`: an occurrence of `delim`
/// whose next occurrence closes it, the span free of line breaks unless the
/// delimiter spans lines.
pub open spec fn wrap_match(s: Seq<char>, delim: Seq<char>, from: int, dotall: bool) -> Option<
    (int, int),
>
    decreases s.len() + 1 - from,
    via wrap_match_dec
{
    match spec_find(s, delim, from) {
        None => None,
        Some(i) => {
            let start = i + delim.len();
            match spec_find(s, delim, start) {
                None => None,
                Some(p) => if dotall {
                    Some((i, p))
                } else {
                    let nl = spec_find(s, seq!['\n'], start);
                    if nl is None || p <= nl.unwrap() {
                        Some((i, p))
                    } else {
                        wrap_match(s, delim, i + 1, dotall)
                    }
                },
            }
        },
    }
}

#[via_fn]
proof fn wrap_match_dec(s: Seq<char>, delim: Seq<char>, from: int, dotall: bool) {
    lemma_find_bounds(s, delim, from);
}

/// Any wrapped span lies within `s`, opener before closer.
pub proof fn lemma_wrap_match_bounds(s: Seq<char>, delim: Seq<char>, from: int, dotall: bool)
    requires
        delim.len() >= 1,
    ensures
        match wrap_match(s, delim, from, dotall) {
            Some(m) => from <= m.0 && m.0 + delim.len() <= m.1 && m.1 + delim.len() <= s.len(),
            None => true,
        },
    decreases s.len() + 1 - from,
{
    lemma_find_bounds(s, delim, from);
    match spec_find(s, delim, from) {
        None => {},
        Some(i) => {
            lemma_find_bounds(s, delim, i + delim.len());
            if from <= i {
                lemma_wrap_match_bounds(s, delim, i + 1, dotall);
            }
        },
    }
}

/// One delimiter-wrapping pass: each leftmost wrapped span becomes its
/// content between `pre` and `post`, and the pass continues after it.
pub open spec fn wrap_pass(
    s: Seq<char>,
    delim: Seq<char>,
    pre: Seq<char>,
    post: Seq<char>,
    dotall: bool,
) -> Seq<char>
    decreases s.len(),
    via wrap_pass_dec
{
    if delim.len() < 1 {
        s
    } else {
        match wrap_match(s, delim, 0, dotall) {
            None => s,
            Some(m) => s.take(m.0) + pre + s.subrange(m.0 + delim.len(), m.1) + post + wrap_pass(
                s.skip(m.1 + delim.len()),
                delim,
                pre,
                post,
                dotall,
            ),
        }
    }
}

#[via_fn]
proof fn wrap_pass_dec(s: Seq<char>, delim: Seq<char>, pre: Seq<char>, post: Seq<char>,
    dotall: bool) {
    if delim.len() >= 1 {
        lemma_wrap_match_bounds(s, delim, 0, dotall);
    }
}

fn wrap_match_exec(v: &Vec<char>, delim: &Vec<char>, from: usize, dotall: bool) -> (r: Option<
    (usize, usize),
>)
    requires
        delim@.len() >= 1,
    ensures
        match r {
            Some(m) => wrap_match(v@, delim@, from as int, dotall) == Some(
                (m.0 as int, m.1 as int),
            ) && from <= m.0 && m.0 + delim@.len() <= m.1 && m.1 + delim@.len() <= v@.len(),
            None => wrap_match(v@, delim@, from as int, dotall) is None,
        },
    decreases v@.len() + 1 - from,
{
    proof {
        lemma_wrap_match_bounds(v@, delim@, from as int, dotall);
    }
    let n = v.len();
    let i = match find_sub(v, delim, from) {
        None => {
            return None;
        },
        Some(i) => i,
    };
    let start = i + delim.len();
    let p = match find_sub(v, delim, start) {
        None => {
            return None;
        },
        Some(p) => p,
    };
    if dotall {
        Some((i, p))
    } else {
        let newline: Vec<char> = vec!['\n'];
        proof {
            assert(newline@ =~= seq!['\n']);
        }
        match find_sub(v, &newline, start) {
            None => Some((i, p)),
            Some(nl) => {
                if p <= nl {
                    Some((i, p))
                } else {
                    wrap_match_exec(v, delim, i + 1, dotall)
                }
            },
        }
    }
}

fn wrap_pass_exec(
    v: &Vec<char>,
    delim: &Vec<char>,
    pre: &Vec<char>,
    post: &Vec<char>,
    dotall: bool,
) -> (r: Vec<char>)
    requires
        delim@.len() >= 1,
    ensures
        r@ == wrap_pass(v@, delim@, pre@, post@, dotall),
    decreases v@.len(),
{
    match wrap_match_exec(v, delim, 0, dotall) {
        None => {
            let r = vec_slice(v, 0, v.len());
            proof {
                assert(v@.subrange(0, v@.len() as int) =~= v@);
            }
            r
        },
        Some((i, p)) => {
            let n = v.len();
            let dl = delim.len();
            let mut out = vec_slice(v, 0, i);
            proof {
                assert(v@.subrange(0, i as int) =~= v@.take(i as int));
            }
            vec_extend(&mut out, pre);
            let body = vec_slice(v, i + dl, p);
            vec_extend(&mut out, &body);
            vec_extend(&mut out, post);
            let tail = vec_slice(v, p + dl, n);
            proof {
                assert(v@.subrange(p + dl as int, v@.len() as int) =~= v@.skip(p + dl as int));
            }
            let rest = wrap_pass_exec(&tail, delim, pre, post, dotall);
            vec_extend(&mut out, &rest);
            out
        },
    }
}

/// The leftmost link at or after `from`: bracketed text followed at once by
/// parenthesized text, all on one line.
pub open spec fn link_match(s: Seq<char>, from: int) -> Option<(int, int, int)>
    decreases s.len() + 1 - from,
    via link_match_dec
{
    match spec_find(s, seq!['['], from) {
        None => None,
        Some(i) => match spec_find(s, seq![']', '('], i + 1) {
            None => None,
            Some(j) => match spec_find(s, seq![')'], j + 2) {
                None => None,
                Some(k) => {
                    let nl = spec_find(s, seq!['\n'], i + 1);
                    if nl is None || k <= nl.unwrap() {
                        Some((i, j, k))
                    } else {
                        link_match(s, i + 1)
                    }
                },
            },
        },
    }
}

#[via_fn]
proof fn link_match_dec(s: Seq<char>, from: int) {
    lemma_find_bounds(s, seq!['['], from);
}

/// Any link match lies within `s`, in order.
pub proof fn lemma_link_match_bounds(s: Seq<char>, from: int)
    ensures
        match link_match(s, from) {
            Some(m) => from <= m.0 && m.0 < m.1 && m.1 + 2 <= m.2 && m.2 < s.len(),
            None => true,
        },
    decreases s.len() + 1 - from,
{
    lemma_find_bounds(s, seq!['['], from);
    match spec_find(s, seq!['['], from) {
        None => {},
        Some(i) => {
            lemma_find_bounds(s, seq![']', '('], i + 1);
            match spec_find(s, seq![']', '('], i + 1) {
                None => {},
                Some(j) => {
                    lemma_find_bounds(s, seq![')'], j + 2);
                    if from <= i {
                        lemma_link_match_bounds(s, i + 1);
                    }
                },
            }
        },
    }
}

/// The link pass: `[text](address)` becomes `[url=address]text[/url]`.
pub open spec fn link_pass(s: Seq<char>) -> Seq<char>
    decreases s.len(),
    via link_pass_dec
{
    match link_match(s, 0) {
        None => s,
        Some(m) => s.take(m.0) + "[url="@ + s.subrange(m.1 + 2, m.2) + "]"@ + s.subrange(
            m.0 + 1,
            m.1,
        ) + "[/url]"@ + link_pass(s.skip(m.2 + 1)),
    }
}

#[via_fn]
proof fn link_pass_dec(s: Seq<char>) {
    lemma_link_match_bounds(s, 0);
}

fn link_match_exec(v: &Vec<char>, from: usize) -> (r: Option<(usize, usize, usize)>)
    ensures
        match r {
            Some(m) => link_match(v@, from as int) == Some((m.0 as int, m.1 as int, m.2 as int))
                && from <= m.0 && m.0 < m.1 && m.1 + 2 <= m.2 && m.2 < v@.len(),
            None => link_match(v@, from as int) is None,
        },
    decreases v@.len() + 1 - from,
{
    proof {
        lemma_link_match_bounds(v@, from as int);
    }
    let n = v.len();
    let open: Vec<char> = vec!['['];
    let mid: Vec<char> = vec![']', '('];
    let close: Vec<char> = vec![')'];
    let newline: Vec<char> = vec!['\n'];
    proof {
        assert(open@ =~= seq!['[']);
        assert(mid@ =~= seq![']', '(']);
        assert(close@ =~= seq![')']);
        assert(newline@ =~= seq!['\n']);
    }
    let i = match find_sub(v, &open, from) {
        None => {
            return None;
        },
        Some(i) => i,
    };
    let j = match find_sub(v, &mid, i + 1) {
        None => {
            return None;
        },
        Some(j) => j,
    };
    let k = match find_sub(v, &close, j + 2) {
        None => {
            return None;
        },
        Some(k) => k,
    };
    match find_sub(v, &newline, i + 1) {
        None => Some((i, j, k)),
        Some(nl) => {
            if k <= nl {
                Some((i, j, k))
            } else {
                link_match_exec(v, i + 1)
            }
        },
    }
}

fn link_pass_exec(v: &Vec<char>) -> (r: Vec<char>)
    ensures
        r@ == link_pass(v@),
    decreases v@.len(),
{
    match link_match_exec(v, 0) {
        None => {
            let r = vec_slice(v, 0, v.len());
            proof {
                assert(v@.subrange(0, v@.len() as int) =~= v@);
            }
            r
        },
        Some((i, j, k)) => {
            let n = v.len();
            let mut out = vec_slice(v, 0, i);
            proof {
                assert(v@.subrange(0, i as int) =~= v@.take(i as int));
            }
            crate::text::vec_extend_str(&mut out, "[url=");
            let address = vec_slice(v, j + 2, k);
            vec_extend(&mut out, &address);
            crate::text::vec_extend_str(&mut out, "]");
            let text = vec_slice(v, i + 1, j);
            vec_extend(&mut out, &text);
            crate::text::vec_extend_str(&mut out, "[/url]");
            let tail = vec_slice(v, k + 1, n);
            proof {
                assert(v@.subrange(k + 1 as int, v@.len() as int) =~= v@.skip(k + 1 as int));
            }
            let rest = link_pass_exec(&tail);
            vec_extend(&mut out, &rest);
            out
        },
    }
}

/// The leftmost heading anchor at or after `from`: the string start (on the
/// first pass only) or a line break, followed at once by the marker.
pub open spec fn heading_find(s: Seq<char>, marker: Seq<char>, from: int, allow_start: bool)
    -> Option<int>
    decreases s.len() + 1 - from,
{
    if from < 0 || from > s.len() {
        None
    } else if from == 0 && allow_start && matches_at(s, marker, 0) {
        Some(0)
    } else if from < s.len() && s[from] == '\n' && matches_at(s, marker, from + 1) {
        Some(from)
    } else if from < s.len() {
        heading_find(s, marker, from + 1, allow_start)
    } else {
        None
    }
}

proof fn lemma_heading_find_bounds(s: Seq<char>, marker: Seq<char>, from: int, allow_start: bool)
    ensures
        match heading_find(s, marker, from, allow_start) {
            Some(i) => from <= i && i <= s.len() && (i == 0 && allow_start && matches_at(
                s,
                marker,
                0,
            ) || (i < s.len() && s[i] == '\n' && matches_at(s, marker, i + 1))),
            None => true,
        },
    decreases s.len() + 1 - from,
{
    if 0 <= from <= s.len() {
        if from == 0 && allow_start && matches_at(s, marker, 0) {
        } else if from < s.len() && s[from] == '\n' && matches_at(s, marker, from + 1) {
        } else if from < s.len() {
            lemma_heading_find_bounds(s, marker, from + 1, allow_start);
        }
    }
}

/// One heading pass: an anchored marker and the rest of its line become the
/// line's text between `pre` and `post`, the anchor kept.
pub open spec fn heading_pass(
    s: Seq<char>,
    marker: Seq<char>,
    pre: Seq<char>,
    post: Seq<char>,
    allow_start: bool,
) -> Seq<char>
    decreases s.len(),
    via heading_pass_dec
{
    if marker.len() < 1 {
        s
    } else {
        match heading_find(s, marker, 0, allow_start) {
            None => s,
            Some(i) => {
                let cs = if i == 0 && allow_start && matches_at(s, marker, 0) {
                    marker.len() as int
                } else {
                    i + 1 + marker.len()
                };
                let e = match spec_find(s, seq!['\n'], cs) {
                    None => s.len() as int,
                    Some(nl) => nl,
                };
                s.take(cs - marker.len()) + pre + s.subrange(cs, e) + post + heading_pass(
                    s.skip(e),
                    marker,
                    pre,
                    post,
                    false,
                )
            },
        }
    }
}

#[via_fn]
proof fn heading_pass_dec(s: Seq<char>, marker: Seq<char>, pre: Seq<char>, post: Seq<char>,
    allow_start: bool) {
    if marker.len() >= 1 {
        lemma_heading_find_bounds(s, marker, 0, allow_start);
        match heading_find(s, marker, 0, allow_start) {
            None => {},
            Some(i) => {
                let cs = if i == 0 && allow_start && matches_at(s, marker, 0) {
                    marker.len() as int
                } else {
                    i + 1 + marker.len()
                };
                lemma_find_bounds(s, seq!['\n'], cs);
            },
        }
    }
}

fn heading_find_exec(v: &Vec<char>, marker: &Vec<char>, allow_start: bool) -> (r: Option<usize>)
    requires
        marker@.len() >= 1,
    ensures
        match r {
            Some(i) => heading_find(v@, marker@, 0, allow_start) == Some(i as int) && i
                <= v@.len() && (i == 0 && allow_start && matches_at(v@, marker@, 0) || (i
                < v@.len() && v@[i as int] == '\n' && matches_at(v@, marker@, i + 1))),
            None => heading_find(v@, marker@, 0, allow_start) is None,
        },
{
    proof {
        lemma_heading_find_bounds(v@, marker@, 0, allow_start);
    }
    let n = v.len();
    let m = marker.len();
    if allow_start && m <= n {
        if crate::text::check_match(v, marker, 0) {
            return Some(0);
        }
    }
    let mut i: usize = 0;
    while i < n
        invariant
            i <= n,
            n == v@.len(),
            m == marker@.len(),
            1 <= m,
            !(allow_start && matches_at(v@, marker@, 0)),
            heading_find(v@, marker@, 0, allow_start) == heading_find(
                v@,
                marker@,
                i as int,
                allow_start,
            ),
        decreases n - i,
    {
        if v[i] == '\n' && m <= n - i - 1 {
            if crate::text::check_match(v, marker, i + 1) {
                return Some(i);
            }
        }
        proof {
            if i < n && v@[i as int] == '\n' && m > n - i - 1 {
                assert(!matches_at(v@, marker@, i + 1 as int));
            }
        }
        i = i + 1;
    }
    None
}

fn heading_pass_exec(
    v: &Vec<char>,
    marker: &Vec<char>,
    pre: &Vec<char>,
    post: &Vec<char>,
    allow_start: bool,
) -> (r: Vec<char>)
    requires
        marker@.len() >= 1,
    ensures
        r@ == heading_pass(v@, marker@, pre@, post@, allow_start),
    decreases v@.len(),
{
    let n = v.len();
    let m = marker.len();
    match heading_find_exec(v, marker, allow_start) {
        None => {
            let r = vec_slice(v, 0, n);
            proof {
                assert(v@.subrange(0, v@.len() as int) =~= v@);
            }
            r
        },
        Some(i) => {
            let at_start = if i == 0 && allow_start && m <= n {
                crate::text::check_match(v, marker, 0)
            } else {
                false
            };
            proof {
                if i == 0 && allow_start && m > n {
                    assert(!matches_at(v@, marker@, 0));
                }
            }
            let cs: usize = if at_start {
                m
            } else {
                i + 1 + m
            };
            let newline: Vec<char> = vec!['\n'];
            proof {
                assert(newline@ =~= seq!['\n']);
                lemma_find_bounds(v@, seq!['\n'], cs as int);
            }
            let e: usize = match find_sub(v, &newline, cs) {
                None => n,
                Some(nl) => nl,
            };
            let mut out = vec_slice(v, 0, cs - m);
            proof {
                assert(v@.subrange(0, cs - m as int) =~= v@.take(cs - marker@.len() as int));
            }
            vec_extend(&mut out, pre);
            let body = vec_slice(v, cs, e);
            vec_extend(&mut out, &body);
            vec_extend(&mut out, post);
            let tail = vec_slice(v, e, n);
            proof {
                assert(v@.subrange(e as int, v@.len() as int) =~= v@.skip(e as int));
            }
            let rest = heading_pass_exec(&tail, marker, pre, post, false);
            vec_extend(&mut out, &rest);
            out
        },
    }
}

/// The whole conversion, one pass after another.
pub open spec fn spec_convert(s: Seq<char>) -> Seq<char> {
    let s1 = link_pass(s);
    let s2 = wrap_pass(s1, "```"@, "[code]"@, "[/code]"@, true);
    let s3 = wrap_pass(s2, "``"@, "[code]"@, "[/code]"@, true);
    let s4 = wrap_pass(s3, "`"@, "[code]"@, "[/code]"@, false);
    let s5 = heading_pass(s4, "##"@, "[b]"@, "[/b]"@, true);
    let s6 = heading_pass(s5, "#"@, "[h1]"@, "[/h1]"@, true);
    let s7 = wrap_pass(s6, "**"@, "[b]"@, "[/b]"@, false);
    let s8 = wrap_pass(s7, "*"@, "[i]"@, "[/i]"@, false);
    wrap_pass(s8, "~~"@, "[strike]"@, "[/strike]"@, false)
}

/// Converts markdown to the bbcode a workshop description uses.
pub fn convert(s: &str) -> (r: String)
    ensures
        r@ == spec_convert(s@),
{
    proof {
        reveal_strlit("```");
        reveal_strlit("``");
        reveal_strlit("`");
        reveal_strlit("##");
        reveal_strlit("#");
        reveal_strlit("**");
        reveal_strlit("*");
        reveal_strlit("~~");
    }
    let v = str_chars(s);
    let s1 = link_pass_exec(&v);
    let s2 = wrap_pass_exec(&s1, &str_chars("```"), &str_chars("[code]"), &str_chars("[/code]"),
        true);
    let s3 = wrap_pass_exec(&s2, &str_chars("``"), &str_chars("[code]"), &str_chars("[/code]"),
        true);
    let s4 = wrap_pass_exec(&s3, &str_chars("`"), &str_chars("[code]"), &str_chars("[/code]"),
        false);
    let s5 = heading_pass_exec(&s4, &str_chars("##"), &str_chars("[b]"), &str_chars("[/b]"),
        true);
    let s6 = heading_pass_exec(&s5, &str_chars("#"), &str_chars("[h1]"), &str_chars("[/h1]"),
        true);
    let s7 = wrap_pass_exec(&s6, &str_chars("**"), &str_chars("[b]"), &str_chars("[/b]"), false);
    let s8 = wrap_pass_exec(&s7, &str_chars("*"), &str_chars("[i]"), &str_chars("[/i]"), false);
    let s9 = wrap_pass_exec(&s8, &str_chars("~~"), &str_chars("[strike]"), &str_chars("[/strike]"),
        false);
    string_from_chars(s9)
}

} // verus!
