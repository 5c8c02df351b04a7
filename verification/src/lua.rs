//! The legacy marker-file grammar: a sequence of `key = "value"` or
//! `key = [==[ value ]==]` declarations, as the old settings files wrote
//! them.  Identifiers are ASCII letters, digits and underscores; scanning
//! stops silently at the first text that fits neither form.
use vstd::prelude::*;

use crate::item::spec_word_char;
use crate::text::{str_chars, string_from_chars, vec_slice, spec_find, find_sub, lemma_find_bounds};
use crate::seqs::{lemma_push_singleton, lemma_concat_assoc};

verus! {

/// The whitespace characters the grammar skips between tokens.
pub open spec fn spec_is_space(c: char) -> bool {
    c == ' ' || c == '\t' || c == '\r' || c == '\n'
}

/// The first position at or after `i` that is not whitespace.
pub open spec fn spec_skip_ws(s: Seq<char>, i: int) -> int
    decreases s.len() - i,
{
    if 0 <= i < s.len() && spec_is_space(s[i]) {
        spec_skip_ws(s, i + 1)
    } else {
        i
    }
}

/// The end of the identifier run starting at `i`.
pub open spec fn spec_ident_end(s: Seq<char>, i: int) -> int
    decreases s.len() - i,
{
    if 0 <= i < s.len() && spec_word_char(s[i]) {
        spec_ident_end(s, i + 1)
    } else {
        i
    }
}

/// The end of the `=` run starting at `i`.
pub open spec fn spec_eq_end(s: Seq<char>, i: int) -> int
    decreases s.len() - i,
{
    if 0 <= i < s.len() && s[i] == '=' {
        spec_eq_end(s, i + 1)
    } else {
        i
    }
}

/// A run of `n` equals signs.
pub open spec fn spec_eqs(n: nat) -> Seq<char>
    decreases n,
{
    if n == 0 {
        Seq::empty()
    } else {
        spec_eqs((n - 1) as nat).push('=')
    }
}

/// The closer of a long-bracket value opened with `n` equals signs.
pub open spec fn spec_closer(n: nat) -> Seq<char> {
    seq![']'] + spec_eqs(n) + seq![']']
}

proof fn lemma_skip_ws_bounds(s: Seq<char>, i: int)
    requires
        0 <= i <= s.len(),
    ensures
        i <= spec_skip_ws(s, i) <= s.len(),
    decreases s.len() - i,
{
    if i < s.len() && spec_is_space(s[i]) {
        lemma_skip_ws_bounds(s, i + 1);
    }
}

proof fn lemma_ident_end_bounds(s: Seq<char>, i: int)
    requires
        0 <= i <= s.len(),
    ensures
        i <= spec_ident_end(s, i) <= s.len(),
    decreases s.len() - i,
{
    if i < s.len() && spec_word_char(s[i]) {
        lemma_ident_end_bounds(s, i + 1);
    }
}

proof fn lemma_eq_end_bounds(s: Seq<char>, i: int)
    requires
        0 <= i <= s.len(),
    ensures
        i <= spec_eq_end(s, i) <= s.len(),
    decreases s.len() - i,
{
    if i < s.len() && s[i] == '=' {
        lemma_eq_end_bounds(s, i + 1);
    }
}

/// One declaration parsed at position `i`: its key, its value, and the
/// position just past it.
pub open spec fn spec_decl(s: Seq<char>, i: int) -> Option<(Seq<char>, Seq<char>, int)> {
    let k0 = spec_skip_ws(s, i);
    let k1 = spec_ident_end(s, k0);
    let e = spec_skip_ws(s, k1);
    if !(0 <= e < s.len() && s[e] == '=') {
        None
    } else {
        let key = s.subrange(k0, k1);
        let v0 = spec_skip_ws(s, e + 1);
        if v0 < s.len() && s[v0] == '"' {
            match spec_find(s, seq!['"'], v0 + 1) {
                Some(q) => Some((key, s.subrange(v0 + 1, q), q + 1)),
                None => None,
            }
        } else if v0 < s.len() && s[v0] == '[' {
            let l1 = spec_eq_end(s, v0 + 1);
            if l1 < s.len() && s[l1] == '[' {
                let closer = spec_closer((l1 - v0 - 1) as nat);
                match spec_find(s, closer, l1 + 1) {
                    Some(c) => Some((key, s.subrange(l1 + 1, c), c + closer.len())),
                    None => None,
                }
            } else {
                None
            }
        } else {
            None
        }
    }
}

/// Any parsed declaration lies within `s` and past `i`.
pub proof fn lemma_decl_bounds(s: Seq<char>, i: int)
    requires
        0 <= i <= s.len(),
    ensures
        match spec_decl(s, i) {
            Some(d) => i < d.2 <= s.len(),
            None => true,
        },
{
    lemma_skip_ws_bounds(s, i);
    let k0 = spec_skip_ws(s, i);
    lemma_ident_end_bounds(s, k0);
    let k1 = spec_ident_end(s, k0);
    lemma_skip_ws_bounds(s, k1);
    let e = spec_skip_ws(s, k1);
    if 0 <= e < s.len() && s[e] == '=' {
        lemma_skip_ws_bounds(s, e + 1);
        let v0 = spec_skip_ws(s, e + 1);
        if v0 < s.len() && s[v0] == '"' {
            lemma_find_bounds(s, seq!['"'], v0 + 1);
        } else if v0 < s.len() && s[v0] == '[' {
            lemma_eq_end_bounds(s, v0 + 1);
            let l1 = spec_eq_end(s, v0 + 1);
            if l1 < s.len() && s[l1] == '[' {
                let closer = spec_closer((l1 - v0 - 1) as nat);
                lemma_find_bounds(s, closer, l1 + 1);
            }
        }
    }
}

/// All declarations from position `i` on, in order; scanning stops at the
/// first position where none parses.
pub open spec fn spec_decls(s: Seq<char>, i: int) -> Seq<(Seq<char>, Seq<char>)>
    decreases s.len() - i,
    via spec_decls_dec
{
    if !(0 <= i <= s.len()) {
        Seq::empty()
    } else {
        match spec_decl(s, i) {
            None => Seq::empty(),
            Some(d) => seq![(d.0, d.1)] + spec_decls(s, d.2),
        }
    }
}

#[via_fn]
proof fn spec_decls_dec(s: Seq<char>, i: int) {
    if 0 <= i <= s.len() {
        lemma_decl_bounds(s, i);
    }
}

/// What parsing a settings text yields: its declarations, in order.
pub open spec fn spec_parse(s: Seq<char>) -> Seq<(Seq<char>, Seq<char>)> {
    spec_decls(s, 0)
}

/// The views of parsed pairs.
pub open spec fn pairs_v(s: Seq<(String, String)>) -> Seq<(Seq<char>, Seq<char>)> {
    s.map_values(|p: (String, String)| (p.0@, p.1@))
}

fn skip_ws(v: &Vec<char>, i: usize) -> (r: usize)
    requires
        i <= v@.len(),
    ensures
        r as int == spec_skip_ws(v@, i as int),
        i <= r <= v@.len(),
{
    let n = v.len();
    let mut j: usize = i;
    while j < n
        invariant
            i <= j <= n,
            n == v@.len(),
            spec_skip_ws(v@, i as int) == spec_skip_ws(v@, j as int),
        decreases n - j,
    {
        let c = v[j];
        if !(c == ' ' || c == '\t' || c == '\r' || c == '\n') {
            return j;
        }
        j = j + 1;
    }
    j
}

fn ident_end(v: &Vec<char>, i: usize) -> (r: usize)
    requires
        i <= v@.len(),
    ensures
        r as int == spec_ident_end(v@, i as int),
        i <= r <= v@.len(),
{
    let n = v.len();
    let mut j: usize = i;
    while j < n
        invariant
            i <= j <= n,
            n == v@.len(),
            spec_ident_end(v@, i as int) == spec_ident_end(v@, j as int),
        decreases n - j,
    {
        let c = v[j];
        if !(('0' <= c && c <= '9') || ('a' <= c && c <= 'z') || ('A' <= c && c <= 'Z') || c
            == '_') {
            return j;
        }
        j = j + 1;
    }
    j
}

fn eq_end(v: &Vec<char>, i: usize) -> (r: usize)
    requires
        i <= v@.len(),
    ensures
        r as int == spec_eq_end(v@, i as int),
        i <= r <= v@.len(),
{
    let n = v.len();
    let mut j: usize = i;
    while j < n
        invariant
            i <= j <= n,
            n == v@.len(),
            spec_eq_end(v@, i as int) == spec_eq_end(v@, j as int),
        decreases n - j,
    {
        if v[j] != '=' {
            return j;
        }
        j = j + 1;
    }
    j
}

fn make_closer(n: usize) -> (r: Vec<char>)
    ensures
        r@ == spec_closer(n as nat),
        r@.len() == n + 2,
{
    let mut r: Vec<char> = Vec::new();
    r.push(']');
    let mut k: usize = 0;
    while k < n
        invariant
            k <= n,
            r@ == seq![']'] + spec_eqs(k as nat),
        decreases n - k,
    {
        r.push('=');
        proof {
            assert(r@ =~= seq![']'] + spec_eqs((k + 1) as nat));
        }
        k = k + 1;
    }
    r.push(']');
    proof {
        assert(r@ =~= spec_closer(n as nat));
        lemma_eqs_len(n as nat);
    }
    r
}

proof fn lemma_eqs_len(n: nat)
    ensures
        spec_eqs(n).len() == n,
    decreases n,
{
    if n > 0 {
        lemma_eqs_len((n - 1) as nat);
    }
}

fn decl(v: &Vec<char>, i: usize) -> (r: Option<(String, String, usize)>)
    requires
        i <= v@.len(),
    ensures
        match r {
            Some(d) => spec_decl(v@, i as int) == Some((d.0@, d.1@, d.2 as int)) && i < d.2
                <= v@.len(),
            None => spec_decl(v@, i as int) is None,
        },
{
    proof {
        lemma_decl_bounds(v@, i as int);
    }
    let n = v.len();
    let k0 = skip_ws(v, i);
    let k1 = ident_end(v, k0);
    let e = skip_ws(v, k1);
    if !(e < n && v[e] == '=') {
        return None;
    }
    let key = string_from_chars(vec_slice(v, k0, k1));
    let v0 = skip_ws(v, e + 1);
    if v0 < n && v[v0] == '"' {
        let quote: Vec<char> = vec!['"'];
        proof {
            assert(quote@ =~= seq!['"']);
        }
        match find_sub(v, &quote, v0 + 1) {
            Some(q) => {
                let val = string_from_chars(vec_slice(v, v0 + 1, q));
                Some((key, val, q + 1))
            },
            None => None,
        }
    } else if v0 < n && v[v0] == '[' {
        let l1 = eq_end(v, v0 + 1);
        if l1 < n && v[l1] == '[' {
            let closer = make_closer(l1 - v0 - 1);
            match find_sub(v, &closer, l1 + 1) {
                Some(c) => {
                    let val = string_from_chars(vec_slice(v, l1 + 1, c));
                    Some((key, val, c + closer.len()))
                },
                None => None,
            }
        } else {
            None
        }
    } else {
        None
    }
}

proof fn lemma_pairs_v_push(s: Seq<(String, String)>, p: (String, String))
    ensures
        pairs_v(s.push(p)) == pairs_v(s).push((p.0@, p.1@)),
{
    assert(pairs_v(s.push(p)) =~= pairs_v(s).push((p.0@, p.1@)));
}

/// Reads every `key = value` declaration of a settings text, in order.
pub fn parse(input: &str) -> (r: Vec<(String, String)>)
    ensures
        pairs_v(r@) == spec_parse(input@),
{
    let v = str_chars(input);
    let mut out: Vec<(String, String)> = Vec::new();
    let mut i: usize = 0;
    proof {
        assert(pairs_v(out@) =~= Seq::<(Seq<char>, Seq<char>)>::empty());
        assert(Seq::<(Seq<char>, Seq<char>)>::empty() + spec_decls(v@, 0) =~= spec_decls(v@, 0));
    }
    loop
        invariant
            i <= v@.len(),
            spec_parse(v@) == pairs_v(out@) + spec_decls(v@, i as int),
            v@ == input@,
        decreases v@.len() - i,
    {
        match decl(&v, i) {
            None => {
                proof {
                    assert(spec_decls(v@, i as int) =~= Seq::<(Seq<char>, Seq<char>)>::empty());
                    assert(pairs_v(out@) + Seq::<(Seq<char>, Seq<char>)>::empty() =~= pairs_v(
                        out@,
                    ));
                }
                return out;
            },
            Some((key, val, next)) => {
                let ghost pairsv = pairs_v(out@);
                let ghost kv = (key@, val@);
                out.push((key, val));
                proof {
                    let p = out@.last();
                    assert(out@ == out@.drop_last().push(p));
                    lemma_pairs_v_push(out@.drop_last(), p);
                    assert(pairs_v(out@) == pairsv.push(kv));
                    lemma_push_singleton(pairsv, kv);
                    lemma_concat_assoc(pairsv, seq![kv], spec_decls(v@, next as int));
                    assert(seq![kv] + spec_decls(v@, next as int) == spec_decls(v@, i as int));
                }
                i = next;
            },
        }
    }
}

/// The value of the last declaration with the given key, as a map built
/// from the pairs would hold it.
pub open spec fn spec_lookup(ps: Seq<(Seq<char>, Seq<char>)>, key: Seq<char>) -> Option<Seq<char>>
    decreases ps.len(),
{
    if ps.len() == 0 {
        None
    } else if ps.last().0 == key {
        Some(ps.last().1)
    } else {
        spec_lookup(ps.drop_last(), key)
    }
}

/// Finds the value declared for `key`, the last declaration winning.
pub fn lookup(pairs: &Vec<(String, String)>, key: &str) -> (r: Option<String>)
    ensures
        match r {
            Some(val) => spec_lookup(pairs_v(pairs@), key@) == Some(val@),
            None => spec_lookup(pairs_v(pairs@), key@) is None,
        },
{
    let kc = str_chars(key);
    let mut i: usize = pairs.len();
    proof {
        assert(pairs_v(pairs@).take(i as int) =~= pairs_v(pairs@));
    }
    while i > 0
        invariant
            i <= pairs@.len(),
            kc@ == key@,
            spec_lookup(pairs_v(pairs@), key@) == spec_lookup(
                pairs_v(pairs@).take(i as int),
                key@,
            ),
        decreases i,
    {
        let pk = str_chars(pairs[i - 1].0.as_str());
        let mut eq: bool = pk.len() == kc.len();
        if eq {
            let m = crate::text::check_match(&pk, &kc, 0);
            proof {
                assert(pk@.subrange(0, kc@.len() as int) =~= pk@);
            }
            eq = m;
        }
        proof {
            assert(eq == (pk@ == kc@));
        }
        proof {
            let pre = pairs_v(pairs@).take(i as int);
            assert(pre.last() == (pairs@[i - 1].0@, pairs@[i - 1].1@));
            assert(pre.last().0 == pairs@[i - 1].0@);
            assert(pk@ == pairs@[i - 1].0@);
            assert(kc@ == key@);
            assert(pre.drop_last() =~= pairs_v(pairs@).take(i - 1 as int));
        }
        if eq {
            proof {
                assert(pairs_v(pairs@).take(i as int).last().0 == key@);
            }
            return Some(pairs[i - 1].1.clone());
        }
        proof {
            assert(pairs_v(pairs@).take(i as int).last().0 != key@);
        }
        i = i - 1;
    }
    proof {
        assert(pairs_v(pairs@).take(0) =~= Seq::<(Seq<char>, Seq<char>)>::empty());
    }
    None
}

} // verus!
