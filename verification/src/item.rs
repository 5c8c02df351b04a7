//! Workshop item identifiers: a 64-bit id, its page address, exact decimal
//! and hexadecimal renderings, and the parser that accepts either a
//! hexadecimal id or an address carrying an `id=<digits>` query.
use vstd::prelude::*;

use crate::text::{str_chars, string_from_chars, vec_slice, spec_find, find_sub};

verus! {

/// A published workshop item, identified by its 64-bit id.
#[derive(Clone, Copy, PartialEq, Eq, Structural, Debug)]
pub struct Item(pub u64);

/// Failure to find any workshop item id in an input string.
#[derive(Clone, Copy, PartialEq, Eq, Structural, Debug)]
pub struct ItemParseError;

/// The decimal digit characters `0`..`9`.
pub open spec fn spec_dec_digit(d: nat) -> char {
    if d == 0 {
        '0'
    } else if d == 1 {
        '1'
    } else if d == 2 {
        '2'
    } else if d == 3 {
        '3'
    } else if d == 4 {
        '4'
    } else if d == 5 {
        '5'
    } else if d == 6 {
        '6'
    } else if d == 7 {
        '7'
    } else if d == 8 {
        '8'
    } else {
        '9'
    }
}

/// The decimal rendering of `n`, most significant digit first.
pub open spec fn spec_dec(n: nat) -> Seq<char>
    decreases n,
{
    if n < 10 {
        seq![spec_dec_digit(n)]
    } else {
        spec_dec(n / 10) + seq![spec_dec_digit(n % 10)]
    }
}

/// The uppercase hexadecimal digit characters.
pub open spec fn spec_hex_digit(d: nat) -> char {
    if d < 10 {
        spec_dec_digit(d)
    } else if d == 10 {
        'A'
    } else if d == 11 {
        'B'
    } else if d == 12 {
        'C'
    } else if d == 13 {
        'D'
    } else if d == 14 {
        'E'
    } else {
        'F'
    }
}

/// The uppercase hexadecimal rendering of `n`.
pub open spec fn spec_hex(n: nat) -> Seq<char>
    decreases n,
{
    if n < 16 {
        seq![spec_hex_digit(n)]
    } else {
        spec_hex(n / 16) + seq![spec_hex_digit(n % 16)]
    }
}

fn dec_digit(d: u64) -> (c: char)
    requires
        d < 10,
    ensures
        c == spec_dec_digit(d as nat),
{
    if d == 0 {
        '0'
    } else if d == 1 {
        '1'
    } else if d == 2 {
        '2'
    } else if d == 3 {
        '3'
    } else if d == 4 {
        '4'
    } else if d == 5 {
        '5'
    } else if d == 6 {
        '6'
    } else if d == 7 {
        '7'
    } else if d == 8 {
        '8'
    } else {
        '9'
    }
}

fn hex_digit(d: u64) -> (c: char)
    requires
        d < 16,
    ensures
        c == spec_hex_digit(d as nat),
{
    if d < 10 {
        dec_digit(d)
    } else if d == 10 {
        'A'
    } else if d == 11 {
        'B'
    } else if d == 12 {
        'C'
    } else if d == 13 {
        'D'
    } else if d == 14 {
        'E'
    } else {
        'F'
    }
}

fn push_dec(n: u64, out: &mut Vec<char>)
    ensures
        final(out)@ == old(out)@ + spec_dec(n as nat),
    decreases n,
{
    if n < 10 {
        out.push(dec_digit(n));
        proof {
            assert(old(out)@.push(spec_dec_digit(n as nat)) =~= old(out)@ + spec_dec(n as nat));
        }
    } else {
        push_dec(n / 10, out);
        out.push(dec_digit(n % 10));
        proof {
            assert(old(out)@ + spec_dec(n as nat / 10) + seq![spec_dec_digit(n as nat % 10)]
                =~= old(out)@ + spec_dec(n as nat));
            assert((old(out)@ + spec_dec(n as nat / 10)).push(spec_dec_digit(n as nat % 10))
                =~= old(out)@ + spec_dec(n as nat / 10) + seq![spec_dec_digit(n as nat % 10)]);
        }
    }
}

fn push_hex(n: u64, out: &mut Vec<char>)
    ensures
        final(out)@ == old(out)@ + spec_hex(n as nat),
    decreases n,
{
    if n < 16 {
        out.push(hex_digit(n));
        proof {
            assert(old(out)@.push(spec_hex_digit(n as nat)) =~= old(out)@ + spec_hex(n as nat));
        }
    } else {
        push_hex(n / 16, out);
        out.push(hex_digit(n % 16));
        proof {
            assert(old(out)@ + spec_hex(n as nat / 16) + seq![spec_hex_digit(n as nat % 16)]
                =~= old(out)@ + spec_hex(n as nat));
            assert((old(out)@ + spec_hex(n as nat / 16)).push(spec_hex_digit(n as nat % 16))
                =~= old(out)@ + spec_hex(n as nat / 16) + seq![spec_hex_digit(n as nat % 16)]);
        }
    }
}

/// The decimal rendering of `n`.
pub fn u64_to_dec(n: u64) -> (r: String)
    ensures
        r@ == spec_dec(n as nat),
{
    let mut out: Vec<char> = Vec::new();
    push_dec(n, &mut out);
    string_from_chars(out)
}

/// The uppercase hexadecimal rendering of `n`, as the item ids are written
/// in dependency paths and descriptions.
pub fn u64_to_hex_upper(n: u64) -> (r: String)
    ensures
        r@ == spec_hex(n as nat),
{
    let mut out: Vec<char> = Vec::new();
    push_hex(n, &mut out);
    string_from_chars(out)
}

/// The address of an item's workshop page.
pub open spec fn spec_item_url(id: nat) -> Seq<char> {
    "https://steamcommunity.com/sharedfiles/filedetails/?id="@ + spec_dec(id)
}

impl Item {
    /// The address of this item's workshop page.
    pub fn url(&self) -> (r: String)
        ensures
            r@ == spec_item_url(self.0 as nat),
    {
        let mut out = str_chars("https://steamcommunity.com/sharedfiles/filedetails/?id=");
        push_dec(self.0, &mut out);
        string_from_chars(out)
    }
}

/// The numeric value of a digit or letter character, as positional
/// notation reads it.
pub open spec fn spec_char_val(c: char) -> Option<nat> {
    if '0' <= c && c <= '9' {
        Some(((c as int) - ('0' as int)) as nat)
    } else if 'a' <= c && c <= 'z' {
        Some(((c as int) - ('a' as int) + 10) as nat)
    } else if 'A' <= c && c <= 'Z' {
        Some(((c as int) - ('A' as int) + 10) as nat)
    } else {
        None
    }
}

/// Whether `c` is a digit of the given base.
pub open spec fn spec_is_digit(c: char, base: nat) -> bool {
    match spec_char_val(c) {
        Some(v) => v < base,
        None => false,
    }
}

/// The value of a digit string in the given base, leftmost digit most
/// significant.
pub open spec fn spec_number(s: Seq<char>, base: nat) -> nat
    decreases s.len(),
{
    if s.len() == 0 {
        0
    } else {
        spec_number(s.take(s.len() - 1), base) * base + match spec_char_val(s[s.len() - 1]) {
            Some(v) => v,
            None => 0,
        }
    }
}

/// What parsing a run of digits as an unsigned 64-bit number yields: at
/// least one digit of the base, and a value that fits.
pub open spec fn spec_parse_digits(d: Seq<char>, base: nat) -> Option<u64> {
    if d.len() >= 1 && (forall|i: int| 0 <= i < d.len() ==> spec_is_digit(d[i], base))
        && spec_number(d, base) < 0x1_0000_0000_0000_0000 {
        Some(spec_number(d, base) as u64)
    } else {
        None
    }
}

/// What parsing an unsigned 64-bit number in the given base yields: an
/// optional sign, then at least one digit of the base, and a value that
/// fits — a `-` sign only with the value zero, negation being otherwise out
/// of range for an unsigned number.
pub open spec fn spec_parse_radix(s: Seq<char>, base: nat) -> Option<u64> {
    if s.len() > 0 && s[0] == '+' {
        spec_parse_digits(s.skip(1), base)
    } else if s.len() > 0 && s[0] == '-' {
        match spec_parse_digits(s.skip(1), base) {
            Some(v) => if v == 0 {
                Some(0)
            } else {
                None
            },
            None => None,
        }
    } else {
        spec_parse_digits(s, base)
    }
}

proof fn lemma_number_step(s: Seq<char>, base: nat, i: int)
    requires
        0 <= i < s.len(),
    ensures
        spec_number(s.take(i + 1), base) == spec_number(s.take(i), base) * base + match spec_char_val(
            s[i],
        ) {
            Some(v) => v,
            None => 0,
        },
{
    assert(s.take(i + 1).take(i) =~= s.take(i));
    assert(s.take(i + 1)[i] == s[i]);
}

proof fn lemma_number_mono(s: Seq<char>, base: nat, i: int, j: int)
    requires
        0 <= i <= j <= s.len(),
        base >= 1,
    ensures
        spec_number(s.take(i), base) <= spec_number(s.take(j), base),
    decreases j - i,
{
    if i < j {
        lemma_number_mono(s, base, i, j - 1);
        lemma_number_step(s, base, j - 1);
        assert(spec_number(s.take(j - 1), base) * base >= spec_number(s.take(j - 1), base) * 1)
            by (nonlinear_arith)
            requires
                base >= 1,
        ;
    }
}

fn char_val(c: char) -> (r: Option<u64>)
    ensures
        match r {
            Some(v) => spec_char_val(c) == Some(v as nat) && v < 36,
            None => spec_char_val(c) is None,
        },
{
    if '0' <= c && c <= '9' {
        Some((c as u32 - '0' as u32) as u64)
    } else if 'a' <= c && c <= 'z' {
        Some((c as u32 - 'a' as u32) as u64 + 10)
    } else if 'A' <= c && c <= 'Z' {
        Some((c as u32 - 'A' as u32) as u64 + 10)
    } else {
        None
    }
}

fn parse_radix_digits(v: &Vec<char>, from: usize, base: u64) -> (r: Option<u64>)
    requires
        from <= v@.len(),
        2 <= base <= 36,
    ensures
        r == spec_parse_digits(v@.skip(from as int), base as nat),
{
    let ghost d = v@.skip(from as int);
    let n = v.len();
    if from == n {
        assert(d.len() == 0);
        return None;
    }
    let mut acc: u64 = 0;
    let mut i: usize = from;
    while i < n
        invariant
            from <= i <= n,
            n == v@.len(),
            2 <= base <= 36,
            d == v@.skip(from as int),
            forall|j: int| 0 <= j < i - from ==> spec_is_digit(d[j], base as nat),
            acc as nat == spec_number(d.take(i - from), base as nat),
        decreases n - i,
    {
        let c = v[i];
        proof {
            assert(d[i - from] == c);
        }
        let dv = match char_val(c) {
            Some(x) => x,
            None => {
                return None;
            },
        };
        if dv >= base {
            return None;
        }
        let limit = (u64::MAX - dv) / base;
        proof {
            lemma_number_step(d, base as nat, i - from);
        }
        if acc > limit {
            proof {
                assert(acc * base + dv > u64::MAX) by (nonlinear_arith)
                    requires
                        acc > (u64::MAX - dv) / (base as int),
                        dv < base,
                        2 <= base,
                ;
                lemma_number_mono(d, base as nat, i + 1 - from, d.len() as int);
                assert(d.take(d.len() as int) =~= d);
            }
            return None;
        }
        proof {
            assert(acc * base + dv <= u64::MAX) by (nonlinear_arith)
                requires
                    acc <= (u64::MAX - dv) / (base as int),
                    dv < base,
                    2 <= base,
            ;
        }
        acc = acc * base + dv;
        i = i + 1;
    }
    proof {
        assert(d.take(d.len() as int) =~= d);
    }
    Some(acc)
}

/// Reads an unsigned 64-bit number in the given base: an optional sign,
/// then digits of the base; anything else, or a value out of range, reads
/// as nothing.
pub fn parse_u64_radix(s: &str, base: u64) -> (r: Option<u64>)
    requires
        2 <= base <= 36,
    ensures
        r == spec_parse_radix(s@, base as nat),
{
    let v = str_chars(s);
    if v.len() > 0 && v[0] == '-' {
        return match parse_radix_digits(&v, 1, base) {
            Some(n) => if n == 0 {
                Some(0)
            } else {
                None
            },
            None => None,
        };
    }
    let from: usize = if v.len() > 0 && v[0] == '+' {
        1
    } else {
        0
    };
    proof {
        if from == 0 {
            assert(v@.skip(0) =~= v@);
        }
    }
    let r = parse_radix_digits(&v, from, base);
    r
}

/// An ASCII word character, as the boundary after a captured digit run is
/// judged: letters, digits and the underscore.
pub open spec fn spec_word_char(c: char) -> bool {
    ('0' <= c && c <= '9') || ('a' <= c && c <= 'z') || ('A' <= c && c <= 'Z') || c == '_'
}

/// The end of the run of decimal digits starting at `i`.
pub open spec fn spec_digit_end(s: Seq<char>, i: int) -> int
    decreases s.len() - i,
{
    if 0 <= i < s.len() && '0' <= s[i] && s[i] <= '9' {
        spec_digit_end(s, i + 1)
    } else {
        i
    }
}

/// What scanning an address for `id=<digits>` captures, searching from
/// position `from`: at the first `id=` occurrence, the digit run that
/// follows, provided a word boundary closes it; an empty capture where the
/// run is closed by a word character; and at an occurrence followed by
/// neither digits nor a word character, the scan moves on.
pub open spec fn spec_id_capture(s: Seq<char>, from: int) -> Option<Seq<char>>
    decreases s.len() - from,
    via spec_id_capture_dec
{
    match spec_find(s, seq!['i', 'd', '='], from) {
        None => None,
        Some(o) => {
            let start = o + 3;
            let end = spec_digit_end(s, start);
            if end > start {
                if end == s.len() || !spec_word_char(s[end]) {
                    Some(s.subrange(start, end))
                } else {
                    Some(Seq::empty())
                }
            } else {
                if start < s.len() && spec_word_char(s[start]) {
                    Some(Seq::empty())
                } else {
                    spec_id_capture(s, o + 1)
                }
            }
        },
    }
}

#[via_fn]
proof fn spec_id_capture_dec(s: Seq<char>, from: int) {
    crate::text::lemma_find_bounds(s, seq!['i', 'd', '='], from);
}

/// What parsing an item reference yields: the whole input read as a
/// hexadecimal id, or else the decimal digits captured from an `id=` query.
pub open spec fn spec_item_from_str(s: Seq<char>) -> Option<u64> {
    match spec_parse_radix(s, 16) {
        Some(v) => Some(v),
        None => match spec_id_capture(s, 0) {
            Some(cap) => spec_parse_digits(cap, 10),
            None => None,
        },
    }
}

fn is_dec_digit_char(c: char) -> (r: bool)
    ensures
        r == ('0' <= c && c <= '9'),
{
    '0' <= c && c <= '9'
}

fn is_word_char(c: char) -> (r: bool)
    ensures
        r == spec_word_char(c),
{
    ('0' <= c && c <= '9') || ('a' <= c && c <= 'z') || ('A' <= c && c <= 'Z') || c == '_'
}

fn digit_end(v: &Vec<char>, start: usize) -> (r: usize)
    requires
        start <= v@.len(),
    ensures
        r as int == spec_digit_end(v@, start as int),
        start <= r <= v@.len(),
{
    let n = v.len();
    let mut i: usize = start;
    while i < n
        invariant
            start <= i <= n,
            n == v@.len(),
            spec_digit_end(v@, start as int) == spec_digit_end(v@, i as int),
        decreases n - i,
    {
        if !is_dec_digit_char(v[i]) {
            return i;
        }
        i = i + 1;
    }
    i
}

fn id_capture(v: &Vec<char>, from: usize) -> (r: Option<Vec<char>>)
    requires
        from <= v@.len(),
    ensures
        match r {
            Some(cap) => spec_id_capture(v@, from as int) == Some(cap@),
            None => spec_id_capture(v@, from as int) is None,
        },
    decreases v@.len() - from,
{
    let n = v.len();
    let pat: Vec<char> = vec!['i', 'd', '='];
    assert(pat@ =~= seq!['i', 'd', '=']);
    let o = match find_sub(v, &pat, from) {
        None => {
            return None;
        },
        Some(o) => o,
    };
    assert(o + 3 <= n);
    let start = o + 3;
    let end = digit_end(v, start);
    if end > start {
        if end == n || !is_word_char(v[end]) {
            Some(vec_slice(v, start, end))
        } else {
            Some(Vec::new())
        }
    } else {
        if start < n && is_word_char(v[start]) {
            Some(Vec::new())
        } else {
            id_capture(v, o + 1)
        }
    }
}

impl Item {
    /// Reads an item reference: the whole input as a hexadecimal id, or
    /// else the decimal id captured from an `id=<digits>` query in an
    /// address; anything else holds no item id.
    pub fn parse_str(s: &str) -> (r: Result<Item, ItemParseError>)
        ensures
            match r {
                Ok(item) => spec_item_from_str(s@) == Some(item.0),
                Err(_) => spec_item_from_str(s@) is None,
            },
    {
        let v = str_chars(s);
        match parse_u64_radix(s, 16) {
            Some(n) => Ok(Item(n)),
            None => {
                match id_capture(&v, 0) {
                    Some(cap) => {
                        match parse_radix_digits(&cap, 0, 10) {
                            Some(n) => {
                                proof {
                                    assert(cap@.skip(0) =~= cap@);
                                }
                                Ok(Item(n))
                            },
                            None => {
                                proof {
                                    assert(cap@.skip(0) =~= cap@);
                                }
                                Err(ItemParseError)
                            },
                        }
                    },
                    None => Err(ItemParseError),
                }
            },
        }
    }
}

} // verus!
