//! The update-timestamp record: a 64-bit count of seconds, stored as eight
//! little-endian bytes, and the decision it drives — whether a remote item's
//! local copy is outdated.
use vstd::prelude::*;

verus! {

/// The value of little-endian bytes, least significant first.
pub open spec fn spec_le_value(b: Seq<u8>) -> nat
    decreases b.len(),
{
    if b.len() == 0 {
        0
    } else {
        (b[0] + 256 * spec_le_value(b.skip(1))) as nat
    }
}

/// Encodes a timestamp as its eight little-endian bytes.
pub fn u64_to_le_bytes(n: u64) -> (r: Vec<u8>)
    ensures
        r@.len() == 8,
        spec_le_value(r@) == n as nat,
{
    proof {
        reveal_with_fuel(pow256, 9);
        assert(pow256(8) == 0x1_0000_0000_0000_0000);
    }
    let mut r: Vec<u8> = Vec::new();
    let mut rest: u64 = n;
    let mut k: usize = 0;
    proof {
        assert(pow256(0) == 1);
        assert(rest as nat * 1 == rest as nat) by (nonlinear_arith);
    }
    while k < 8
        invariant
            k <= 8,
            r@.len() == k,
            n as nat == spec_le_value(r@) + rest as nat * pow256(k as nat),
            rest < pow256((8 - k) as nat),
        decreases 8 - k,
    {
        let ghost r0 = r@;
        let ghost rest0 = rest;
        let b = (rest % 256) as u8;
        r.push(b);
        rest = rest / 256;
        proof {
            lemma_le_value_snoc(r0, b);
            assert(rest0 as nat == b + 256 * (rest as nat));
            lemma_le_snoc_arith(spec_le_value(r0), b as nat, rest as nat, k as nat);
            assert(rest0 < pow256((8 - k) as nat));
            assert(pow256((8 - k) as nat) == 256 * pow256((7 - k) as nat));
            assert(rest < pow256((7 - k) as nat)) by (nonlinear_arith)
                requires
                    rest == rest0 / 256,
                    rest0 < 256 * pow256((7 - k) as nat),
            ;
        }
        k = k + 1;
    }
    proof {
        assert(pow256(0) == 1);
        assert(rest == 0);
    }
    r
}

/// Powers of 256.
pub open spec fn pow256(k: nat) -> nat
    decreases k,
{
    if k == 0 {
        1
    } else {
        256 * pow256((k - 1) as nat)
    }
}

proof fn lemma_le_value_snoc(b: Seq<u8>, x: u8)
    ensures
        spec_le_value(b.push(x)) == spec_le_value(b) + x * pow256(b.len()),
    decreases b.len(),
{
    if b.len() == 0 {
        reveal_with_fuel(spec_le_value, 2);
        assert(b.push(x)[0] == x);
        assert(b.push(x).skip(1) =~= Seq::<u8>::empty());
        assert(pow256(0) == 1);
        assert(x * 1 == x) by (nonlinear_arith);
    } else {
        assert(b.push(x)[0] == b[0]);
        assert(b.push(x).skip(1) =~= b.skip(1).push(x));
        lemma_le_value_snoc(b.skip(1), x);
        assert(spec_le_value(b.push(x)) == b[0] + 256 * (spec_le_value(b.skip(1)) + x * pow256(
            b.skip(1).len(),
        )));
        assert(256 * (spec_le_value(b.skip(1)) + x * pow256(b.skip(1).len())) == 256
            * spec_le_value(b.skip(1)) + x * (256 * pow256(b.skip(1).len())))
            by (nonlinear_arith)
        ;
        assert(256 * pow256(b.skip(1).len()) == pow256(b.len()));
    }
}

proof fn lemma_le_snoc_arith(v: nat, b: nat, rest: nat, k: nat)
    requires
        b + 256 * rest >= 0,
    ensures
        v + (b + 256 * rest) * pow256(k) == (v + b * pow256(k)) + rest * (256 * pow256(k)),
{
    assert((b + 256 * rest) * pow256(k) == b * pow256(k) + rest * (256 * pow256(k)))
        by (nonlinear_arith)
    ;
}

/// Decodes a timestamp from its eight little-endian bytes.
pub fn u64_from_le_bytes(b: &Vec<u8>) -> (r: u64)
    requires
        b@.len() == 8,
    ensures
        r as nat == spec_le_value(b@),
{
    proof {
        reveal_with_fuel(pow256, 9);
        assert(pow256(8) == 0x1_0000_0000_0000_0000);
    }
    let mut acc: u64 = 0;
    let mut k: usize = 8;
    proof {
        assert(b@.skip(8) =~= Seq::<u8>::empty());
        assert(pow256(0) == 1);
    }
    while k > 0
        invariant
            k <= 8,
            b@.len() == 8,
            acc as nat == spec_le_value(b@.skip(k as int)),
            acc < pow256((8 - k) as nat),
            pow256(8) == 0x1_0000_0000_0000_0000,
        decreases k,
    {
        proof {
            lemma_pow256_mono((8 - k) as nat, 7);
            assert(pow256(8) == 256 * pow256(7));
            assert(acc * 256 + 255 < pow256(8)) by (nonlinear_arith)
                requires
                    acc < pow256(7),
                    pow256(8) == 256 * pow256(7),
            ;
            assert(b@.skip(k - 1 as int)[0] == b@[k - 1 as int]);
            assert(b@.skip(k - 1 as int).skip(1) =~= b@.skip(k as int));
        }
        acc = acc * 256 + (b[k - 1] as u64);
        k = k - 1;
        proof {
            lemma_le_value_prefix_bound(b@, k as int);
        }
    }
    proof {
        assert(b@.skip(0) =~= b@);
    }
    acc
}

proof fn lemma_le_value_bound(b: Seq<u8>)
    ensures
        spec_le_value(b) < pow256(b.len()),
    decreases b.len(),
{
    if b.len() == 0 {
    } else {
        lemma_le_value_bound(b.skip(1));
        assert(spec_le_value(b) == b[0] + 256 * spec_le_value(b.skip(1)));
        assert(b[0] + 256 * spec_le_value(b.skip(1)) < 256 * pow256(b.skip(1).len()))
            by (nonlinear_arith)
            requires
                b[0] < 256,
                spec_le_value(b.skip(1)) < pow256(b.skip(1).len()),
        ;
    }
}

proof fn lemma_pow256_mono(i: nat, j: nat)
    requires
        i <= j,
    ensures
        pow256(i) <= pow256(j),
    decreases j,
{
    if i < j {
        lemma_pow256_mono(i, (j - 1) as nat);
        assert(pow256(j) == 256 * pow256((j - 1) as nat));
        assert(256 * pow256((j - 1) as nat) >= pow256((j - 1) as nat)) by (nonlinear_arith)
            requires
                pow256((j - 1) as nat) >= 0,
        ;
    }
}

proof fn lemma_le_value_prefix_bound(b: Seq<u8>, k: int)
    requires
        0 <= k <= b.len(),
    ensures
        spec_le_value(b.skip(k)) < pow256((b.len() - k) as nat),
{
    lemma_le_value_bound(b.skip(k));
}

/// Whether a remote item is newer than the local copy: the update runs
/// exactly when the remote timestamp is strictly later.
pub fn needs_update(local: u64, remote: u64) -> (r: bool)
    ensures
        r == (local < remote),
{
    local < remote
}

} // verus!
