//! Decimal rendering of the 256-bit quantities, for the human-readable
//! outcome renderings: a big-endian byte string is read as a natural number
//! (`be_nat`), written in decimal (`dec_of`), and a two's-complement value
//! is written as a signed decimal (`int_dec_of`). The executable formatter
//! works by repeated division by ten over the bytes and is proved to emit
//! exactly `dec_of` / `int_dec_of`.

use vstd::arithmetic::div_mod::lemma_fundamental_div_mod_converse;
use vstd::prelude::*;

use crate::encoding::hex_char;

verus! {

/// The natural number a big-endian byte string denotes.
pub open spec fn be_nat(s: Seq<u8>) -> nat
    decreases s.len(),
{
    if s.len() == 0 {
        0
    } else {
        be_nat(s.drop_last()) * 256 + (s.last() as nat)
    }
}

/// 256 to the power `n`: the count of values of an `n`-byte string.
pub open spec fn pow256(n: nat) -> nat
    decreases n,
{
    if n == 0 {
        1
    } else {
        256 * pow256((n - 1) as nat)
    }
}

/// The decimal digits of a natural number, most significant first; zero is
/// the single digit `0`. Digits below ten share their characters with hex.
pub open spec fn dec_of(n: nat) -> Seq<char>
    decreases n,
{
    if n < 10 {
        seq![crate::encoding::hex_char_of(n as u8)]
    } else {
        dec_of(n / 10) + seq![crate::encoding::hex_char_of((n % 10) as u8)]
    }
}

/// The signed decimal a two's-complement big-endian byte string denotes: a
/// set top bit means the negative value whose magnitude completes the byte
/// string to two to the width.
pub open spec fn int_dec_of(s: Seq<u8>) -> Seq<char> {
    if s.len() > 0 && s[0] >= 128 {
        seq!['-'] + dec_of((pow256(s.len()) - be_nat(s)) as nat)
    } else {
        dec_of(be_nat(s))
    }
}

/// A byte string denotes zero exactly when every byte is zero.
pub proof fn lemma_be_nat_zero_iff(s: Seq<u8>)
    ensures
        be_nat(s) == 0 <==> (forall|k: int| 0 <= k < s.len() ==> s[k] == 0),
    decreases s.len(),
{
    if s.len() > 0 {
        lemma_be_nat_zero_iff(s.drop_last());
        if be_nat(s) == 0 {
            assert(forall|k: int| 0 <= k < s.len() - 1 ==> s[k] == s.drop_last()[k]);
        }
        if forall|k: int| 0 <= k < s.len() ==> s[k] == 0 {
            assert(forall|k: int| 0 <= k < s.len() - 1 ==> s.drop_last()[k] == s[k]);
            assert(be_nat(s.drop_last()) == 0);
        }
    }
}

/// A byte string denotes a value below 256 to its length.
pub proof fn lemma_be_nat_bound(s: Seq<u8>)
    ensures
        be_nat(s) < pow256(s.len()),
    decreases s.len(),
{
    if s.len() > 0 {
        lemma_be_nat_bound(s.drop_last());
    }
}

/// The reversal of a character sequence.
pub open spec fn rev_chars(s: Seq<char>) -> Seq<char> {
    Seq::new(s.len(), |k: int| s[s.len() - 1 - k])
}

/// Reversal moves a pushed character to the front.
pub proof fn lemma_rev_chars_push(s: Seq<char>, c: char)
    ensures
        rev_chars(s.push(c)) == seq![c] + rev_chars(s),
{
    assert(rev_chars(s.push(c)) =~= seq![c] + rev_chars(s));
}

/// Whether the byte string denotes zero.
fn is_zero_bytes(v: &Vec<u8>) -> (r: bool)
    ensures
        r == (be_nat(v@) == 0),
{
    let n = v.len();
    let mut i: usize = 0;
    while i < n
        invariant
            i <= n,
            n == v@.len(),
            forall|k: int| 0 <= k < i ==> v@[k] == 0,
        decreases n - i,
    {
        if v[i] != 0 {
            proof {
                lemma_be_nat_zero_iff(v@);
                if be_nat(v@) == 0 {
                    assert(v@[i as int] == 0);
                }
            }
            return false;
        }
        i = i + 1;
    }
    proof {
        lemma_be_nat_zero_iff(v@);
        assert(forall|k: int| 0 <= k < v@.len() ==> v@[k] == 0);
    }
    true
}

/// One long-division step: the quotient bytes and remainder digit of a
/// big-endian byte string divided by ten.
fn div10(cur: &Vec<u8>) -> (r: (Vec<u8>, u8))
    ensures
        r.0@.len() == cur@.len(),
        r.1 < 10,
        10 * be_nat(r.0@) + r.1 == be_nat(cur@),
{
    let n = cur.len();
    let mut q: Vec<u8> = Vec::new();
    let mut rem: u8 = 0;
    let mut i: usize = 0;
    while i < n
        invariant
            i <= n,
            n == cur@.len(),
            q@.len() == i,
            rem < 10,
            10 * be_nat(q@) + rem == be_nat(cur@.take(i as int)),
        decreases n - i,
    {
        let b = cur[i];
        let c: u16 = (rem as u16) * 256 + (b as u16);
        let qd = (c / 10) as u8;
        rem = (c % 10) as u8;
        proof {
            assert(cur@.take(i + 1 as int).drop_last() =~= cur@.take(i as int));
            assert(cur@.take(i + 1 as int).last() == cur@[i as int]);
            assert(q@.push(qd).drop_last() =~= q@);
        }
        q.push(qd);
        i = i + 1;
    }
    assert(cur@.take(n as int) =~= cur@);
    (q, rem)
}

/// The two's-complement negation of a nonzero big-endian byte string: the
/// value that completes it to 256 to the width.
fn negate_be_bytes(x: &Vec<u8>) -> (r: Vec<u8>)
    requires
        be_nat(x@) > 0,
    ensures
        r@.len() == x@.len(),
        be_nat(r@) + be_nat(x@) == pow256(x@.len()),
{
    let n = x.len();
    let mut m: usize = n;
    let mut i: usize = 0;
    while i < n
        invariant
            i <= n,
            m <= n,
            n == x@.len(),
            m == n ==> forall|k: int| 0 <= k < i ==> x@[k] == 0,
            m < n ==> m < i && x@[m as int] != 0 && (forall|k: int| m < k < i ==> x@[k] == 0),
        decreases n - i,
    {
        if x[i] != 0 {
            m = i;
        }
        i = i + 1;
    }
    proof {
        if m == n {
            lemma_be_nat_zero_iff(x@);
            assert(forall|k: int| 0 <= k < x@.len() ==> x@[k] == 0);
            assert(be_nat(x@) == 0);
        }
        assert(m < n);
    }
    let mut r: Vec<u8> = Vec::new();
    let mut i: usize = 0;
    while i < m
        invariant
            i <= m,
            m < n,
            n == x@.len(),
            r@.len() == i,
            be_nat(r@) + 1 + be_nat(x@.take(i as int)) == pow256(i as nat),
        decreases m - i,
    {
        let b = x[i];
        proof {
            assert(x@.take(i + 1 as int).drop_last() =~= x@.take(i as int));
            assert(x@.take(i + 1 as int).last() == x@[i as int]);
            assert(r@.push((255 - b) as u8).drop_last() =~= r@);
        }
        r.push(255 - b);
        i = i + 1;
    }
    let bm = x[m];
    proof {
        assert(x@.take(m + 1 as int).drop_last() =~= x@.take(m as int));
        assert(x@.take(m + 1 as int).last() == x@[m as int]);
        assert(r@.push((255 - bm + 1) as u8).drop_last() =~= r@);
    }
    r.push(255 - bm + 1);
    let mut i: usize = m + 1;
    while i < n
        invariant
            m < i <= n,
            n == x@.len(),
            r@.len() == i,
            forall|k: int| m < k < n ==> x@[k] == 0,
            be_nat(r@) + be_nat(x@.take(i as int)) == pow256(i as nat),
        decreases n - i,
    {
        proof {
            assert(x@.take(i + 1 as int).drop_last() =~= x@.take(i as int));
            assert(x@.take(i + 1 as int).last() == x@[i as int]);
            assert(x@[i as int] == 0);
            assert(r@.push(0u8).drop_last() =~= r@);
        }
        r.push(0);
        i = i + 1;
    }
    assert(x@.take(n as int) =~= x@);
    r
}

/// Appends the decimal form of the value of a big-endian byte string, as
/// `dec_of` says.
pub fn push_dec(out: &mut Vec<char>, bytes: &Vec<u8>)
    ensures
        final(out)@ == old(out)@ + dec_of(be_nat(bytes@)),
{
    let n0 = bytes.len();
    let mut cur: Vec<u8> = Vec::new();
    let mut i: usize = 0;
    while i < n0
        invariant
            i <= n0,
            n0 == bytes@.len(),
            cur@ == bytes@.take(i as int),
        decreases n0 - i,
    {
        cur.push(bytes[i]);
        assert(bytes@.take(i + 1 as int) =~= bytes@.take(i as int).push(bytes@[i as int]));
        i = i + 1;
    }
    assert(bytes@.take(n0 as int) =~= bytes@);
    if is_zero_bytes(&cur) {
        out.push(hex_char(0));
        assert(final(out)@ =~= old(out)@ + dec_of(0));
        return ;
    }
    let ghost v0: nat = be_nat(bytes@);
    let mut digits_rev: Vec<char> = Vec::new();
    proof {
        assert(rev_chars(digits_rev@) =~= Seq::<char>::empty());
        assert(dec_of(v0) =~= dec_of(be_nat(cur@)) + rev_chars(digits_rev@));
    }
    while !is_zero_bytes(&cur)
        invariant
            be_nat(cur@) > 0 ==> dec_of(v0) == dec_of(be_nat(cur@)) + rev_chars(digits_rev@),
            be_nat(cur@) == 0 ==> dec_of(v0) == rev_chars(digits_rev@),
            be_nat(cur@) > 0 || digits_rev@.len() > 0,
        decreases be_nat(cur@),
    {
        let ghost v: nat = be_nat(cur@);
        let (q, d) = div10(&cur);
        proof {
            lemma_fundamental_div_mod_converse(v as int, 10, be_nat(q@) as int, d as int);
            assert(be_nat(q@) == v / 10 && d == v % 10);
            lemma_rev_chars_push(digits_rev@, crate::encoding::hex_char_of(d));
            if v < 10 {
                assert(be_nat(q@) == 0);
                assert(dec_of(v) == seq![crate::encoding::hex_char_of(d)]);
            } else {
                assert(be_nat(q@) > 0);
                assert(dec_of(v) == dec_of(v / 10) + seq![crate::encoding::hex_char_of(d)]);
            }
            assert((dec_of(v) + rev_chars(digits_rev@)) =~= (if be_nat(q@) == 0 {
                Seq::<char>::empty()
            } else {
                dec_of(be_nat(q@))
            }) + rev_chars(digits_rev@.push(crate::encoding::hex_char_of(d))));
        }
        digits_rev.push(hex_char(d));
        cur = q;
        proof {
            if be_nat(cur@) > 0 {
                assert(dec_of(v0) =~= dec_of(be_nat(cur@)) + rev_chars(digits_rev@));
            } else {
                assert(dec_of(v0) =~= rev_chars(digits_rev@));
            }
        }
    }
    let nd = digits_rev.len();
    let mut k: usize = nd;
    while k > 0
        invariant
            k <= nd,
            nd == digits_rev@.len(),
            out@ == old(out)@ + rev_chars(digits_rev@).take((nd - k) as int),
        decreases k,
    {
        k = k - 1;
        out.push(digits_rev[k]);
        proof {
            assert(rev_chars(digits_rev@).take((nd - k) as int) =~= rev_chars(
                digits_rev@,
            ).take((nd - k - 1) as int).push(digits_rev@[k as int]));
        }
    }
    assert(rev_chars(digits_rev@).take(nd as int) =~= rev_chars(digits_rev@));
}

/// Appends the signed decimal form of a two's-complement big-endian byte
/// string, as `int_dec_of` says.
pub fn push_int_dec(out: &mut Vec<char>, bytes: &Vec<u8>)
    ensures
        final(out)@ == old(out)@ + int_dec_of(bytes@),
{
    if bytes.len() > 0 && bytes[0] >= 128 {
        out.push('-');
        proof {
            lemma_be_nat_zero_iff(bytes@);
            lemma_be_nat_bound(bytes@);
        }
        let mag = negate_be_bytes(bytes);
        push_dec(out, &mag);
        assert(final(out)@ =~= old(out)@ + int_dec_of(bytes@));
    } else {
        push_dec(out, bytes);
    }
}

} // verus!
