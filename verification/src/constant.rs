use vstd::prelude::*;

verus! {

use crate::decimal::{char_digit, char_to_digit, dec_value, is_decimal, lemma_dec_value_prefix};
use crate::error::Error;
use vstd::arithmetic::div_mod::{
    lemma_div_is_ordered, lemma_fundamental_div_mod, lemma_fundamental_div_mod_converse,
    lemma_small_mod,
};
use vstd::arithmetic::mul::lemma_mul_inequality;
use vstd::arithmetic::power2::{
    lemma2_to64, lemma2_to64_rest, lemma_pow2_adds, lemma_pow2_pos, lemma_pow2_strictly_increases, pow2,
};
use vstd::bits::lemma_u64_shl_is_mul;
use vstd::string::StrSliceExecFns;

/// The unsigned value of a little-endian byte sequence.
pub open spec fn le_value(s: Seq<u8>) -> nat
    decreases s.len(),
{
    if s.len() == 0 {
        0
    } else {
        (le_value(s.drop_last()) + s.last() * pow2((8 * (s.len() - 1)) as nat)) as nat
    }
}

/// A little-endian byte sequence is bounded by two to the power of its
/// bit length.
pub proof fn lemma_le_value_bound(s: Seq<u8>)
    ensures
        le_value(s) < pow2((8 * s.len()) as nat),
    decreases s.len(),
{
    if s.len() == 0 {
        assert(pow2(0) == 1) by {
            lemma2_to64();
        }
    } else {
        let l1 = (8 * (s.len() - 1)) as nat;
        lemma_le_value_bound(s.drop_last());
        lemma_mul_inequality(s.last() as int, 255, pow2(l1) as int);
        lemma_pow2_adds(l1, 8);
        assert(pow2(8) == 256) by {
            lemma2_to64();
        }
    }
}

/// Extending a prefix by one byte adds that byte at its positional
/// weight.
proof fn lemma_le_value_prefix(s: Seq<u8>, i: int)
    requires
        0 <= i < s.len(),
    ensures
        le_value(s.take(i + 1)) == le_value(s.take(i)) + s[i] * pow2((8 * i) as nat),
{
    assert(s.take(i + 1).drop_last() =~= s.take(i));
    assert(s.take(i + 1).last() == s[i]);
}

/// The value of a byte sequence splits at any position into a low part
/// and a weighted high part.
proof fn lemma_le_value_split(s: Seq<u8>, k: int)
    requires
        0 <= k <= s.len(),
    ensures
        le_value(s) == le_value(s.take(k)) + le_value(s.skip(k)) * pow2((8 * k) as nat),
    decreases s.len(),
{
    if k == s.len() {
        assert(s.take(k) =~= s);
        assert(s.skip(k) =~= Seq::<u8>::empty());
        assert(le_value(Seq::<u8>::empty()) == 0);
    } else {
        let dl = s.drop_last();
        lemma_le_value_split(dl, k);
        assert(dl.take(k) =~= s.take(k));
        assert(s.skip(k).drop_last() =~= dl.skip(k));
        assert(s.skip(k).last() == s.last());
        let last = s.last() as int;
        let hi = le_value(dl.skip(k)) as int;
        let p1 = pow2((8 * (s.len() - k - 1)) as nat) as int;
        let p2 = pow2((8 * k) as nat) as int;
        lemma_pow2_adds((8 * (s.len() - k - 1)) as nat, (8 * k) as nat);
        assert((8 * (s.len() - k - 1)) as nat + (8 * k) as nat == (8 * (s.len() - 1)) as nat);
        assert(p1 * p2 == pow2((8 * (s.len() - 1)) as nat));
        assert(le_value(s.skip(k)) == hi + last * p1);
        assert((hi + last * p1) * p2 == hi * p2 + last * (p1 * p2)) by (nonlinear_arith);
        assert(le_value(s) == le_value(dl) + last * pow2((8 * (s.len() - 1)) as nat));
        assert(le_value(dl) == le_value(s.take(k)) + hi * p2);
        assert(le_value(s.skip(k)) * p2 == hi * p2 + last * (p1 * p2));
    }
}

/// A byte sequence denotes zero exactly when every byte is zero.
proof fn lemma_le_value_zero(s: Seq<u8>)
    ensures
        (le_value(s) == 0) <==> (forall|i: int| 0 <= i < s.len() ==> s[i] == 0),
    decreases s.len(),
{
    if s.len() > 0 {
        let dl = s.drop_last();
        lemma_le_value_zero(dl);
        lemma_pow2_pos((8 * (s.len() - 1)) as nat);
        if s.last() != 0 {
            lemma_mul_inequality(1, s.last() as int, pow2((8 * (s.len() - 1)) as nat) as int);
            assert(le_value(s) > 0);
        }
        if le_value(s) == 0 {
            assert forall|i: int| 0 <= i < s.len() implies s[i] == 0 by {
                if i < s.len() - 1 {
                    assert(dl[i] == 0);
                }
            }
        }
        if forall|i: int| 0 <= i < s.len() ==> s[i] == 0 {
            assert forall|i: int| 0 <= i < dl.len() implies dl[i] == 0 by {
                assert(s[i] == 0);
            }
            assert(s.last() == 0);
        }
    }
}

/// Each byte of a little-endian sequence is the corresponding base-256
/// digit of its value.
pub proof fn lemma_byte_extract(s: Seq<u8>, i: int)
    requires
        0 <= i < s.len(),
    ensures
        (le_value(s) / pow2((8 * i) as nat)) % 256 == s[i],
{
    let p = pow2((8 * i) as nat);
    lemma_pow2_pos((8 * i) as nat);
    lemma_le_value_split(s, i);
    lemma_le_value_bound(s.take(i));
    lemma_fundamental_div_mod_converse(
        le_value(s) as int,
        p as int,
        le_value(s.skip(i)) as int,
        le_value(s.take(i)) as int,
    );
    lemma_le_value_split(s.skip(i), 1);
    assert(s.skip(i).take(1) =~= seq![s[i]]);
    assert(seq![s[i]].drop_last() =~= Seq::<u8>::empty());
    assert(le_value(Seq::<u8>::empty()) == 0);
    assert(pow2(0) == 1 && pow2(8) == 256) by {
        lemma2_to64();
    }
    let single = seq![s[i]];
    assert(single.len() == 1);
    assert(single.last() == s[i]);
    assert(le_value(single) == le_value(single.drop_last()) + single.last() * pow2(
        (8 * (single.len() - 1)) as nat,
    ));
    assert((8 * (single.len() - 1)) as nat == 0nat);
    assert(pow2((8 * (single.len() - 1)) as nat) == 1);
    assert(le_value(single.drop_last()) == 0);
    assert(single.last() * pow2((8 * (single.len() - 1)) as nat) == s[i] as nat)
        by (nonlinear_arith)
        requires
            single.last() == s[i],
            pow2((8 * (single.len() - 1)) as nat) == 1,
    ;
    assert(le_value(single) == s[i]);
    lemma_fundamental_div_mod_converse(
        le_value(s.skip(i)) as int,
        256,
        le_value(s.skip(i).skip(1)) as int,
        s[i] as int,
    );
}

/// The number of bytes needed to hold a value of the given bit width:
/// one byte per started octet.
pub fn byte_count(bits: usize) -> (r: usize)
    requires
        1 <= bits <= 0xffff_ffffusize,
    ensures
        r == (bits + 7) as int / 8,
{
    let q = bits / 8;
    let r = bits % 8;
    proof {
        lemma_fundamental_div_mod(bits as int, 8);
        if r == 0 {
            lemma_fundamental_div_mod_converse((bits + 7) as int, 8, q as int, 7);
        } else {
            lemma_fundamental_div_mod_converse((bits + 7) as int, 8, (q + 1) as int, (r - 1) as int);
        }
    }
    if r == 0 {
        q
    } else {
        q + 1
    }
}

/// Multiply the value held in the little-endian bytes by ten, add a
/// digit, and report the carry that did not fit.
fn mul10_add(bytes: &mut Vec<u8>, d: u8) -> (carry: u8)
    requires
        d < 10,
    ensures
        final(bytes)@.len() == old(bytes)@.len(),
        le_value(final(bytes)@) + (carry as nat) * pow2((8 * old(bytes)@.len()) as nat) == 10
            * le_value(old(bytes)@) + d as nat,
{
    let n = bytes.len();
    let mut carry: u64 = d as u64;
    let mut i: usize = 0;
    proof {
        assert(bytes@.take(0) =~= Seq::<u8>::empty());
        assert(old(bytes)@.take(0) =~= Seq::<u8>::empty());
        assert(le_value(Seq::<u8>::empty()) == 0);
        assert(pow2(0) == 1) by {
            lemma2_to64();
        }
        assert((8 * 0) as nat == 0nat);
        assert((carry as nat) * pow2((8 * 0) as nat) == d as nat);
    }
    while i < n
        invariant
            i <= n,
            n == bytes@.len(),
            n == old(bytes)@.len(),
            carry <= 9,
            d < 10,
            forall|k: int| i <= k < n ==> bytes@[k] == old(bytes)@[k],
            le_value(bytes@.take(i as int)) + (carry as nat) * pow2((8 * i) as nat) == 10
                * le_value(old(bytes)@.take(i as int)) + d as nat,
        decreases n - i,
    {
        let b = bytes[i];
        let t: u64 = (b as u64) * 10 + carry;
        proof {
            let bs = bytes@;
            let pi = pow2((8 * i) as nat) as int;
            let q = (t as int) / 256;
            let r = (t as int) % 256;
            lemma_fundamental_div_mod(t as int, 256);
            lemma_div_is_ordered(t as int, 2559, 256);
            assert(bs.update(i as int, r as u8).take(i as int) =~= bs.take(i as int));
            assert(bs.update(i as int, r as u8).take(i + 1) =~= bs.take(i as int).push(r as u8));
            assert(bs.take(i as int).push(r as u8).drop_last() =~= bs.take(i as int));
            assert(old(bytes)@.take(i + 1).drop_last() =~= old(bytes)@.take(i as int));
            assert(old(bytes)@.take(i + 1).last() == old(bytes)@[i as int]);
            assert(b == old(bytes)@[i as int]);
            lemma_pow2_adds((8 * i) as nat, 8);
            assert(pow2(8) == 256) by {
                lemma2_to64();
            }
            assert(q * (pi * 256) == (256 * q) * pi) by (nonlinear_arith);
            assert((256 * q + r) * pi == (256 * q) * pi + r * pi) by (nonlinear_arith);
            assert((b as int * 10 + carry as int) * pi == (b as int) * 10 * pi + (carry as int)
                * pi) by (nonlinear_arith);
            assert((b as int) * 10 * pi == 10 * ((b as int) * pi)) by (nonlinear_arith);
        }
        bytes.set(i, (t % 256) as u8);
        carry = t / 256;
        i += 1;
    }
    proof {
        assert(bytes@.take(n as int) =~= bytes@);
        assert(old(bytes)@.take(n as int) =~= old(bytes)@);
    }
    carry as u8
}

/// An arbitrary-precision unsigned value tagged with a fixed bit width:
/// the terminal form every solve returns.
#[derive(Clone, Debug)]
pub struct Constant {
    /// Little-endian bytes of the value, exactly one byte per started
    /// octet of the width.
    pub bytes: Vec<u8>,
    /// The bit width of the constant.
    pub bits: usize,
}

impl Constant {
    /// A constant holds exactly enough little-endian bytes for its
    /// width, and its value fits the width.
    pub open spec fn inv(&self) -> bool {
        &&& 1 <= self.bits <= 0xffff_ffffusize
        &&& self.bytes@.len() == (self.bits + 7) as int / 8
        &&& le_value(self.bytes@) < pow2(self.bits as nat)
    }

    /// The unsigned value this constant denotes.
    pub open spec fn value(&self) -> nat {
        le_value(self.bytes@)
    }

    /// Build a constant of the given width from a machine word,
    /// keeping the word's value modulo two to the width.
    pub fn new(value: u64, bits: usize) -> (r: Constant)
        requires
            1 <= bits <= 0xffff_ffffusize,
        ensures
            r.inv(),
            r.bits == bits,
            r.value() == value as nat % pow2(bits as nat),
    {
        let masked: u64 = if bits >= 64 {
            proof {
                lemma2_to64();
                lemma2_to64_rest();
                if bits > 64 {
                    lemma_pow2_strictly_increases(64, bits as nat);
                }
                lemma_small_mod(value as nat, pow2(bits as nat));
            }
            value
        } else {
            let p: u64 = 1u64 << (bits as u64);
            proof {
                lemma2_to64();
                lemma2_to64_rest();
                if bits < 63 {
                    lemma_pow2_strictly_increases(bits as nat, 63);
                }
                assert(1u64 * pow2(bits as nat) <= u64::MAX);
                lemma_u64_shl_is_mul(1u64, bits as u64);
                assert(p == pow2(bits as nat));
                lemma_pow2_pos(bits as nat);
            }
            value % p
        };
        let ghost m = masked as nat;
        proof {
            lemma_pow2_pos(bits as nat);
        }
        assert(m < pow2(bits as nat) || (bits >= 64 && m < pow2(64)));
        let nb: usize = byte_count(bits);
        let mut bytes: Vec<u8> = Vec::new();
        let mut v: u64 = masked;
        let mut i: usize = 0;
        proof {
            assert(pow2(0) == 1) by {
                lemma2_to64();
            }
            assert(bytes@ =~= Seq::<u8>::empty());
            assert(le_value(bytes@) == 0);
            assert(v as nat == m);
            assert((8 * 0) as nat == 0nat);
            assert(pow2((8 * 0) as nat) == 1);
            assert((v as nat) * pow2((8 * 0) as nat) == m);
        }
        while i < nb
            invariant
                i <= nb,
                bytes@.len() == i,
                le_value(bytes@) + (v as nat) * pow2((8 * i) as nat) == m,
            decreases nb - i,
        {
            let b: u8 = (v % 256) as u8;
            proof {
                let bs = bytes@;
                let pi = pow2((8 * i) as nat) as int;
                assert(bs.push(b).drop_last() =~= bs);
                assert(bs.push(b).last() == b);
                lemma_pow2_adds((8 * i) as nat, 8);
                assert(pow2(8) == 256) by {
                    lemma2_to64();
                }
                lemma_fundamental_div_mod(v as int, 256);
                let q = (v as int) / 256;
                assert((256 * q + (v as int) % 256) * pi == q * (pi * 256) + ((v as int) % 256)
                    * pi) by (nonlinear_arith);
            }
            bytes.push(b);
            v = v / 256;
            i += 1;
        }
        proof {
            if v > 0 {
                lemma_fundamental_div_mod((bits + 7) as int, 8);
                if (bits as nat) < ((8 * nb) as nat) {
                    lemma_pow2_strictly_increases(bits as nat, (8 * nb) as nat);
                }
                if 64nat < ((8 * nb) as nat) {
                    lemma_pow2_strictly_increases(64, (8 * nb) as nat);
                }
                lemma_mul_inequality(1, v as int, pow2((8 * nb) as nat) as int);
                assert(false);
            }
        }
        Constant { bytes, bits }
    }

    /// Parse a decimal digit string into a constant of the given width.
    ///
    /// Succeeds exactly when the string is a non-empty run of decimal
    /// digits whose value fits the width; this is the form a satisfying
    /// assignment's numerals are read back in.
    pub fn from_decimal_string(s: &str, bits: usize) -> (r: Result<Constant, Error>)
        requires
            1 <= bits <= 0xffff_ffffusize,
        ensures
            r matches Ok(c) ==> c.inv() && c.bits == bits && c.value() == dec_value(s@)
                && is_decimal(s@) && dec_value(s@) < pow2(bits as nat),
            is_decimal(s@) && dec_value(s@) < pow2(bits as nat) ==> r is Ok,
            r is Err ==> r == Result::<Constant, Error>::Err(Error::Parse),
    {
        let n = s.unicode_len();
        if n == 0 {
            return Err(Error::Parse);
        }
        let nb: usize = byte_count(bits);
        let mut bytes: Vec<u8> = Vec::new();
        let mut z: usize = 0;
        while z < nb
            invariant
                z <= nb,
                bytes@.len() == z,
                forall|i: int| 0 <= i < z ==> bytes@[i] == 0,
            decreases nb - z,
        {
            bytes.push(0);
            z += 1;
        }
        proof {
            lemma_le_value_zero(bytes@);
            assert(s@.take(0) =~= Seq::<char>::empty());
            lemma_fundamental_div_mod((bits + 7) as int, 8);
        }
        let ghost full = s@;
        let mut j: usize = 0;
        while j < n
            invariant
                j <= n,
                n == full.len(),
                full == s@,
                1 <= bits <= 0xffff_ffffusize,
                nb == (bits + 7) as int / 8,
                bits <= 8 * nb,
                bytes@.len() == nb,
                forall|i: int| 0 <= i < j ==> char_digit(full[i]) < 10,
                le_value(bytes@) == dec_value(full.take(j as int)),
            decreases n - j,
        {
            let c = s.get_char(j);
            let d = match char_to_digit(c) {
                Some(d) => d,
                None => {
                    return Err(Error::Parse);
                },
            };
            let ghost before = bytes@;
            let carry = mul10_add(&mut bytes, d);
            proof {
                assert(full.take(j + 1).drop_last() =~= full.take(j as int));
                assert(full.take(j + 1).last() == full[j as int]);
                assert(dec_value(full.take(j + 1)) == 10 * le_value(before) + d as nat);
            }
            if carry != 0 {
                proof {
                    lemma_mul_inequality(1, carry as int, pow2((8 * nb) as nat) as int);
                    if (bits as nat) < ((8 * nb) as nat) {
                        lemma_pow2_strictly_increases(bits as nat, (8 * nb) as nat);
                    }
                    lemma_dec_value_prefix(full, j + 1);
                    assert(dec_value(full) >= pow2(bits as nat));
                }
                return Err(Error::Parse);
            }
            j += 1;
        }
        proof {
            assert(full.take(n as int) =~= full);
        }
        if bits % 8 != 0 {
            let limit: u8 = match bits % 8 {
                1 => 2,
                2 => 4,
                3 => 8,
                4 => 16,
                5 => 32,
                6 => 64,
                _ => 128,
            };
            let top = bytes[nb - 1];
            proof {
                lemma2_to64();
                let rem = (bits % 8) as nat;
                assert(limit as nat == pow2(rem));
                lemma_fundamental_div_mod(bits as int, 8);
                lemma_fundamental_div_mod_converse(
                    (bits + 7) as int,
                    8,
                    (bits as int / 8) + 1,
                    bits as int % 8 - 1,
                );
                assert(8 * (nb - 1) == bits - rem);
                let bs = bytes@;
                assert(bs.take(nb as int) =~= bs);
                lemma_le_value_prefix(bs, nb - 1);
                lemma_le_value_bound(bs.take(nb - 1));
                lemma_pow2_adds(rem, (8 * (nb - 1)) as nat);
                let p = pow2((8 * (nb - 1)) as nat) as int;
                if top as nat >= pow2(rem) {
                    lemma_mul_inequality(pow2(rem) as int, top as int, p);
                } else {
                    lemma_mul_inequality(top as int, pow2(rem) as int - 1, p);
                    assert((pow2(rem) as int - 1) * p == pow2(rem) as int * p - p)
                        by (nonlinear_arith);
                }
            }
            if top >= limit {
                return Err(Error::Parse);
            }
        } else {
            proof {
                lemma_fundamental_div_mod(bits as int, 8);
                lemma_fundamental_div_mod_converse((bits + 7) as int, 8, bits as int / 8, 7);
                assert(8 * nb == bits);
                lemma_le_value_bound(bytes@);
            }
        }
        Ok(Constant { bytes, bits })
    }

    /// Decide the representation invariant at run time: the width in
    /// range, exactly enough bytes, and the value within the width.
    pub fn check(&self) -> (r: bool)
        ensures
            r == self.inv(),
    {
        if self.bits < 1 || self.bits > 0xffff_ffff {
            return false;
        }
        let nb = byte_count(self.bits);
        if self.bytes.len() != nb {
            return false;
        }
        proof {
            lemma_fundamental_div_mod(self.bits as int, 8);
            lemma_fundamental_div_mod((self.bits + 7) as int, 8);
            lemma_le_value_bound(self.bytes@);
        }
        if self.bits % 8 == 0 {
            proof {
                lemma_fundamental_div_mod_converse(
                    (self.bits + 7) as int,
                    8,
                    self.bits as int / 8,
                    7,
                );
                assert(8 * nb == self.bits);
            }
            return true;
        }
        let limit: u8 = match self.bits % 8 {
            1 => 2,
            2 => 4,
            3 => 8,
            4 => 16,
            5 => 32,
            6 => 64,
            _ => 128,
        };
        let top = self.bytes[nb - 1];
        proof {
            lemma2_to64();
            let rem = (self.bits % 8) as nat;
            assert(limit as nat == pow2(rem));
            lemma_fundamental_div_mod_converse(
                (self.bits + 7) as int,
                8,
                (self.bits as int / 8) + 1,
                self.bits as int % 8 - 1,
            );
            assert(8 * (nb - 1) == self.bits - rem);
            let bs = self.bytes@;
            assert(bs.take(nb as int) =~= bs);
            lemma_le_value_prefix(bs, nb - 1);
            lemma_le_value_bound(bs.take(nb - 1));
            lemma_pow2_adds(rem, (8 * (nb - 1)) as nat);
            let p = pow2((8 * (nb - 1)) as nat) as int;
            if top as nat >= pow2(rem) {
                lemma_mul_inequality(pow2(rem) as int, top as int, p);
            } else {
                lemma_mul_inequality(top as int, pow2(rem) as int - 1, p);
                assert((pow2(rem) as int - 1) * p == pow2(rem) as int * p - p)
                    by (nonlinear_arith);
            }
        }
        top < limit
    }

    /// The bit width of the constant.
    pub fn bits(&self) -> (r: usize)
        ensures
            r == self.bits,
    {
        self.bits
    }

    /// The value as a machine word, when it fits in one.
    pub fn value_u64(&self) -> (r: Option<u64>)
        requires
            self.inv(),
        ensures
            match r {
                Some(v) => v as nat == self.value() && self.value() < pow2(64),
                None => self.value() >= pow2(64),
            },
    {
        let n = self.bytes.len();
        let mut k: usize = 8;
        while k < n
            invariant
                8 <= k,
                k <= n || k == 8,
                n == self.bytes@.len(),
                forall|j: int| 8 <= j < k ==> self.bytes@[j] == 0,
            decreases n - k,
        {
            if self.bytes[k] != 0 {
                proof {
                    let s = self.bytes@;
                    lemma_le_value_split(s, 8);
                    lemma_le_value_zero(s.skip(8));
                    assert(s.skip(8)[k - 8] != 0);
                    assert(le_value(s.skip(8)) >= 1);
                    lemma_mul_inequality(1, le_value(s.skip(8)) as int, pow2(64) as int);
                    assert((8 * 8) as nat == 64nat);
                    lemma2_to64();
                    lemma2_to64_rest();
                }
                return None;
            }
            k += 1;
        }
        let m: usize = if n < 8 {
            n
        } else {
            8
        };
        proof {
            let s = self.bytes@;
            if n > 8 {
                lemma_le_value_split(s, 8);
                lemma_le_value_zero(s.skip(8));
                assert forall|j: int| 0 <= j < s.skip(8).len() implies s.skip(8)[j] == 0 by {
                    assert(s[j + 8] == 0);
                }
                assert(le_value(s.skip(8)) == 0);
                assert((8 * 8) as nat == 64nat);
                assert(le_value(s) == le_value(s.take(8)));
            } else {
                assert(s.take(m as int) =~= s);
            }
            assert(pow2(0) == 1) by {
                lemma2_to64();
            }
        }
        let mut acc: u64 = 0;
        let mut i: usize = 0;
        while i < m
            invariant
                i <= m,
                m <= 8,
                m <= n,
                n == self.bytes@.len(),
                acc as nat == le_value(self.bytes@.take(i as int)),
            decreases m - i,
        {
            let b = self.bytes[i];
            proof {
                let s = self.bytes@;
                lemma_le_value_prefix(s, i as int);
                lemma_le_value_bound(s.take(i as int));
                lemma2_to64();
                lemma2_to64_rest();
                if ((8 * i) as nat) < 56 {
                    lemma_pow2_strictly_increases((8 * i) as nat, 56);
                }
                lemma_mul_inequality(b as int, 255, pow2((8 * i) as nat) as int);
                lemma_mul_inequality(pow2((8 * i) as nat) as int, pow2(56) as int, 255);
                assert((b as u64) * pow2((8 * i) as nat) <= u64::MAX);
                lemma_u64_shl_is_mul(b as u64, (8 * i) as u64);
                lemma_pow2_adds((8 * i) as nat, 8);
                if ((8 * (i + 1)) as nat) < 64 {
                    lemma_pow2_strictly_increases((8 * (i + 1)) as nat, 64);
                }
            }
            acc = acc + ((b as u64) << ((8 * i) as u64));
            i += 1;
        }
        proof {
            let s = self.bytes@;
            if n >= 8 {
                assert(le_value(s) == le_value(s.take(8)));
            } else {
                assert(s.take(m as int) =~= s);
            }
            lemma_le_value_bound(s.take(m as int));
            lemma2_to64();
            lemma2_to64_rest();
            if ((8 * m) as nat) < 64 {
                lemma_pow2_strictly_increases((8 * m) as nat, 64);
            }
        }
        Some(acc)
    }
}

} // verus!
