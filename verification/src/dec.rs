//! Canonical decimal numerals over ASCII bytes: the textual form of the
//! port and host numbers that appear in peer addresses and in discovery
//! announcements.

use vstd::prelude::*;

verus! {

use vstd::arithmetic::div_mod::lemma_fundamental_div_mod;

/// The decimal digits of `v`, most significant first, as ASCII bytes.
pub open spec fn dec_digits(v: nat) -> Seq<u8>
    decreases v,
{
    if v < 10 {
        seq![(48 + v) as u8]
    } else {
        dec_digits(v / 10).push((48 + v % 10) as u8)
    }
}

/// Whether every byte of `s` is an ASCII decimal digit.
pub open spec fn all_digits(s: Seq<u8>) -> bool {
    forall|i: int| 0 <= i < s.len() ==> 48 <= #[trigger] s[i] <= 57
}

/// A canonical numeral: nonempty, digits only, no leading zero.
pub open spec fn canonical_numeral(s: Seq<u8>) -> bool {
    &&& s.len() >= 1
    &&& all_digits(s)
    &&& s.len() > 1 ==> s[0] != 48
}

/// The numeric value of a digit string, most significant digit first.
pub open spec fn digits_value(s: Seq<u8>) -> nat
    decreases s.len(),
{
    if s.len() == 0 {
        0
    } else {
        digits_value(s.drop_last()) * 10 + (s.last() - 48) as nat
    }
}

/// Powers of ten, used to bound the length of a numeral.
pub open spec fn pow10(k: nat) -> nat
    decreases k,
{
    if k == 0 {
        1
    } else {
        10 * pow10((k - 1) as nat)
    }
}

/// Every numeral that `dec_digits` produces is canonical.
pub proof fn lemma_dec_digits_shape(v: nat)
    ensures
        dec_digits(v).len() >= 1,
        canonical_numeral(dec_digits(v)),
        v >= 1 ==> dec_digits(v)[0] != 48,
        v >= 10 ==> dec_digits(v).len() >= 2,
    decreases v,
{
    if v < 10 {
        assert(dec_digits(v) == seq![(48 + v) as u8]);
    } else {
        lemma_dec_digits_shape(v / 10);
        let front = dec_digits(v / 10);
        let whole = dec_digits(v);
        assert(whole == front.push((48 + v % 10) as u8));
        assert(whole[0] == front[0]);
        assert forall|i: int| 0 <= i < whole.len() implies 48 <= #[trigger] whole[i] <= 57 by {
            if i < front.len() {
                assert(whole[i] == front[i]);
            }
        }
        assert(v / 10 >= 1);
    }
}

/// `digits_value` inverts `dec_digits`.
pub proof fn lemma_dec_digits_value(v: nat)
    ensures
        digits_value(dec_digits(v)) == v,
    decreases v,
{
    if v < 10 {
        let s = dec_digits(v);
        assert(s.drop_last() =~= Seq::<u8>::empty());
        assert(digits_value(Seq::<u8>::empty()) == 0);
        assert(digits_value(s) == digits_value(s.drop_last()) * 10 + (s.last() - 48) as nat);
    } else {
        lemma_dec_digits_value(v / 10);
        let s = dec_digits(v);
        assert(s.drop_last() =~= dec_digits(v / 10));
        lemma_fundamental_div_mod(v as int, 10);
        assert(digits_value(s) == (v / 10) * 10 + (v % 10));
    }
}

/// A canonical numeral whose first digit is not zero has value at least one,
/// and at least ten when it has more than one digit.
pub proof fn lemma_value_lower_bound(s: Seq<u8>)
    requires
        s.len() >= 1,
        all_digits(s),
        s[0] != 48,
    ensures
        digits_value(s) >= 1,
        s.len() > 1 ==> digits_value(s) >= 10,
    decreases s.len(),
{
    if s.len() == 1 {
        assert(digits_value(s) == digits_value(s.drop_last()) * 10 + (s.last() - 48) as nat);
        assert(s.drop_last().len() == 0);
        assert(s.last() == s[0]);
    } else {
        let front = s.drop_last();
        assert(front[0] == s[0]);
        assert(all_digits(front)) by {
            assert forall|i: int| 0 <= i < front.len() implies 48 <= #[trigger] front[i] <= 57 by {
                assert(front[i] == s[i]);
            }
        }
        lemma_value_lower_bound(front);
        assert(digits_value(s) == digits_value(front) * 10 + (s.last() - 48) as nat);
    }
}

/// `dec_digits` inverts `digits_value` on canonical numerals.
pub proof fn lemma_canonical_to_dec(s: Seq<u8>)
    requires
        canonical_numeral(s),
    ensures
        dec_digits(digits_value(s)) == s,
    decreases s.len(),
{
    if s.len() == 1 {
        let d = (s.last() - 48) as nat;
        assert(s.drop_last().len() == 0);
        assert(digits_value(Seq::<u8>::empty()) == 0);
        assert(s.drop_last() =~= Seq::<u8>::empty());
        assert(digits_value(s) == digits_value(s.drop_last()) * 10 + (s.last() - 48) as nat);
        assert(digits_value(s) == d);
        assert(dec_digits(d) =~= s);
    } else {
        let front = s.drop_last();
        assert(front[0] == s[0]);
        assert(all_digits(front)) by {
            assert forall|i: int| 0 <= i < front.len() implies 48 <= #[trigger] front[i] <= 57 by {
                assert(front[i] == s[i]);
            }
        }
        assert(canonical_numeral(front));
        lemma_canonical_to_dec(front);
        lemma_value_lower_bound(front);
        let a = digits_value(front);
        let d = (s.last() - 48) as nat;
        let v = digits_value(s);
        assert(v == a * 10 + d);
        assert(v >= 10);
        lemma_fundamental_div_mod(v as int, 10);
        assert(v / 10 == a && v % 10 == d);
        assert(dec_digits(v) == dec_digits(a).push((48 + d) as u8));
        assert(dec_digits(v) =~= s);
    }
}

/// Values below `pow10(k)` need at most `k` digits.
pub proof fn lemma_dec_digits_len(v: nat, k: nat)
    requires
        k >= 1,
        v < pow10(k),
    ensures
        dec_digits(v).len() <= k,
    decreases k,
{
    if v < 10 {
    } else {
        assert(pow10(k) == 10 * pow10((k - 1) as nat));
        assert(k >= 2) by {
            if k == 1 {
                assert(pow10(0nat) == 1);
                assert(pow10(1nat) == 10);
            }
        }
        lemma_fundamental_div_mod(v as int, 10);
        assert(v / 10 < pow10((k - 1) as nat));
        lemma_dec_digits_len(v / 10, (k - 1) as nat);
    }
}

/// The first few powers of ten, spelled out for use in length bounds.
pub proof fn lemma_pow10_small()
    ensures
        pow10(5nat) == 100000,
{
    assert(pow10(0nat) == 1);
    assert(pow10(1nat) == 10);
    assert(pow10(2nat) == 100);
    assert(pow10(3nat) == 1000);
    assert(pow10(4nat) == 10000);
    assert(pow10(5nat) == 100000);
}

/// Distinct values have distinct numerals.
pub proof fn lemma_dec_digits_injective(a: nat, b: nat)
    requires
        dec_digits(a) == dec_digits(b),
    ensures
        a == b,
{
    lemma_dec_digits_value(a);
    lemma_dec_digits_value(b);
}

/// Parses `s` as the canonical decimal numeral of a value at most `max`.
/// Returns the value exactly when `s` is such a numeral, `None` otherwise.
pub fn parse_decimal(s: &[u8], max: u16) -> (r: Option<u16>)
    ensures
        match r {
            Some(v) => v <= max && s@ == dec_digits(v as nat),
            None => forall|v: u16| v <= max ==> s@ != dec_digits(v as nat),
        },
{
    let n = s.len();
    if n == 0 || n > 5 {
        proof {
            assert forall|v: u16| v <= max implies s@ != dec_digits(v as nat) by {
                lemma_dec_digits_shape(v as nat);
                lemma_pow10_small();
                lemma_dec_digits_len(v as nat, 5nat);
            }
        }
        return None;
    }
    if n > 1 && s[0] == 48 {
        proof {
            assert forall|v: u16| v <= max implies s@ != dec_digits(v as nat) by {
                lemma_dec_digits_shape(v as nat);
            }
        }
        return None;
    }
    let mut i: usize = 0;
    let mut acc: u32 = 0;
    while i < n
        invariant
            n == s@.len(),
            1 <= n <= 5,
            0 <= i <= n,
            acc == digits_value(s@.subrange(0, i as int)),
            acc < pow10(i as nat),
            forall|j: int| 0 <= j < i ==> 48 <= #[trigger] s@[j] <= 57,
            n > 1 ==> s@[0] != 48,
        decreases n - i,
    {
        let b = s[i];
        if b < 48 || b > 57 {
            proof {
                assert forall|v: u16| v <= max implies s@ != dec_digits(v as nat) by {
                    lemma_dec_digits_shape(v as nat);
                    if s@ == dec_digits(v as nat) {
                        assert(48 <= s@[i as int] <= 57);
                    }
                }
            }
            return None;
        }
        proof {
            assert(pow10((i + 1) as nat) == 10 * pow10(i as nat));
            lemma_pow10_small();
            lemma_pow10_le(i as nat, 5nat);
            let pre = s@.subrange(0, i as int);
            let ext = s@.subrange(0, i + 1);
            assert(ext.drop_last() =~= pre);
            assert(ext.last() == s@[i as int]);
        }
        acc = acc * 10 + (b - 48) as u32;
        i = i + 1;
    }
    proof {
        assert(s@.subrange(0, n as int) =~= s@);
    }
    if acc > max as u32 {
        proof {
            assert(canonical_numeral(s@));
            assert forall|v: u16| v <= max implies s@ != dec_digits(v as nat) by {
                if s@ == dec_digits(v as nat) {
                    lemma_dec_digits_value(v as nat);
                }
            }
        }
        None
    } else {
        let v = acc as u16;
        proof {
            assert(canonical_numeral(s@));
            lemma_canonical_to_dec(s@);
        }
        Some(v)
    }
}

/// Powers of ten are positive.
pub proof fn lemma_pow10_pos(k: nat)
    ensures
        pow10(k) >= 1,
    decreases k,
{
    if k > 0 {
        lemma_pow10_pos((k - 1) as nat);
    }
}

/// `pow10` is monotonic in its exponent.
pub proof fn lemma_pow10_le(j: nat, k: nat)
    requires
        j <= k,
    ensures
        pow10(j) <= pow10(k),
        pow10(j) >= 1,
    decreases k,
{
    lemma_pow10_pos(j);
    if j < k {
        lemma_pow10_le(j, (k - 1) as nat);
        assert(pow10(k) == 10 * pow10((k - 1) as nat));
    }
}

/// Renders `v` as its canonical decimal numeral.
pub fn encode_decimal(v: u16) -> (r: Vec<u8>)
    ensures
        r@ == dec_digits(v as nat),
    decreases v,
{
    if v < 10 {
        let mut r: Vec<u8> = Vec::new();
        r.push(48 + v as u8);
        proof {
            assert(r@ =~= dec_digits(v as nat));
        }
        r
    } else {
        let mut r = encode_decimal(v / 10);
        r.push(48 + (v % 10) as u8);
        proof {
            assert(r@ =~= dec_digits(v as nat));
        }
        r
    }
}

} // verus!
