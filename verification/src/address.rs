//! Peer addresses: a host (an IPv4 quad) and a listening port, together with
//! the exact textual form `a.b.c.d:port` that peers type at the console and
//! that the node prints when it attributes a message.

use vstd::prelude::*;

verus! {

use crate::dec::{
    all_digits, dec_digits, lemma_dec_digits_injective, lemma_dec_digits_shape,
};
use vstd::slice::slice_subrange;

/// The four octets of an IPv4 host, most significant first.
#[derive(Clone, Copy, PartialEq, Eq, Hash, Debug, Structural)]
pub struct HostAddr {
    pub o0: u8,
    pub o1: u8,
    pub o2: u8,
    pub o3: u8,
}

/// A peer's listening endpoint: the registry key, never duplicated there.
#[derive(Clone, Copy, PartialEq, Eq, Hash, Debug, Structural)]
pub struct Address {
    pub host: HostAddr,
    pub port: u16,
}

/// The textual form of a host: four decimal octets joined by dots.
pub open spec fn host_text(h: HostAddr) -> Seq<u8> {
    dec_digits(h.o0 as nat) + seq![46u8] + dec_digits(h.o1 as nat) + seq![46u8]
        + dec_digits(h.o2 as nat) + seq![46u8] + dec_digits(h.o3 as nat)
}

/// The textual form of an address: host, a colon, then the port.
pub open spec fn address_text(a: Address) -> Seq<u8> {
    host_text(a.host) + seq![58u8] + dec_digits(a.port as nat)
}

/// Appends every byte of `src` to `dst`.
pub fn push_all(dst: &mut Vec<u8>, src: &Vec<u8>)
    ensures
        final(dst)@ == old(dst)@ + src@,
{
    let mut i: usize = 0;
    while i < src.len()
        invariant
            0 <= i <= src@.len(),
            dst@ == old(dst)@ + src@.subrange(0, i as int),
        decreases src@.len() - i,
    {
        dst.push(src[i]);
        proof {
            assert(old(dst)@ + src@.subrange(0, i + 1) =~= (old(dst)@ + src@.subrange(
                0,
                i as int,
            )).push(src@[i as int]));
        }
        i = i + 1;
    }
    proof {
        assert(src@.subrange(0, src@.len() as int) =~= src@);
    }
}

/// Renders an address as the text a peer would type or read.
pub fn render_address(a: &Address) -> (r: Vec<u8>)
    ensures
        r@ == address_text(*a),
{
    let mut r = crate::dec::encode_decimal(a.host.o0 as u16);
    r.push(46);
    let t1 = crate::dec::encode_decimal(a.host.o1 as u16);
    push_all(&mut r, &t1);
    r.push(46);
    let t2 = crate::dec::encode_decimal(a.host.o2 as u16);
    push_all(&mut r, &t2);
    r.push(46);
    let t3 = crate::dec::encode_decimal(a.host.o3 as u16);
    push_all(&mut r, &t3);
    r.push(58);
    let tp = crate::dec::encode_decimal(a.port);
    push_all(&mut r, &tp);
    proof {
        assert(r@ =~= address_text(*a));
    }
    r
}

/// Finds the first occurrence of `b` in `s` at or after `from`.
pub fn find_byte(s: &[u8], from: usize, b: u8) -> (r: Option<usize>)
    requires
        from <= s@.len(),
    ensures
        match r {
            Some(i) => from <= i < s@.len() && s@[i as int] == b && forall|j: int|
                from <= j < i ==> s@[j] != b,
            None => forall|j: int| from <= j < s@.len() ==> s@[j] != b,
        },
{
    let n = s.len();
    let mut i: usize = from;
    while i < n
        invariant
            n == s@.len(),
            from <= i <= n,
            forall|j: int| from <= j < i ==> s@[j] != b,
        decreases n - i,
    {
        if s[i] == b {
            return Some(i);
        }
        i = i + 1;
    }
    None
}

/// Index of the first dot in an address text.
spec fn sep0(a: Address) -> int {
    dec_digits(a.host.o0 as nat).len() as int
}

/// Index of the second dot in an address text.
spec fn sep1(a: Address) -> int {
    sep0(a) + 1 + dec_digits(a.host.o1 as nat).len()
}

/// Index of the third dot in an address text.
spec fn sep2(a: Address) -> int {
    sep1(a) + 1 + dec_digits(a.host.o2 as nat).len()
}

/// Index of the colon in an address text.
spec fn sep3(a: Address) -> int {
    sep2(a) + 1 + dec_digits(a.host.o3 as nat).len()
}

/// Where the separators and the digit runs of an address text lie.
proof fn lemma_text_structure(s: Seq<u8>, a: Address)
    requires
        s == address_text(a),
    ensures
        s.len() == sep3(a) + 1 + dec_digits(a.port as nat).len(),
        0 < sep0(a) < sep1(a) < sep2(a) < sep3(a) < s.len() - 1,
        s[sep0(a)] == 46,
        s[sep1(a)] == 46,
        s[sep2(a)] == 46,
        s[sep3(a)] == 58,
        forall|j: int| 0 <= j < sep0(a) ==> 48 <= #[trigger] s[j] <= 57,
        forall|j: int| sep0(a) < j < sep1(a) ==> 48 <= #[trigger] s[j] <= 57,
        forall|j: int| sep1(a) < j < sep2(a) ==> 48 <= #[trigger] s[j] <= 57,
        forall|j: int| sep2(a) < j < sep3(a) ==> 48 <= #[trigger] s[j] <= 57,
        forall|j: int| sep3(a) < j < s.len() ==> 48 <= #[trigger] s[j] <= 57,
        s.subrange(0, sep0(a)) == dec_digits(a.host.o0 as nat),
        s.subrange(sep0(a) + 1, sep1(a)) == dec_digits(a.host.o1 as nat),
        s.subrange(sep1(a) + 1, sep2(a)) == dec_digits(a.host.o2 as nat),
        s.subrange(sep2(a) + 1, sep3(a)) == dec_digits(a.host.o3 as nat),
        s.subrange(sep3(a) + 1, s.len() as int) == dec_digits(a.port as nat),
{
    let d0 = dec_digits(a.host.o0 as nat);
    let d1 = dec_digits(a.host.o1 as nat);
    let d2 = dec_digits(a.host.o2 as nat);
    let d3 = dec_digits(a.host.o3 as nat);
    let dp = dec_digits(a.port as nat);
    lemma_dec_digits_shape(a.host.o0 as nat);
    lemma_dec_digits_shape(a.host.o1 as nat);
    lemma_dec_digits_shape(a.host.o2 as nat);
    lemma_dec_digits_shape(a.host.o3 as nat);
    lemma_dec_digits_shape(a.port as nat);
    assert(s.subrange(0, sep0(a)) =~= d0);
    assert(s.subrange(sep0(a) + 1, sep1(a)) =~= d1);
    assert(s.subrange(sep1(a) + 1, sep2(a)) =~= d2);
    assert(s.subrange(sep2(a) + 1, sep3(a)) =~= d3);
    assert(s.subrange(sep3(a) + 1, s.len() as int) =~= dp);
    assert forall|j: int| 0 <= j < sep0(a) implies 48 <= #[trigger] s[j] <= 57 by {
        assert(s[j] == d0[j]);
    }
    assert forall|j: int| sep0(a) < j < sep1(a) implies 48 <= #[trigger] s[j] <= 57 by {
        assert(s[j] == s.subrange(sep0(a) + 1, sep1(a))[j - sep0(a) - 1]);
    }
    assert forall|j: int| sep1(a) < j < sep2(a) implies 48 <= #[trigger] s[j] <= 57 by {
        assert(s[j] == s.subrange(sep1(a) + 1, sep2(a))[j - sep1(a) - 1]);
    }
    assert forall|j: int| sep2(a) < j < sep3(a) implies 48 <= #[trigger] s[j] <= 57 by {
        assert(s[j] == s.subrange(sep2(a) + 1, sep3(a))[j - sep2(a) - 1]);
    }
    assert forall|j: int| sep3(a) < j < s.len() implies 48 <= #[trigger] s[j] <= 57 by {
        assert(s[j] == s.subrange(sep3(a) + 1, s.len() as int)[j - sep3(a) - 1]);
    }
}

/// A first dot at `p` in an address text lies at the first separator.
proof fn lemma_first_dot(s: Seq<u8>, a: Address, p: int)
    requires
        s == address_text(a),
        0 <= p < s.len(),
        s[p] == 46,
        forall|j: int| 0 <= j < p ==> s[j] != 46,
    ensures
        p == sep0(a),
{
    lemma_text_structure(s, a);
    if p < sep0(a) {
        assert(48 <= s[p] <= 57);
    }
    if p > sep0(a) {
        assert(s[sep0(a)] != 46);
    }
}

/// A first dot after the first separator lies at the second.
proof fn lemma_second_dot(s: Seq<u8>, a: Address, p: int)
    requires
        s == address_text(a),
        sep0(a) < p < s.len(),
        s[p] == 46,
        forall|j: int| sep0(a) < j < p ==> s[j] != 46,
    ensures
        p == sep1(a),
{
    lemma_text_structure(s, a);
    if p < sep1(a) {
        assert(48 <= s[p] <= 57);
    }
    if p > sep1(a) {
        assert(s[sep1(a)] != 46);
    }
}

/// A first dot after the second separator lies at the third.
proof fn lemma_third_dot(s: Seq<u8>, a: Address, p: int)
    requires
        s == address_text(a),
        sep1(a) < p < s.len(),
        s[p] == 46,
        forall|j: int| sep1(a) < j < p ==> s[j] != 46,
    ensures
        p == sep2(a),
{
    lemma_text_structure(s, a);
    if p < sep2(a) {
        assert(48 <= s[p] <= 57);
    }
    if p > sep2(a) {
        assert(s[sep2(a)] != 46);
    }
}

/// A first colon after the third separator lies at the fourth.
proof fn lemma_colon(s: Seq<u8>, a: Address, p: int)
    requires
        s == address_text(a),
        sep2(a) < p < s.len(),
        s[p] == 58,
        forall|j: int| sep2(a) < j < p ==> s[j] != 58,
    ensures
        p == sep3(a),
{
    lemma_text_structure(s, a);
    if p < sep3(a) {
        if p < sep3(a) && p != sep2(a) {
            assert(48 <= s[p] <= 57 || s[p] == 46) by {
                if sep2(a) < p < sep3(a) {
                    assert(48 <= s[p] <= 57);
                }
            }
        }
    }
    if p > sep3(a) {
        assert(s[sep3(a)] != 58);
    }
}

/// Parses the text `a.b.c.d:port` into an address. Succeeds exactly on the
/// canonical text of an address, the form `render_address` produces.
#[verifier::rlimit(100)]
pub fn parse_address(s: &[u8]) -> (r: Option<Address>)
    ensures
        match r {
            Some(a) => s@ == address_text(a),
            None => forall|a: Address| s@ != address_text(a),
        },
{
    let n = s.len();
    let p1 = match find_byte(s, 0, 46) {
        Some(i) => i,
        None => {
            proof {
                assert forall|a: Address| s@ != address_text(a) by {
                    if s@ == address_text(a) {
                        lemma_text_structure(s@, a);
                    }
                }
            }
            return None;
        },
    };
    let p2 = match find_byte(s, p1 + 1, 46) {
        Some(i) => i,
        None => {
            proof {
                assert forall|a: Address| s@ != address_text(a) by {
                    if s@ == address_text(a) {
                        lemma_text_structure(s@, a);
                        lemma_first_dot(s@, a, p1 as int);
                        assert(s@[sep1(a)] == 46);
                    }
                }
            }
            return None;
        },
    };
    let p3 = match find_byte(s, p2 + 1, 46) {
        Some(i) => i,
        None => {
            proof {
                assert forall|a: Address| s@ != address_text(a) by {
                    if s@ == address_text(a) {
                        lemma_text_structure(s@, a);
                        lemma_first_dot(s@, a, p1 as int);
                        lemma_second_dot(s@, a, p2 as int);
                        assert(s@[sep2(a)] == 46);
                    }
                }
            }
            return None;
        },
    };
    let pc = match find_byte(s, p3 + 1, 58) {
        Some(i) => i,
        None => {
            proof {
                assert forall|a: Address| s@ != address_text(a) by {
                    if s@ == address_text(a) {
                        lemma_text_structure(s@, a);
                        lemma_first_dot(s@, a, p1 as int);
                        lemma_second_dot(s@, a, p2 as int);
                        lemma_third_dot(s@, a, p3 as int);
                        assert(s@[sep3(a)] == 58);
                    }
                }
            }
            return None;
        },
    };
    let t0 = slice_subrange(s, 0, p1);
    let v0 = match crate::dec::parse_decimal(t0, 255) {
        Some(v) => v,
        None => {
            proof {
                assert forall|a: Address| s@ != address_text(a) by {
                    if s@ == address_text(a) {
                        lemma_text_structure(s@, a);
                        lemma_first_dot(s@, a, p1 as int);
                        assert(t0@ == dec_digits((a.host.o0 as u16) as nat));
                    }
                }
            }
            return None;
        },
    };
    let t1 = slice_subrange(s, p1 + 1, p2);
    let v1 = match crate::dec::parse_decimal(t1, 255) {
        Some(v) => v,
        None => {
            proof {
                assert forall|a: Address| s@ != address_text(a) by {
                    if s@ == address_text(a) {
                        lemma_text_structure(s@, a);
                        lemma_first_dot(s@, a, p1 as int);
                        lemma_second_dot(s@, a, p2 as int);
                        assert(t1@ == dec_digits((a.host.o1 as u16) as nat));
                    }
                }
            }
            return None;
        },
    };
    let t2 = slice_subrange(s, p2 + 1, p3);
    let v2 = match crate::dec::parse_decimal(t2, 255) {
        Some(v) => v,
        None => {
            proof {
                assert forall|a: Address| s@ != address_text(a) by {
                    if s@ == address_text(a) {
                        lemma_text_structure(s@, a);
                        lemma_first_dot(s@, a, p1 as int);
                        lemma_second_dot(s@, a, p2 as int);
                        lemma_third_dot(s@, a, p3 as int);
                        assert(t2@ == dec_digits((a.host.o2 as u16) as nat));
                    }
                }
            }
            return None;
        },
    };
    let t3 = slice_subrange(s, p3 + 1, pc);
    let v3 = match crate::dec::parse_decimal(t3, 255) {
        Some(v) => v,
        None => {
            proof {
                assert forall|a: Address| s@ != address_text(a) by {
                    if s@ == address_text(a) {
                        lemma_text_structure(s@, a);
                        lemma_first_dot(s@, a, p1 as int);
                        lemma_second_dot(s@, a, p2 as int);
                        lemma_third_dot(s@, a, p3 as int);
                        lemma_colon(s@, a, pc as int);
                        assert(t3@ == dec_digits((a.host.o3 as u16) as nat));
                    }
                }
            }
            return None;
        },
    };
    let tp = slice_subrange(s, pc + 1, n);
    let vp = match crate::dec::parse_decimal(tp, 65535) {
        Some(v) => v,
        None => {
            proof {
                assert forall|a: Address| s@ != address_text(a) by {
                    if s@ == address_text(a) {
                        lemma_text_structure(s@, a);
                        lemma_first_dot(s@, a, p1 as int);
                        lemma_second_dot(s@, a, p2 as int);
                        lemma_third_dot(s@, a, p3 as int);
                        lemma_colon(s@, a, pc as int);
                        assert(tp@ == dec_digits(a.port as nat));
                    }
                }
            }
            return None;
        },
    };
    let addr = Address {
        host: HostAddr { o0: v0 as u8, o1: v1 as u8, o2: v2 as u8, o3: v3 as u8 },
        port: vp,
    };
    proof {
        assert(dec_digits((v0 as u8) as nat) == t0@);
        assert(dec_digits((v1 as u8) as nat) == t1@);
        assert(dec_digits((v2 as u8) as nat) == t2@);
        assert(dec_digits((v3 as u8) as nat) == t3@);
        assert(s@ =~= t0@ + seq![46u8] + t1@ + seq![46u8] + t2@ + seq![46u8] + t3@ + seq![58u8]
            + tp@);
        assert(s@ =~= address_text(addr));
    }
    Some(addr)
}

/// Render is injective: distinct addresses have distinct texts.
pub proof fn lemma_address_text_injective(a: Address, b: Address)
    requires
        address_text(a) == address_text(b),
    ensures
        a == b,
{
    let pa = seq![
        dec_digits(a.host.o0 as nat),
        dec_digits(a.host.o1 as nat),
        dec_digits(a.host.o2 as nat),
        dec_digits(a.host.o3 as nat),
        dec_digits(a.port as nat),
    ];
    let pb = seq![
        dec_digits(b.host.o0 as nat),
        dec_digits(b.host.o1 as nat),
        dec_digits(b.host.o2 as nat),
        dec_digits(b.host.o3 as nat),
        dec_digits(b.port as nat),
    ];
    lemma_dec_digits_shape(a.host.o0 as nat);
    lemma_dec_digits_shape(a.host.o1 as nat);
    lemma_dec_digits_shape(a.host.o2 as nat);
    lemma_dec_digits_shape(a.host.o3 as nat);
    lemma_dec_digits_shape(a.port as nat);
    lemma_dec_digits_shape(b.host.o0 as nat);
    lemma_dec_digits_shape(b.host.o1 as nat);
    lemma_dec_digits_shape(b.host.o2 as nat);
    lemma_dec_digits_shape(b.host.o3 as nat);
    lemma_dec_digits_shape(b.port as nat);
    lemma_address_text_is_joined(a);
    lemma_address_text_is_joined(b);
    lemma_joined_parts_equal(pa, pb, 0);
    lemma_dec_digits_injective(a.host.o0 as nat, b.host.o0 as nat);
    lemma_dec_digits_injective(a.host.o1 as nat, b.host.o1 as nat);
    lemma_dec_digits_injective(a.host.o2 as nat, b.host.o2 as nat);
    lemma_dec_digits_injective(a.host.o3 as nat, b.host.o3 as nat);
    lemma_dec_digits_injective(a.port as nat, b.port as nat);
}

/// Joins numeral parts with single separator bytes, dots then a colon.
pub open spec fn joined(parts: Seq<Seq<u8>>, k: int) -> Seq<u8>
    decreases parts.len() - k,
{
    if k < 0 || k >= parts.len() {
        Seq::empty()
    } else if k == parts.len() - 1 {
        parts[k]
    } else {
        parts[k] + seq![if k == parts.len() - 2 { 58u8 } else { 46u8 }] + joined(parts, k + 1)
    }
}

/// `address_text` is `joined` over the five numeral parts.
pub proof fn lemma_address_text_is_joined(a: Address)
    ensures
        address_text(a) == joined(
            seq![
                dec_digits(a.host.o0 as nat),
                dec_digits(a.host.o1 as nat),
                dec_digits(a.host.o2 as nat),
                dec_digits(a.host.o3 as nat),
                dec_digits(a.port as nat),
            ],
            0,
        ),
{
    let p = seq![
        dec_digits(a.host.o0 as nat),
        dec_digits(a.host.o1 as nat),
        dec_digits(a.host.o2 as nat),
        dec_digits(a.host.o3 as nat),
        dec_digits(a.port as nat),
    ];
    assert(joined(p, 4) == p[4]);
    assert(joined(p, 3) == p[3] + seq![58u8] + joined(p, 4));
    assert(joined(p, 2) == p[2] + seq![46u8] + joined(p, 3));
    assert(joined(p, 1) == p[1] + seq![46u8] + joined(p, 2));
    assert(joined(p, 0) == p[0] + seq![46u8] + joined(p, 1));
    assert(address_text(a) =~= joined(p, 0));
}

/// If two joined digit-part texts are equal, the parts are equal pairwise.
proof fn lemma_joined_parts_equal(pa: Seq<Seq<u8>>, pb: Seq<Seq<u8>>, k: int)
    requires
        pa.len() == pb.len(),
        0 <= k <= pa.len(),
        forall|i: int| k <= i < pa.len() ==> all_digits(#[trigger] pa[i]) && pa[i].len() >= 1,
        forall|i: int| k <= i < pb.len() ==> all_digits(#[trigger] pb[i]) && pb[i].len() >= 1,
        joined(pa, k) == joined(pb, k),
    ensures
        forall|i: int| k <= i < pa.len() ==> pa[i] == pb[i],
    decreases pa.len() - k,
{
    if k >= pa.len() {
    } else if k == pa.len() - 1 {
        assert(joined(pa, k) == pa[k]);
        assert(joined(pb, k) == pb[k]);
    } else {
        let sep: u8 = if k == pa.len() - 2 {
            58u8
        } else {
            46u8
        };
        let ja = joined(pa, k);
        let jb = joined(pb, k);
        let la = pa[k].len() as int;
        let lb = pb[k].len() as int;
        assert(ja == pa[k] + seq![sep] + joined(pa, k + 1));
        assert(jb == pb[k] + seq![sep] + joined(pb, k + 1));
        assert(ja[la] == sep);
        assert(jb[lb] == sep);
        if la < lb {
            assert(jb[la] == pb[k][la]);
            assert(48 <= pb[k][la] <= 57);
            assert(ja[la] == jb[la]);
            assert(false);
        }
        if lb < la {
            assert(ja[lb] == pa[k][lb]);
            assert(48 <= pa[k][lb] <= 57);
            assert(false);
        }
        assert(la == lb);
        assert(pa[k] =~= pb[k]) by {
            assert forall|j: int| 0 <= j < la implies pa[k][j] == pb[k][j] by {
                assert(ja[j] == pa[k][j]);
                assert(jb[j] == pb[k][j]);
            }
        }
        assert(joined(pa, k + 1) =~= joined(pb, k + 1)) by {
            assert(joined(pa, k + 1).len() == ja.len() - la - 1);
            assert forall|j: int| 0 <= j < joined(pa, k + 1).len() implies #[trigger] joined(
                pa,
                k + 1,
            )[j] == joined(pb, k + 1)[j] by {
                assert(ja[la + 1 + j] == joined(pa, k + 1)[j]);
                assert(jb[lb + 1 + j] == joined(pb, k + 1)[j]);
            }
        }
        lemma_joined_parts_equal(pa, pb, k + 1);
    }
}

} // verus!
