//! The discovery protocol: a node periodically broadcasts `HELLO: <port>`
//! announcing its listening port, and decides for each announcement it hears
//! whether to dial the announcer. It never dials itself and never dials an
//! address it is already connected to.

use vstd::prelude::*;

verus! {

use crate::address::{Address, HostAddr};
use crate::dec::{dec_digits, lemma_dec_digits_shape, lemma_dec_digits_value};
use crate::registry::PeerRegistry;
use vstd::slice::slice_subrange;

/// The bytes of `HELLO: `, the fixed head of every announcement.
pub open spec fn hello_prefix() -> Seq<u8> {
    seq![72u8, 69u8, 76u8, 76u8, 79u8, 58u8, 32u8]
}

/// The payload announcing `port`: `HELLO: ` then the port in decimal.
pub open spec fn announcement_text(port: u16) -> Seq<u8> {
    hello_prefix() + dec_digits(port as nat)
}

/// Builds the payload that the announcer broadcasts each period.
pub fn encode_announcement(port: u16) -> (r: Vec<u8>)
    ensures
        r@ == announcement_text(port),
{
    let mut r: Vec<u8> = Vec::new();
    r.push(72);
    r.push(69);
    r.push(76);
    r.push(76);
    r.push(79);
    r.push(58);
    r.push(32);
    let d = crate::dec::encode_decimal(port);
    crate::address::push_all(&mut r, &d);
    proof {
        assert(r@ =~= announcement_text(port));
    }
    r
}

/// Parses a received payload. Succeeds exactly on the text that
/// `encode_announcement` produces for some port; everything else is a
/// malformed announcement and is discarded.
pub fn parse_announcement(s: &[u8]) -> (r: Option<u16>)
    ensures
        match r {
            Some(p) => s@ == announcement_text(p),
            None => forall|p: u16| s@ != announcement_text(p),
        },
{
    let n = s.len();
    if n < 8 {
        proof {
            assert forall|p: u16| s@ != announcement_text(p) by {
                lemma_dec_digits_shape(p as nat);
            }
        }
        return None;
    }
    if s[0] != 72 || s[1] != 69 || s[2] != 76 || s[3] != 76 || s[4] != 79 || s[5] != 58 || s[6]
        != 32 {
        proof {
            assert forall|p: u16| s@ != announcement_text(p) by {
                if s@ == announcement_text(p) {
                    assert(s@[0] == hello_prefix()[0]);
                    assert(s@[1] == hello_prefix()[1]);
                    assert(s@[2] == hello_prefix()[2]);
                    assert(s@[3] == hello_prefix()[3]);
                    assert(s@[4] == hello_prefix()[4]);
                    assert(s@[5] == hello_prefix()[5]);
                    assert(s@[6] == hello_prefix()[6]);
                }
            }
        }
        return None;
    }
    let tp = slice_subrange(s, 7, n);
    match crate::dec::parse_decimal(tp, 65535) {
        Some(p) => {
            proof {
                assert(s@ =~= announcement_text(p));
            }
            Some(p)
        },
        None => {
            proof {
                assert forall|p: u16| s@ != announcement_text(p) by {
                    if s@ == announcement_text(p) {
                        assert(tp@ =~= dec_digits(p as nat));
                    }
                }
            }
            None
        },
    }
}

/// Ports are announced faithfully: equal payloads announce equal ports.
pub proof fn lemma_announcement_injective(p: u16, q: u16)
    requires
        announcement_text(p) == announcement_text(q),
    ensures
        p == q,
{
    let dp = dec_digits(p as nat);
    let dq = dec_digits(q as nat);
    assert(announcement_text(p).len() == 7 + dp.len());
    assert(announcement_text(q).len() == 7 + dq.len());
    assert(dp =~= dq) by {
        assert forall|j: int| 0 <= j < dp.len() implies dp[j] == dq[j] by {
            assert(announcement_text(p)[7 + j] == dp[j]);
            assert(announcement_text(q)[7 + j] == dq[j]);
        }
    }
    lemma_dec_digits_value(p as nat);
    lemma_dec_digits_value(q as nat);
}

/// The listener's decision for one received announcement: the address to
/// dial, or nothing. It never dials when the announced port is this node's
/// own listening port, and never dials an address already registered.
pub fn discovery_dial_target(
    local_port: u16,
    sender: HostAddr,
    payload: &[u8],
    registry: &PeerRegistry,
) -> (r: Option<Address>)
    ensures
        match r {
            Some(t) => {
                &&& t.host == sender
                &&& payload@ == announcement_text(t.port)
                &&& t.port != local_port
                &&& !registry@.contains_key(t)
            },
            None => forall|p: u16|
                payload@ == announcement_text(p) ==> p == local_port || registry@.contains_key(
                    Address { host: sender, port: p },
                ),
        },
{
    match parse_announcement(payload) {
        None => None,
        Some(port) => {
            if port == local_port {
                proof {
                    assert forall|p: u16| payload@ == announcement_text(p) implies p == local_port
                        || registry@.contains_key(Address { host: sender, port: p }) by {
                        lemma_announcement_injective(p, port);
                    }
                }
                None
            } else {
                let target = Address { host: sender, port };
                if registry.contains(&target) {
                    proof {
                        assert forall|p: u16|
                            payload@ == announcement_text(p) implies p == local_port
                            || registry@.contains_key(Address { host: sender, port: p }) by {
                            lemma_announcement_injective(p, port);
                        }
                    }
                    None
                } else {
                    Some(target)
                }
            }
        },
    }
}

} // verus!
