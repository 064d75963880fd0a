//! Best-effort broadcast accounting. A broadcast writes to every link of a
//! registry snapshot; one peer's failure never aborts delivery to the
//! others. Given the per-link outcomes, this module says exactly which peers
//! received the message and which failed.

use vstd::prelude::*;

verus! {

use crate::address::Address;
use crate::link::PeerLink;

/// The addresses of the targets whose outcome equals `keep`, in snapshot
/// order.
pub open spec fn outcome_addrs(targets: Seq<PeerLink>, ok: Seq<bool>, keep: bool) -> Seq<Address>
    decreases targets.len(),
{
    if targets.len() == 0 || targets.len() != ok.len() {
        Seq::empty()
    } else if ok.last() == keep {
        outcome_addrs(targets.drop_last(), ok.drop_last(), keep).push(targets.last().addr)
    } else {
        outcome_addrs(targets.drop_last(), ok.drop_last(), keep)
    }
}

/// Broadcasting to a snapshot of size N with K unreachable links delivers to
/// exactly N - K peers and reports exactly the K others: every target lands
/// on one side or the other, never both, never neither.
pub proof fn lemma_broadcast_partition(targets: Seq<PeerLink>, ok: Seq<bool>)
    requires
        targets.len() == ok.len(),
    ensures
        outcome_addrs(targets, ok, true).len() + outcome_addrs(targets, ok, false).len()
            == targets.len(),
    decreases targets.len(),
{
    if targets.len() > 0 {
        lemma_broadcast_partition(targets.drop_last(), ok.drop_last());
    }
}

/// What one broadcast call achieved: who got the message, who did not.
pub struct BroadcastReport {
    pub delivered: Vec<Address>,
    pub failed: Vec<Address>,
}

/// Folds the per-link send outcomes of one broadcast over a snapshot into
/// the report shown to the sender. The call itself never fails: a failed
/// link only moves its address to the failed side.
pub fn broadcast_report(targets: &Vec<PeerLink>, sent_ok: &Vec<bool>) -> (r: BroadcastReport)
    requires
        targets@.len() == sent_ok@.len(),
    ensures
        r.delivered@ == outcome_addrs(targets@, sent_ok@, true),
        r.failed@ == outcome_addrs(targets@, sent_ok@, false),
        r.delivered@.len() + r.failed@.len() == targets@.len(),
{
    let n = targets.len();
    let mut delivered: Vec<Address> = Vec::new();
    let mut failed: Vec<Address> = Vec::new();
    let mut i: usize = 0;
    while i < n
        invariant
            n == targets@.len(),
            n == sent_ok@.len(),
            0 <= i <= n,
            delivered@ == outcome_addrs(
                targets@.subrange(0, i as int),
                sent_ok@.subrange(0, i as int),
                true,
            ),
            failed@ == outcome_addrs(
                targets@.subrange(0, i as int),
                sent_ok@.subrange(0, i as int),
                false,
            ),
        decreases n - i,
    {
        proof {
            let tpre = targets@.subrange(0, i as int);
            let opre = sent_ok@.subrange(0, i as int);
            let text = targets@.subrange(0, i + 1);
            let oext = sent_ok@.subrange(0, i + 1);
            assert(text.drop_last() =~= tpre);
            assert(oext.drop_last() =~= opre);
            assert(text.last() == targets@[i as int]);
            assert(oext.last() == sent_ok@[i as int]);
        }
        if sent_ok[i] {
            delivered.push(targets[i].addr);
        } else {
            failed.push(targets[i].addr);
        }
        i = i + 1;
    }
    proof {
        assert(targets@.subrange(0, n as int) =~= targets@);
        assert(sent_ok@.subrange(0, n as int) =~= sent_ok@);
        lemma_broadcast_partition(targets@, sent_ok@);
    }
    BroadcastReport { delivered, failed }
}

} // verus!
