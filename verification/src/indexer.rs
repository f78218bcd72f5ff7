//! The chain indexer's announcement predicate: which transactions announce
//! a maker, and the records those announcements install. The polling loop
//! that talks to the chain oracle lives outside the library; it hands each
//! block's transactions here as plain values.

use vstd::prelude::*;

use crate::directory::ServerInfo;
use crate::directory::ServerInfoView;
use crate::onion::extract_onion_address_from_script;
use crate::onion::spec_extract_onion;

verus! {

/// What the announcement predicate reads of a transaction: its absolute
/// locktime and its outputs' scriptPubKeys.
#[derive(Debug)]
pub struct TxModel {
    /// The transaction's absolute locktime, as a consensus `u32`.
    pub lock_time: u32,
    /// Each output's scriptPubKey bytes, in output order.
    pub outputs: Vec<Vec<u8>>,
}

/// The mathematical value of a [`TxModel`].
pub struct TxModelView {
    pub lock_time: u32,
    pub outputs: Seq<Seq<u8>>,
}

impl View for TxModel {
    type V = TxModelView;

    open spec fn view(&self) -> TxModelView {
        TxModelView { lock_time: self.lock_time, outputs: self.outputs.deep_view() }
    }
}

impl DeepView for TxModel {
    type V = TxModelView;

    open spec fn deep_view(&self) -> TxModelView {
        self.view()
    }
}

/// The address a transaction announces: its locktime must be non-zero, it
/// must have exactly two outputs, and the first output whose script frames
/// a well-formed onion record supplies the address.
pub open spec fn spec_tx_onion(tx: TxModelView) -> Option<Seq<char>> {
    if tx.lock_time != 0 && tx.outputs.len() == 2 {
        if spec_extract_onion(tx.outputs[0]) is Some {
            spec_extract_onion(tx.outputs[0])
        } else {
            spec_extract_onion(tx.outputs[1])
        }
    } else {
        None
    }
}

/// Every announcement satisfies the predicate: non-zero locktime, exactly
/// two outputs, and at least one output framing a well-formed onion
/// payload.
pub proof fn lemma_announcement_sound(tx: TxModelView)
    requires
        spec_tx_onion(tx) is Some,
    ensures
        tx.lock_time != 0,
        tx.outputs.len() == 2,
        exists|j: int|
            0 <= j < tx.outputs.len() && spec_extract_onion(#[trigger] tx.outputs[j]) is Some,
{
    if spec_extract_onion(tx.outputs[0]) is Some {
        assert(spec_extract_onion(tx.outputs[0]) is Some);
    } else {
        assert(spec_extract_onion(tx.outputs[1]) is Some);
    }
}

/// Scans one transaction; the record an announcement installs is keyed by
/// the announced address, stamped `now`, and not stale.
pub fn scan_transaction(tx: &TxModel, now: u64) -> (r: Option<(String, ServerInfo)>)
    ensures
        (r is Some) == (spec_tx_onion(tx@) is Some),
        r matches Some(p) ==> spec_tx_onion(tx@) == Some(p.0@) && p.1@ == (ServerInfoView {
            onion_address: p.0@,
            last_seen: now,
            stale: false,
        }),
{
    if tx.lock_time == 0 {
        return None;
    }
    if tx.outputs.len() != 2 {
        return None;
    }
    proof {
        assert(tx@.outputs[0] == tx.outputs@[0]@);
        assert(tx@.outputs[1] == tx.outputs@[1]@);
    }
    let found = match extract_onion_address_from_script(tx.outputs[0].as_slice()) {
        Some(a) => Some(a),
        None => extract_onion_address_from_script(tx.outputs[1].as_slice()),
    };
    match found {
        Some(addr) => {
            let rec = ServerInfo { onion_address: addr.clone(), last_seen: now, stale: false };
            Some((addr, rec))
        },
        None => None,
    }
}

/// The announcements of a block's transactions, in transaction order.
pub open spec fn spec_scan_block(txs: Seq<TxModelView>, now: u64) -> Seq<(Seq<char>, ServerInfoView)>
    decreases txs.len(),
{
    if txs.len() == 0 {
        Seq::empty()
    } else {
        spec_scan_block(txs.drop_last(), now) + (match spec_tx_onion(txs.last()) {
            Some(a) => seq![
                (a, ServerInfoView { onion_address: a, last_seen: now, stale: false }),
            ],
            None => Seq::empty(),
        })
    }
}

/// Every entry the block scan emits is the announcement of some
/// transaction in the block.
pub proof fn lemma_scan_block_sound(txs: Seq<TxModelView>, now: u64, i: int)
    requires
        0 <= i < spec_scan_block(txs, now).len(),
    ensures
        exists|j: int|
            0 <= j < txs.len() && spec_tx_onion(#[trigger] txs[j]) == Some(
                spec_scan_block(txs, now)[i].0,
            ) && spec_scan_block(txs, now)[i].1 == (ServerInfoView {
                onion_address: spec_scan_block(txs, now)[i].0,
                last_seen: now,
                stale: false,
            }),
    decreases txs.len(),
{
    let s = spec_scan_block(txs, now);
    let prefix = spec_scan_block(txs.drop_last(), now);
    if i < prefix.len() {
        lemma_scan_block_sound(txs.drop_last(), now, i);
        let j = choose|j: int|
            0 <= j < txs.drop_last().len() && spec_tx_onion(#[trigger] txs.drop_last()[j]) == Some(
                prefix[i].0,
            ) && prefix[i].1 == (ServerInfoView {
                onion_address: prefix[i].0,
                last_seen: now,
                stale: false,
            });
        assert(txs[j] == txs.drop_last()[j]);
        assert(s[i] == prefix[i]);
        assert(spec_tx_onion(txs[j]) == Some(s[i].0));
    } else {
        assert(spec_tx_onion(txs.last()) is Some);
        assert(txs[txs.len() - 1] == txs.last());
        assert(s[i] == (spec_tx_onion(txs.last()).unwrap(), ServerInfoView {
            onion_address: spec_tx_onion(txs.last()).unwrap(),
            last_seen: now,
            stale: false,
        }));
    }
}

/// Scans a block's transactions in order, collecting the `Add` payloads the
/// indexer emits.
pub fn scan_block(txs: &Vec<TxModel>, now: u64) -> (r: Vec<(String, ServerInfo)>)
    ensures
        r@.map_values(|p: (String, ServerInfo)| (p.0@, p.1@)) == spec_scan_block(
            txs.deep_view(),
            now,
        ),
{
    let n = txs.len();
    let mut out: Vec<(String, ServerInfo)> = Vec::new();
    let mut i: usize = 0;
    while i < n
        invariant
            0 <= i <= n,
            n == txs@.len(),
            out@.map_values(|p: (String, ServerInfo)| (p.0@, p.1@)) =~= spec_scan_block(
                txs.deep_view().take(i as int),
                now,
            ),
        decreases n - i,
    {
        let ghost pre = out@;
        proof {
            assert(txs.deep_view().take(i + 1).drop_last() =~= txs.deep_view().take(i as int));
            assert(txs.deep_view().take(i + 1).last() == txs.deep_view()[i as int]);
            assert(txs@[i as int]@ == txs.deep_view()[i as int]);
        }
        match scan_transaction(&txs[i], now) {
            Some(p) => {
                out.push(p);
                proof {
                    assert(out@.drop_last() =~= pre);
                    assert(out@.map_values(|p: (String, ServerInfo)| (p.0@, p.1@)) =~= pre.map_values(
                        |p: (String, ServerInfo)| (p.0@, p.1@),
                    ).push((out@.last().0@, out@.last().1@)));
                }
            },
            None => {
            },
        }
        i = i + 1;
        proof {
            assert(out@.map_values(|p: (String, ServerInfo)| (p.0@, p.1@)) =~= spec_scan_block(
                txs.deep_view().take(i as int),
                now,
            ));
        }
    }
    proof {
        assert(txs.deep_view().take(n as int) =~= txs.deep_view());
    }
    out
}

} // verus!
