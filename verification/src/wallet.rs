//! The wallet: the owner's slice of the UTXO set — every unspent output
//! whose locking script pays the owner's pubkey-hash — with its running
//! value and greedy input selection for payments.

use vstd::prelude::*;
use crate::crypto::{sha256, lossy_bytes, clone_bytes, pub_key_hash_of};
use crate::script::{Script, bytes_eq, script_eq, p2pkh_output};
use crate::tx::{TxModel, TxInModel, TxOutModel, UtxoEntry, UtxoEntryModel, tx_hash};
use crate::utxo::spend_inputs;
use crate::miner::Block;
use crate::seqlemmas::{lemma_filter_all, lemma_filter_remove_one};

verus! {

/// The sum of the values the entries hold.
pub open spec fn entries_value(s: Seq<UtxoEntryModel>) -> int
    decreases s.len(),
{
    if s.len() == 0 {
        0
    } else {
        entries_value(s.drop_last()) + s.last().output.value
    }
}

/// Whether an entry's output is locked to a pubkey-hash.
pub open spec fn pays(e: UtxoEntryModel, pkh: Seq<u8>) -> bool {
    e.output.script == p2pkh_output(pkh)
}

/// The wallet entries after the paying outputs of a transaction with the
/// given hash are added, from output `from` on.
pub open spec fn add_paying_outputs(
    s: Seq<UtxoEntryModel>,
    hash: Seq<u8>,
    outputs: Seq<TxOutModel>,
    pkh: Seq<u8>,
    from: int,
) -> Seq<UtxoEntryModel>
    decreases outputs.len() - from,
{
    if from < 0 || from >= outputs.len() {
        s
    } else {
        let e = UtxoEntryModel { tx_hash: hash, index: from as u64, output: outputs[from] };
        let next = if outputs[from].script == p2pkh_output(pkh) {
            crate::utxo::put(s, e)
        } else {
            s
        };
        add_paying_outputs(next, hash, outputs, pkh, from + 1)
    }
}

/// The wallet entries after one transaction: the inputs it spends leave,
/// the outputs paying the owner enter under the transaction's hash.
pub open spec fn wallet_apply_tx(s: Seq<UtxoEntryModel>, t: TxModel, pkh: Seq<u8>) -> Seq<
    UtxoEntryModel,
> {
    add_paying_outputs(spend_inputs(s, t.inputs), tx_hash(t), t.outputs, pkh, 0)
}

/// The wallet entries after the transactions of a block, in order, from
/// transaction `from` on.
pub open spec fn wallet_apply_txs(
    s: Seq<UtxoEntryModel>,
    txs: Seq<TxModel>,
    pkh: Seq<u8>,
    from: int,
) -> Seq<UtxoEntryModel>
    decreases txs.len() - from,
{
    if from < 0 || from >= txs.len() {
        s
    } else {
        wallet_apply_txs(wallet_apply_tx(s, txs[from], pkh), txs, pkh, from + 1)
    }
}

/// The sum of the entry values is bounded by their number times the largest
/// value one can hold.
pub proof fn lemma_entries_value_bound(s: Seq<UtxoEntryModel>)
    ensures
        0 <= entries_value(s) <= s.len() * (u64::MAX as int),
    decreases s.len(),
{
    if s.len() > 0 {
        lemma_entries_value_bound(s.drop_last());
        assert((s.len() - 1) * (u64::MAX as int) + (u64::MAX as int) == s.len() * (
        u64::MAX as int)) by (nonlinear_arith);
    }
}

/// Dropping one entry takes exactly its value off the sum.
pub proof fn lemma_entries_value_remove(s: Seq<UtxoEntryModel>, j: int)
    requires
        0 <= j < s.len(),
    ensures
        entries_value(s.remove(j)) == entries_value(s) - s[j].output.value,
    decreases s.len(),
{
    if j == s.len() - 1 {
        assert(s.remove(j) =~~= s.drop_last());
    } else {
        lemma_entries_value_remove(s.drop_last(), j);
        assert(s.remove(j).drop_last() =~~= s.drop_last().remove(j));
        assert(s.remove(j).last() == s.last());
    }
}

/// Appending one entry adds exactly its value to the sum.
pub proof fn lemma_entries_value_push(s: Seq<UtxoEntryModel>, e: UtxoEntryModel)
    ensures
        entries_value(s.push(e)) == entries_value(s) + e.output.value,
{
    assert(s.push(e).drop_last() =~~= s);
}

/// Whether the first `k` wallet entries are the greedy selection for a
/// target: the shortest prefix whose value strictly passes it.
pub open spec fn covers(s: Seq<UtxoEntryModel>, target: int, k: int) -> bool {
    &&& 1 <= k <= s.len()
    &&& entries_value(s.take(k)) > target
    &&& entries_value(s.take(k - 1)) <= target
}

/// At most one prefix covers a target: prefix sums never decrease, so two
/// shortest covering prefixes coincide.
pub proof fn lemma_covers_unique(s: Seq<UtxoEntryModel>, target: int, k1: int, k2: int)
    requires
        covers(s, target, k1),
        covers(s, target, k2),
    ensures
        k1 == k2,
{
    if k1 < k2 {
        lemma_entries_value_prefix(s.take(k2 - 1), k1);
        assert(s.take(k2 - 1).take(k1) =~~= s.take(k1));
    }
    if k2 < k1 {
        lemma_entries_value_prefix(s.take(k1 - 1), k2);
        assert(s.take(k1 - 1).take(k2) =~~= s.take(k2));
    }
}

/// A prefix of the entries has a sum bounded by the whole.
pub proof fn lemma_entries_value_prefix(s: Seq<UtxoEntryModel>, k: int)
    requires
        0 <= k <= s.len(),
    ensures
        entries_value(s.take(k)) <= entries_value(s),
    decreases s.len(),
{
    if k == s.len() {
        assert(s.take(k) =~~= s);
    } else if s.len() > 0 {
        lemma_entries_value_prefix(s.drop_last(), k);
        assert(s.drop_last().take(k) =~~= s.take(k));
        lemma_entries_value_bound(seq![s.last()]);
    }
}

/// The wallet.
pub struct Wallet {
    pub pub_key: Vec<u8>,
    pub pub_key_hash: Vec<u8>,
    pub value: u128,
    pub utxos: Vec<UtxoEntry>,
}

/// The mathematical form of the wallet.
#[verifier::ext_equal]
pub struct WalletModel {
    pub pub_key: Seq<u8>,
    pub pub_key_hash: Seq<u8>,
    pub value: u128,
    pub utxos: Seq<UtxoEntryModel>,
}

impl View for Wallet {
    type V = WalletModel;

    open spec fn view(&self) -> WalletModel {
        WalletModel {
            pub_key: self.pub_key@,
            pub_key_hash: self.pub_key_hash@,
            value: self.value,
            utxos: self.utxos.deep_view(),
        }
    }
}

/// The wallet is consistent: the running value is the sum over its
/// entries, every entry pays the owner, and no outpoint repeats.
pub open spec fn wallet_wf(w: WalletModel) -> bool {
    &&& w.value as int == entries_value(w.utxos)
    &&& forall|i: int| 0 <= i < w.utxos.len() ==> pays(#[trigger] w.utxos[i], w.pub_key_hash)
    &&& forall|i: int, j: int|
        0 <= i < j < w.utxos.len() ==> !((#[trigger] w.utxos[i]).tx_hash == (
        #[trigger] w.utxos[j]).tx_hash && w.utxos[i].index == w.utxos[j].index)
}

impl Wallet {
    /// The wallet is consistent.
    pub open spec fn wf(&self) -> bool {
        wallet_wf(self@)
    }

    /// An empty wallet for an owner, keyed by the hash of the public key.
    pub fn new(pub_key: Vec<u8>) -> (r: Wallet)
        ensures
            r.wf(),
            r@.pub_key == pub_key@,
            r@.pub_key_hash == pub_key_hash_of(pub_key@),
            r@.value == 0,
            r@.utxos =~~= Seq::<UtxoEntryModel>::empty(),
    {
        let lossy = lossy_bytes(pub_key.as_slice());
        let pkh = sha256(lossy.as_slice());
        let r = Wallet { pub_key, pub_key_hash: pkh, value: 0, utxos: Vec::new() };
        proof {
            assert(r@.utxos =~~= Seq::<UtxoEntryModel>::empty());
        }
        r
    }

    /// Copy the wallet.
    #[verifier::loop_isolation(false)]
    pub fn duplicate(&self) -> (r: Wallet)
        ensures
            r@ == self@,
    {
        let mut utxos: Vec<UtxoEntry> = Vec::new();
        let mut i: usize = 0;
        while i < self.utxos.len()
            invariant
                i <= self.utxos@.len(),
                utxos@.len() == i,
                utxos.deep_view() == self.utxos.deep_view().take(i as int),
            decreases self.utxos@.len() - i,
        {
            utxos.push(self.utxos[i].duplicate());
            i = i + 1;
            proof {
                assert(utxos.deep_view() =~~= self.utxos.deep_view().take(i as int));
            }
        }
        proof {
            assert(self.utxos.deep_view().take(self.utxos@.len() as int)
                =~~= self.utxos.deep_view());
        }
        let r = Wallet {
            pub_key: clone_bytes(&self.pub_key),
            pub_key_hash: clone_bytes(&self.pub_key_hash),
            value: self.value,
            utxos,
        };
        proof {
            assert(r@ =~~= self@);
        }
        r
    }

    /// The position of the entry under an outpoint, if the wallet holds
    /// one.
    #[verifier::loop_isolation(false)]
    fn find_entry(&self, hash: &Vec<u8>, index: u64) -> (r: Option<usize>)
        ensures
            r is None ==> forall|k: int|
                0 <= k < self@.utxos.len() ==> (crate::utxo::key_other(hash@, index))(
                    #[trigger] self@.utxos[k],
                ),
            r matches Some(j) ==> j < self@.utxos.len() && self@.utxos[j as int].tx_hash == hash@
                && self@.utxos[j as int].index == index && (forall|k: int|
                0 <= k < j ==> (crate::utxo::key_other(hash@, index))(#[trigger] self@.utxos[k])),
    {
        let mut j: usize = 0;
        while j < self.utxos.len()
            invariant
                j <= self@.utxos.len(),
                forall|k: int|
                    0 <= k < j ==> (crate::utxo::key_other(hash@, index))(
                        #[trigger] self@.utxos[k],
                    ),
            decreases self@.utxos.len() - j,
        {
            let e = &self.utxos[j];
            proof {
                assert(self@.utxos[j as int] == self.utxos@[j as int]@);
            }
            if crate::script::bytes_eq(&e.tx_hash, hash) && e.index == index {
                return Some(j);
            }
            j = j + 1;
        }
        None
    }

    /// Drop the entry under an outpoint, if the wallet holds one, taking
    /// its value off the running sum.
    fn spend_entry(&mut self, hash: &Vec<u8>, index: u64)
        requires
            old(self).wf(),
        ensures
            final(self).wf(),
            final(self)@.utxos == crate::utxo::remove_key(old(self)@.utxos, hash@, index),
            final(self)@.pub_key == old(self)@.pub_key,
            final(self)@.pub_key_hash == old(self)@.pub_key_hash,
    {
        let ghost pred = crate::utxo::key_other(hash@, index);
        match self.find_entry(hash, index) {
            None => {
                proof {
                    lemma_filter_all(self@.utxos, pred);
                }
            },
            Some(j) => {
                proof {
                    assert(!pred(self@.utxos[j as int]));
                    assert forall|k: int|
                        0 <= k < self@.utxos.len() && k != j implies pred(
                        #[trigger] self@.utxos[k],
                    ) by {
                        if k > j {
                            assert(!(self@.utxos[j as int].tx_hash == self@.utxos[k].tx_hash
                                && self@.utxos[j as int].index == self@.utxos[k].index));
                        }
                    }
                    lemma_filter_remove_one(self@.utxos, pred, j as int);
                    lemma_entries_value_remove(self@.utxos, j as int);
                    lemma_entries_value_bound(self@.utxos.remove(j as int));
                }
                let removed = self.utxos.remove(j);
                self.value = self.value - (removed.output.value as u128);
                proof {
                    assert(self@.utxos =~~= old(self)@.utxos.remove(j as int));
                }
            },
        }
    }

    /// Add an entry paying the owner, growing the running sum.
    fn gain_entry(&mut self, entry: UtxoEntry)
        requires
            old(self).wf(),
            pays(entry@, old(self)@.pub_key_hash),
            forall|i: int|
                0 <= i < old(self)@.utxos.len() ==> !((#[trigger] old(self)@.utxos[i]).tx_hash
                    == entry@.tx_hash && old(self)@.utxos[i].index == entry@.index),
        ensures
            final(self).wf(),
            final(self)@.utxos == old(self)@.utxos.push(entry@),
            final(self)@.pub_key == old(self)@.pub_key,
            final(self)@.pub_key_hash == old(self)@.pub_key_hash,
    {
        let n = self.utxos.len();
        proof {
            lemma_entries_value_bound(self@.utxos);
            assert(self@.utxos.len() == n);
            assert(self.value + (entry.output.value as u128) <= u128::MAX) by (nonlinear_arith)
                requires
                    self.value as int <= (n as int) * (u64::MAX as int),
                    n as int <= u64::MAX as int,
                    entry.output.value <= u64::MAX,
            ;
            lemma_entries_value_push(self@.utxos, entry@);
        }
        self.value = self.value + (entry.output.value as u128);
        self.utxos.push(entry);
        proof {
            assert(self@.utxos =~~= old(self)@.utxos.push(entry@));
        }
    }
}


impl Wallet {
    /// Apply a block: inputs spending the owner's entries leave the wallet
    /// and its value; outputs paying the owner enter under their
    /// transaction's hash.
    #[verifier::loop_isolation(false)]
    pub fn update(&mut self, block: &Block)
        requires
            old(self).wf(),
        ensures
            final(self).wf(),
            final(self)@.utxos == wallet_apply_txs(
                old(self)@.utxos,
                block@.transactions,
                old(self)@.pub_key_hash,
                0,
            ),
            final(self)@.pub_key == old(self)@.pub_key,
            final(self)@.pub_key_hash == old(self)@.pub_key_hash,
    {
        let ghost txs = block@.transactions;
        let ghost pkh = self@.pub_key_hash;
        let lock = Script::P2PKHOutput(clone_bytes(&self.pub_key_hash));
        let mut t: usize = 0;
        while t < block.transactions.len()
            invariant
                t <= txs.len(),
                self.wf(),
                lock@ == p2pkh_output(pkh),
                self@.pub_key == old(self)@.pub_key,
                self@.pub_key_hash == old(self)@.pub_key_hash,
                pkh == old(self)@.pub_key_hash,
                wallet_apply_txs(old(self)@.utxos, txs, pkh, 0) == wallet_apply_txs(
                    self@.utxos,
                    txs,
                    pkh,
                    t as int,
                ),
            decreases txs.len() - t,
        {
            let transaction = &block.transactions[t];
            proof {
                assert(block.transactions@[t as int].deep_view() == txs[t as int]);
            }
            let ghost tmodel = txs[t as int];
            let ghost ins = tmodel.inputs;
            proof {
                assert(spend_inputs(self@.utxos, ins.skip(0)) == spend_inputs(self@.utxos, ins))
                    by {
                    assert(ins.skip(0) =~~= ins);
                }
            }
            let ghost at_tx = self@.utxos;
            let mut i: usize = 0;
            while i < transaction.inputs.len()
                invariant
                    i <= ins.len(),
                    self.wf(),
                    lock@ == p2pkh_output(pkh),
                    self@.pub_key == old(self)@.pub_key,
                    self@.pub_key_hash == old(self)@.pub_key_hash,
                    pkh == old(self)@.pub_key_hash,
                    transaction.inputs@.len() == ins.len(),
                    forall|k: int|
                        0 <= k < ins.len() ==> #[trigger] transaction.inputs@[k].deep_view()
                            == ins[k],
                    spend_inputs(at_tx, ins) == spend_inputs(self@.utxos, ins.skip(i as int)),
                decreases ins.len() - i,
            {
                let input = &transaction.inputs[i];
                proof {
                    let rest = ins.skip(i as int);
                    assert(rest[0] == ins[i as int]);
                    assert(rest.drop_first() =~~= ins.skip(i as int + 1));
                }
                self.spend_entry(&input.prev, input.output_index);
                i = i + 1;
            }
            proof {
                assert(ins.skip(ins.len() as int) =~~= Seq::<TxInModel>::empty());
                assert(self@.utxos == spend_inputs(at_tx, ins));
            }
            let hash = transaction.hash();
            let ghost spent = self@.utxos;
            let ghost outs = tmodel.outputs;
            let mut j: usize = 0;
            while j < transaction.outputs.len()
                invariant
                    j <= outs.len(),
                    self.wf(),
                    lock@ == p2pkh_output(pkh),
                    self@.pub_key == old(self)@.pub_key,
                    self@.pub_key_hash == old(self)@.pub_key_hash,
                    pkh == old(self)@.pub_key_hash,
                    transaction.outputs@.len() == outs.len(),
                    forall|k: int|
                        0 <= k < outs.len() ==> #[trigger] transaction.outputs@[k].deep_view()
                            == outs[k],
                    hash@ == tx_hash(tmodel),
                    add_paying_outputs(spent, hash@, outs, pkh, 0) == add_paying_outputs(
                        self@.utxos,
                        hash@,
                        outs,
                        pkh,
                        j as int,
                    ),
                decreases outs.len() - j,
            {
                let output = &transaction.outputs[j];
                let ghost at_out = self@.utxos;
                let ghost e_model = UtxoEntryModel {
                    tx_hash: hash@,
                    index: j as u64,
                    output: outs[j as int],
                };
                if script_eq(&output.script, &lock) {
                    self.spend_entry(&hash, j as u64);
                    proof {
                        let cur = self@.utxos;
                        let pred = crate::utxo::key_other(hash@, j as u64);
                        assert forall|k: int|
                            0 <= k < cur.len() implies !((#[trigger] cur[k]).tx_hash == hash@
                            && cur[k].index == j as u64) by {
                            at_out.lemma_filter_pred(pred, k);
                        }
                    }
                    self.gain_entry(
                        UtxoEntry {
                            tx_hash: clone_bytes(&hash),
                            index: j as u64,
                            output: output.duplicate(),
                        },
                    );
                    proof {
                        assert(self@.utxos =~~= crate::utxo::put(at_out, e_model));
                    }
                }
                j = j + 1;
            }
            proof {
                assert(self@.utxos == add_paying_outputs(spent, hash@, outs, pkh, 0));
            }
            t = t + 1;
        }
    }

    /// Greedy input selection: the shortest prefix of the wallet's entries
    /// whose value passes `target`, with that value. `None` exactly when
    /// the whole wallet does not pass it.
    #[verifier::loop_isolation(false)]
    pub fn get_inputs(&self, target: u64) -> (r: Option<(Vec<UtxoEntry>, u128)>)
        requires
            self.wf(),
        ensures
            r is Some <==> entries_value(self@.utxos) > target,
            r matches Some((sel, total)) ==> {
                &&& covers(self@.utxos, target as int, sel@.len() as int)
                &&& sel@.len() <= self@.utxos.len()
                &&& sel.deep_view() == self@.utxos.take(sel@.len() as int)
                &&& total as int == entries_value(sel.deep_view())
                &&& total > target
                &&& entries_value(self@.utxos.take(sel@.len() - 1)) <= target
                &&& sel@.len() >= 1
            },
    {
        let mut selected: Vec<UtxoEntry> = Vec::new();
        let mut total: u128 = 0;
        let mut i: usize = 0;
        proof {
            assert(self@.utxos.take(0) =~~= Seq::<UtxoEntryModel>::empty());
        }
        while i < self.utxos.len()
            invariant
                i <= self@.utxos.len(),
                selected@.len() == i,
                selected.deep_view() == self@.utxos.take(i as int),
                total as int == entries_value(self@.utxos.take(i as int)),
                total <= target,
            decreases self@.utxos.len() - i,
        {
            let e = &self.utxos[i];
            proof {
                lemma_entries_value_bound(self@.utxos.take(i as int));
                assert(self@.utxos.take(i as int + 1).drop_last() =~~= self@.utxos.take(i as int));
                assert(self@.utxos.take(i as int + 1).last() == self@.utxos[i as int]);
                assert(self@.utxos[i as int] == self.utxos@[i as int]@);
            }
            selected.push(e.duplicate());
            let next = total + (e.output.value as u128);
            i = i + 1;
            proof {
                assert(selected.deep_view() =~~= self@.utxos.take(i as int));
            }
            if next > target as u128 {
                proof {
                    lemma_entries_value_prefix(self@.utxos, i as int);
                }
                return Some((selected, next));
            }
            total = next;
        }
        proof {
            assert(self@.utxos.take(self@.utxos.len() as int) =~~= self@.utxos);
        }
        None
    }
}

} // verus!
