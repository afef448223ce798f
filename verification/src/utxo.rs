//! The UTXO set: the outputs not yet spent, keyed by `(tx_hash, index)`,
//! with fee computation, transaction validation against the script machine,
//! and block application.

use vstd::prelude::*;
use crate::script::{Script, script_passes};
use crate::tx::{Transaction, TxModel, TxInModel, TxOutModel, TxOutput, UtxoEntry, UtxoEntryModel,
    tx_hash, sighash_of};
use crate::script::bytes_eq;
use crate::miner::Block;

verus! {

/// The output the set holds under a key, scanning the latest entry first.
pub open spec fn lookup(s: Seq<UtxoEntryModel>, hash: Seq<u8>, index: u64) -> Option<TxOutModel>
    decreases s.len(),
{
    if s.len() == 0 {
        None
    } else if s.last().tx_hash == hash && s.last().index == index {
        Some(s.last().output)
    } else {
        lookup(s.drop_last(), hash, index)
    }
}

/// Keeping an entry that does not stand under the named key.
pub open spec fn key_other(hash: Seq<u8>, index: u64) -> spec_fn(UtxoEntryModel) -> bool {
    |e: UtxoEntryModel| !(e.tx_hash == hash && e.index == index)
}

/// The set with every entry under a key removed.
pub open spec fn remove_key(s: Seq<UtxoEntryModel>, hash: Seq<u8>, index: u64) -> Seq<
    UtxoEntryModel,
> {
    s.filter(key_other(hash, index))
}

/// The set with an entry inserted, replacing any entry under the same key.
pub open spec fn put(s: Seq<UtxoEntryModel>, e: UtxoEntryModel) -> Seq<UtxoEntryModel> {
    remove_key(s, e.tx_hash, e.index).push(e)
}

/// The set after the named inputs are spent, in order.
pub open spec fn spend_inputs(s: Seq<UtxoEntryModel>, inputs: Seq<TxInModel>) -> Seq<
    UtxoEntryModel,
>
    decreases inputs.len(),
{
    if inputs.len() == 0 {
        s
    } else {
        spend_inputs(
            remove_key(s, inputs[0].prev, inputs[0].output_index),
            inputs.drop_first(),
        )
    }
}

/// The set after the outputs of a transaction with the given hash are added,
/// from output `from` on.
pub open spec fn add_outputs(
    s: Seq<UtxoEntryModel>,
    hash: Seq<u8>,
    outputs: Seq<TxOutModel>,
    from: int,
) -> Seq<UtxoEntryModel>
    decreases outputs.len() - from,
{
    if from < 0 || from >= outputs.len() {
        s
    } else {
        add_outputs(
            put(s, UtxoEntryModel { tx_hash: hash, index: from as u64, output: outputs[from] }),
            hash,
            outputs,
            from + 1,
        )
    }
}

/// The set after a transaction is applied: its inputs spent, its outputs
/// added under its content hash.
pub open spec fn apply_tx(s: Seq<UtxoEntryModel>, t: TxModel) -> Seq<UtxoEntryModel> {
    add_outputs(spend_inputs(s, t.inputs), tx_hash(t), t.outputs, 0)
}

/// The set after the transactions of a block are applied in order, from
/// transaction `from` on.
pub open spec fn apply_txs(s: Seq<UtxoEntryModel>, txs: Seq<TxModel>, from: int) -> Seq<
    UtxoEntryModel,
>
    decreases txs.len() - from,
{
    if from < 0 || from >= txs.len() {
        s
    } else {
        apply_txs(apply_tx(s, txs[from]), txs, from + 1)
    }
}

/// The total value of the outputs a transaction names as inputs; `None`
/// when an input is missing from the set.
pub open spec fn inputs_total(s: Seq<UtxoEntryModel>, inputs: Seq<TxInModel>) -> Option<int>
    decreases inputs.len(),
{
    if inputs.len() == 0 {
        Some(0)
    } else {
        match inputs_total(s, inputs.drop_last()) {
            None => None,
            Some(t) => match lookup(s, inputs.last().prev, inputs.last().output_index) {
                None => None,
                Some(o) => Some(t + o.value),
            },
        }
    }
}

/// The total value of a transaction's outputs.
pub open spec fn outputs_total(outputs: Seq<TxOutModel>) -> int
    decreases outputs.len(),
{
    if outputs.len() == 0 {
        0
    } else {
        outputs_total(outputs.drop_last()) + outputs.last().value
    }
}

/// Whether the fee of a transaction is defined against the set: every input
/// present, the input total within range, and no more paid out than in.
pub open spec fn fee_defined(s: Seq<UtxoEntryModel>, t: TxModel) -> bool {
    &&& inputs_total(s, t.inputs) is Some
    &&& inputs_total(s, t.inputs).unwrap() <= u64::MAX
    &&& outputs_total(t.outputs) <= inputs_total(s, t.inputs).unwrap()
}

/// The fee of a transaction: what its inputs carry beyond its outputs.
pub open spec fn spec_fee(s: Seq<UtxoEntryModel>, t: TxModel) -> int {
    inputs_total(s, t.inputs).unwrap() - outputs_total(t.outputs)
}

/// Whether a transaction is accepted against the set: a coinbase always;
/// any other when its fee is defined and, for each input, the concatenation
/// of its unlocking script and the spent output's locking script passes the
/// script machine.
pub open spec fn spec_validate_tx(s: Seq<UtxoEntryModel>, t: TxModel) -> bool {
    if t.input_count == 0 {
        true
    } else {
        &&& fee_defined(s, t)
        &&& forall|i: int|
            0 <= i < t.inputs.len() ==> script_passes(
                (#[trigger] t.inputs[i]).script + lookup(
                    s,
                    t.inputs[i].prev,
                    t.inputs[i].output_index,
                ).unwrap().script,
                sighash_of(t, i, lookup(s, t.inputs[i].prev, t.inputs[i].output_index).unwrap()),
            )
    }
}

/// Whether every transaction of a block is accepted against the set as it
/// stands before the block.
pub open spec fn spec_block_valid(s: Seq<UtxoEntryModel>, txs: Seq<TxModel>) -> bool {
    forall|i: int| 0 <= i < txs.len() ==> spec_validate_tx(s, #[trigger] txs[i])
}

/// A prefix of the inputs has a total bounded by the whole, and a missing
/// input anywhere makes the whole undefined.
pub proof fn lemma_inputs_total_prefix(s: Seq<UtxoEntryModel>, inputs: Seq<TxInModel>, k: int)
    requires
        0 <= k <= inputs.len(),
    ensures
        inputs_total(s, inputs) is Some ==> inputs_total(s, inputs.take(k)) is Some
            && inputs_total(s, inputs.take(k)).unwrap() <= inputs_total(s, inputs).unwrap(),
        inputs_total(s, inputs.take(k)) is None ==> inputs_total(s, inputs) is None,
    decreases inputs.len(),
{
    if k == inputs.len() {
        assert(inputs.take(k) =~~= inputs);
    } else if inputs.len() > 0 {
        lemma_inputs_total_prefix(s, inputs.drop_last(), k);
        assert(inputs.drop_last().take(k) =~~= inputs.take(k));
    }
}

/// When the input total is defined, every named input is present.
pub proof fn lemma_inputs_total_present(s: Seq<UtxoEntryModel>, inputs: Seq<TxInModel>, i: int)
    requires
        0 <= i < inputs.len(),
        inputs_total(s, inputs) is Some,
    ensures
        lookup(s, inputs[i].prev, inputs[i].output_index) is Some,
    decreases inputs.len(),
{
    if i == inputs.len() - 1 {
        assert(inputs.last() == inputs[i]);
    } else {
        lemma_inputs_total_present(s, inputs.drop_last(), i);
    }
}

/// The UTXO set.
pub struct UTXOS {
    pub entries: Vec<UtxoEntry>,
}

impl View for UTXOS {
    type V = Seq<UtxoEntryModel>;

    open spec fn view(&self) -> Seq<UtxoEntryModel> {
        self.entries.deep_view()
    }
}

impl UTXOS {
    /// The empty set.
    pub fn new() -> (r: UTXOS)
        ensures
            r@ == Seq::<UtxoEntryModel>::empty(),
    {
        let r = UTXOS { entries: Vec::new() };
        proof {
            assert(r@ =~~= Seq::<UtxoEntryModel>::empty());
        }
        r
    }

    /// Copy the set.
    #[verifier::loop_isolation(false)]
    pub fn duplicate(&self) -> (r: UTXOS)
        ensures
            r@ == self@,
    {
        let mut entries: Vec<UtxoEntry> = Vec::new();
        let mut i: usize = 0;
        while i < self.entries.len()
            invariant
                i <= self.entries@.len(),
                entries@.len() == i,
                entries.deep_view() == self.entries.deep_view().take(i as int),
            decreases self.entries@.len() - i,
        {
            entries.push(self.entries[i].duplicate());
            i = i + 1;
            proof {
                assert(entries.deep_view() =~~= self.entries.deep_view().take(i as int));
            }
        }
        proof {
            assert(self.entries.deep_view().take(self.entries@.len() as int)
                =~~= self.entries.deep_view());
        }
        UTXOS { entries }
    }

    /// The number of entries the set holds.
    pub fn size(&self) -> (r: usize)
        ensures
            r == self@.len(),
    {
        self.entries.len()
    }

    /// Remove every entry under a key.
    #[verifier::loop_isolation(false)]
    pub fn remove_entry(&mut self, hash: &Vec<u8>, index: u64)
        ensures
            final(self)@ == remove_key(old(self)@, hash@, index),
    {
        let ghost pred = key_other(hash@, index);
        let mut kept: Vec<UtxoEntry> = Vec::new();
        let mut i: usize = 0;
        proof {
            reveal(Seq::filter);
            assert(old(self)@.take(0) =~~= Seq::<UtxoEntryModel>::empty());
            assert(Seq::<UtxoEntryModel>::empty().filter(pred) =~~= Seq::<
                UtxoEntryModel,
            >::empty());
            assert(kept.deep_view() =~~= Seq::<UtxoEntryModel>::empty());
        }
        while i < self.entries.len()
            invariant
                i <= self.entries@.len(),
                kept.deep_view() == self@.take(i as int).filter(pred),
            decreases self.entries@.len() - i,
        {
            let e = &self.entries[i];
            let same = bytes_eq(&e.tx_hash, hash) && e.index == index;
            proof {
                let t = self@.take(i as int + 1);
                assert(t.drop_last() =~~= self@.take(i as int));
                assert(t.last() == self@[i as int]);
                reveal(Seq::filter);
                assert(t.filter(pred) == if pred(t.last()) {
                    t.drop_last().filter(pred).push(t.last())
                } else {
                    t.drop_last().filter(pred)
                });
            }
            if !same {
                kept.push(e.duplicate());
                proof {
                    assert(kept.deep_view() =~~= self@.take(i as int + 1).filter(pred));
                }
            }
            i = i + 1;
        }
        proof {
            reveal(Seq::filter);
            assert(self@.take(self@.len() as int) =~~= self@);
        }
        self.entries = kept;
    }

    /// Insert an output under `(tx_hash, index)`, replacing what the key
    /// held.
    pub fn add(&mut self, tx_hash: Vec<u8>, index: u64, output: TxOutput)
        ensures
            final(self)@ == put(
                old(self)@,
                UtxoEntryModel { tx_hash: tx_hash@, index, output: output@ },
            ),
    {
        self.remove_entry(&tx_hash, index);
        self.entries.push(UtxoEntry { tx_hash, index, output });
        proof {
            assert(self@ =~~= put(
                old(self)@,
                UtxoEntryModel { tx_hash: tx_hash@, index, output: output@ },
            ));
        }
    }

    /// The output under a key, if the set holds one.
    #[verifier::loop_isolation(false)]
    pub fn get(&self, output_hash: &Vec<u8>, index: u64) -> (r: Option<TxOutput>)
        ensures
            match r {
                Some(o) => lookup(self@, output_hash@, index) == Some(o@),
                None => lookup(self@, output_hash@, index) is None,
            },
    {
        proof {
            assert(self@.take(self@.len() as int) =~~= self@);
        }
        let mut i: usize = self.entries.len();
        while i > 0
            invariant
                i <= self.entries@.len(),
                lookup(self@, output_hash@, index) == lookup(
                    self@.take(i as int),
                    output_hash@,
                    index,
                ),
            decreases i,
        {
            i = i - 1;
            let e = &self.entries[i];
            proof {
                let t = self@.take(i as int + 1);
                assert(t.drop_last() =~~= self@.take(i as int));
                assert(t.last() == self@[i as int]);
            }
            if bytes_eq(&e.tx_hash, output_hash) && e.index == index {
                return Some(e.output.duplicate());
            }
        }
        proof {
            assert(self@.take(0) =~~= Seq::<UtxoEntryModel>::empty());
        }
        None
    }

    /// The fee a transaction pays: the value of its named inputs beyond the
    /// value of its outputs. `None` exactly when an input is missing, the
    /// input total leaves the machine range, or the outputs exceed the
    /// inputs.
    #[verifier::loop_isolation(false)]
    pub fn get_fee(&self, transaction: &Transaction) -> (r: Option<u64>)
        ensures
            r is Some <==> fee_defined(self@, transaction@),
            r matches Some(f) ==> f == spec_fee(self@, transaction@),
    {
        let ghost ins = transaction@.inputs;
        let mut total_in: u64 = 0;
        let mut i: usize = 0;
        proof {
            assert(ins.take(0) =~~= Seq::<TxInModel>::empty());
        }
        while i < transaction.inputs.len()
            invariant
                i <= ins.len(),
                inputs_total(self@, ins.take(i as int)) == Some(total_in as int),
            decreases ins.len() - i,
        {
            let input = &transaction.inputs[i];
            let got = self.get(&input.prev, input.output_index);
            proof {
                let t = ins.take(i as int + 1);
                assert(t.drop_last() =~~= ins.take(i as int));
                assert(t.last() == ins[i as int]);
            }
            match got {
                None => {
                    proof {
                        lemma_inputs_total_prefix(self@, ins, i as int + 1);
                    }
                    return None;
                },
                Some(o) => {
                    if o.value > u64::MAX - total_in {
                        proof {
                            lemma_inputs_total_prefix(self@, ins, i as int + 1);
                        }
                        return None;
                    }
                    total_in = total_in + o.value;
                },
            }
            i = i + 1;
        }
        proof {
            assert(ins.take(ins.len() as int) =~~= ins);
        }
        let ghost outs = transaction@.outputs;
        let mut total_out: u64 = 0;
        let mut j: usize = 0;
        proof {
            assert(outs.take(0) =~~= Seq::<TxOutModel>::empty());
        }
        while j < transaction.outputs.len()
            invariant
                j <= outs.len(),
                total_in as int == inputs_total(self@, ins).unwrap(),
                outputs_total(outs.take(j as int)) == total_out as int,
                total_out <= total_in,
            decreases outs.len() - j,
        {
            let o = &transaction.outputs[j];
            proof {
                let t = outs.take(j as int + 1);
                assert(t.drop_last() =~~= outs.take(j as int));
                assert(t.last() == outs[j as int]);
            }
            if o.value > total_in - total_out {
                proof {
                    lemma_outputs_total_prefix(outs, j as int + 1);
                }
                return None;
            }
            total_out = total_out + o.value;
            j = j + 1;
        }
        proof {
            assert(outs.take(outs.len() as int) =~~= outs);
        }
        Some(total_in - total_out)
    }

    /// Whether a transaction is accepted against the set: a coinbase
    /// always; any other when its fee is defined and every input's
    /// concatenated script passes the script machine.
    #[verifier::loop_isolation(false)]
    pub fn validate_transaction(&self, transaction: &Transaction) -> (r: bool)
        ensures
            r == spec_validate_tx(self@, transaction@),
    {
        if transaction.input_count == 0 {
            return true;
        }
        let fee = self.get_fee(transaction);
        if fee.is_none() {
            return false;
        }
        let ghost ins = transaction@.inputs;
        let mut i: usize = 0;
        while i < transaction.inputs.len()
            invariant
                i <= ins.len(),
                fee_defined(self@, transaction@),
                forall|k: int|
                    0 <= k < i ==> script_passes(
                        (#[trigger] ins[k]).script + lookup(
                            self@,
                            ins[k].prev,
                            ins[k].output_index,
                        ).unwrap().script,
                        sighash_of(
                            transaction@,
                            k,
                            lookup(self@, ins[k].prev, ins[k].output_index).unwrap(),
                        ),
                    ),
            decreases ins.len() - i,
        {
            let input = &transaction.inputs[i];
            proof {
                lemma_inputs_total_present(self@, ins, i as int);
            }
            let utxo = self.get(&input.prev, input.output_index).unwrap();
            let script = Script::concat(input.script.duplicate(), utxo.script.duplicate());
            if !script.validate_script(transaction, i, &utxo) {
                return false;
            }
            i = i + 1;
        }
        true
    }

    /// Apply a transaction: spend each named input, then insert every
    /// output under the transaction's content hash.
    #[verifier::loop_isolation(false)]
    pub fn add_transaction(&mut self, transaction: &Transaction)
        ensures
            final(self)@ == apply_tx(old(self)@, transaction@),
    {
        let hash = transaction.hash();
        let ghost ins = transaction@.inputs;
        proof {
            assert(ins.skip(0) =~~= ins);
        }
        let mut i: usize = 0;
        while i < transaction.inputs.len()
            invariant
                i <= ins.len(),
                spend_inputs(old(self)@, ins) == spend_inputs(self@, ins.skip(i as int)),
            decreases ins.len() - i,
        {
            let input = &transaction.inputs[i];
            proof {
                let rest = ins.skip(i as int);
                assert(rest[0] == ins[i as int]);
                assert(rest.drop_first() =~~= ins.skip(i as int + 1));
            }
            self.remove_entry(&input.prev, input.output_index);
            i = i + 1;
        }
        proof {
            assert(ins.skip(ins.len() as int) =~~= Seq::<TxInModel>::empty());
        }
        let ghost spent = self@;
        let ghost outs = transaction@.outputs;
        let mut j: usize = 0;
        while j < transaction.outputs.len()
            invariant
                j <= outs.len(),
                hash@ == tx_hash(transaction@),
                transaction@.outputs == outs,
                add_outputs(spent, hash@, outs, 0) == add_outputs(self@, hash@, outs, j as int),
            decreases outs.len() - j,
        {
            let output = transaction.outputs[j].duplicate();
            self.add(crate::crypto::clone_bytes(&hash), j as u64, output);
            j = j + 1;
        }
    }

    /// Apply a block: accept it only when every transaction validates
    /// against the set as it stands, then apply them in order.
    #[verifier::loop_isolation(false)]
    pub fn add_block(&mut self, block: &Block) -> (r: bool)
        ensures
            r == spec_block_valid(old(self)@, block@.transactions),
            r ==> final(self)@ == apply_txs(old(self)@, block@.transactions, 0),
            !r ==> *final(self) == *old(self),
    {
        let ghost txs = block@.transactions;
        let mut i: usize = 0;
        while i < block.transactions.len()
            invariant
                i <= txs.len(),
                forall|k: int| 0 <= k < i ==> spec_validate_tx(self@, #[trigger] txs[k]),
            decreases txs.len() - i,
        {
            if !self.validate_transaction(&block.transactions[i]) {
                proof {
                    assert(block.transactions@[i as int].deep_view() == txs[i as int]);
                }
                return false;
            }
            i = i + 1;
            proof {
                assert(block.transactions@[i - 1].deep_view() == txs[i - 1]);
            }
        }
        let ghost start = self@;
        let mut j: usize = 0;
        while j < block.transactions.len()
            invariant
                j <= txs.len(),
                block@.transactions == txs,
                apply_txs(start, txs, 0) == apply_txs(self@, txs, j as int),
            decreases txs.len() - j,
        {
            proof {
                assert(block.transactions@[j as int].deep_view() == txs[j as int]);
            }
            self.add_transaction(&block.transactions[j]);
            j = j + 1;
        }
        true
    }
}

/// A prefix of the outputs has a total bounded by the whole.
pub proof fn lemma_outputs_total_prefix(outputs: Seq<TxOutModel>, k: int)
    requires
        0 <= k <= outputs.len(),
    ensures
        outputs_total(outputs.take(k)) <= outputs_total(outputs),
    decreases outputs.len(),
{
    if k == outputs.len() {
        assert(outputs.take(k) =~~= outputs);
    } else if outputs.len() > 0 {
        lemma_outputs_total_prefix(outputs.drop_last(), k);
        assert(outputs.drop_last().take(k) =~~= outputs.take(k));
    }
}


/// Wherever the fee of a transaction is defined, its inputs carry at least
/// its outputs, and the fee is exactly the inputs' total beyond the
/// outputs' total.
pub proof fn lemma_fee_covers_outputs(s: Seq<UtxoEntryModel>, t: TxModel)
    requires
        fee_defined(s, t),
    ensures
        inputs_total(s, t.inputs).unwrap() >= outputs_total(t.outputs),
        spec_fee(s, t) == inputs_total(s, t.inputs).unwrap() - outputs_total(t.outputs),
        spec_fee(s, t) >= 0,
{
}

} // verus!
