//! Transactions: inputs naming the UTXOs they spend, outputs carrying
//! locking scripts, the canonical serialization that transaction identity is
//! hashed over, the signature-hash construction, and the payment builder.

use vstd::prelude::*;
use vstd::string::StringSliceAdditionalSpecFns;
use crate::crypto::{sha256_of, sha256, lossy_bytes, clone_bytes, pub_key_hash_of, get_timestamp,
    sign_digest, sign_ok, sig_of, User};
use crate::script::{Script, OpCode, OpModel, script_passes, p2pkh_input, p2pkh_output, script_eq};
use crate::ser::{ser_u64, ser_items, ser_list, ser_byte_list, lemma_ser_items_push, push_u64,
    push_byte_list, push_chunk};

verus! {

/// A transaction input: the UTXO it spends and an unlocking script.
pub struct TxInput {
    pub prev: Vec<u8>,
    pub output_index: u64,
    pub script: Script,
}

/// The mathematical form of a transaction input.
#[verifier::ext_equal]
pub struct TxInModel {
    pub prev: Seq<u8>,
    pub output_index: u64,
    pub script: Seq<OpModel>,
}

impl View for TxInput {
    type V = TxInModel;

    open spec fn view(&self) -> TxInModel {
        TxInModel { prev: self.prev@, output_index: self.output_index, script: self.script@ }
    }
}

impl DeepView for TxInput {
    type V = TxInModel;

    open spec fn deep_view(&self) -> TxInModel {
        self.view()
    }
}

/// A transaction output: a value and the locking script it is under.
pub struct TxOutput {
    pub value: u64,
    pub script: Script,
}

/// The mathematical form of a transaction output.
#[verifier::ext_equal]
pub struct TxOutModel {
    pub value: u64,
    pub script: Seq<OpModel>,
}

impl View for TxOutput {
    type V = TxOutModel;

    open spec fn view(&self) -> TxOutModel {
        TxOutModel { value: self.value, script: self.script@ }
    }
}

impl DeepView for TxOutput {
    type V = TxOutModel;

    open spec fn deep_view(&self) -> TxOutModel {
        self.view()
    }
}

/// A transaction. One with `input_count == 0` is a coinbase.
pub struct Transaction {
    pub timestamp: u64,
    pub version: u64,
    pub input_count: u64,
    pub inputs: Vec<TxInput>,
    pub output_count: u64,
    pub outputs: Vec<TxOutput>,
}

/// The mathematical form of a transaction.
#[verifier::ext_equal]
pub struct TxModel {
    pub timestamp: u64,
    pub version: u64,
    pub input_count: u64,
    pub inputs: Seq<TxInModel>,
    pub output_count: u64,
    pub outputs: Seq<TxOutModel>,
}

impl View for Transaction {
    type V = TxModel;

    open spec fn view(&self) -> TxModel {
        TxModel {
            timestamp: self.timestamp,
            version: self.version,
            input_count: self.input_count,
            inputs: self.inputs.deep_view(),
            output_count: self.output_count,
            outputs: self.outputs.deep_view(),
        }
    }
}

impl DeepView for Transaction {
    type V = TxModel;

    open spec fn deep_view(&self) -> TxModel {
        self.view()
    }
}

/// A UTXO-set entry: the outpoint `(tx_hash, index)` and the output there.
pub struct UtxoEntry {
    pub tx_hash: Vec<u8>,
    pub index: u64,
    pub output: TxOutput,
}

/// The mathematical form of a UTXO-set entry.
#[verifier::ext_equal]
pub struct UtxoEntryModel {
    pub tx_hash: Seq<u8>,
    pub index: u64,
    pub output: TxOutModel,
}

impl View for UtxoEntry {
    type V = UtxoEntryModel;

    open spec fn view(&self) -> UtxoEntryModel {
        UtxoEntryModel { tx_hash: self.tx_hash@, index: self.index, output: self.output@ }
    }
}

impl DeepView for UtxoEntry {
    type V = UtxoEntryModel;

    open spec fn deep_view(&self) -> UtxoEntryModel {
        self.view()
    }
}

/// A recipient of a payment: a SEC1 public key and an amount.
pub struct Recipient {
    pub pubkey: Vec<u8>,
    pub amount: u64,
}

/// The mathematical form of a recipient.
#[verifier::ext_equal]
pub struct RecipientModel {
    pub pubkey: Seq<u8>,
    pub amount: u64,
}

impl View for Recipient {
    type V = RecipientModel;

    open spec fn view(&self) -> RecipientModel {
        RecipientModel { pubkey: self.pubkey@, amount: self.amount }
    }
}

impl DeepView for Recipient {
    type V = RecipientModel;

    open spec fn deep_view(&self) -> RecipientModel {
        self.view()
    }
}

/// The serialized form of one opcode.
#[verifier::opaque]
pub open spec fn ser_op(op: OpModel) -> Seq<u8> {
    match op {
        OpModel::PushBytes(b) => "{\"PUSHBYTES\":".spec_bytes() + ser_byte_list(b)
            + "}".spec_bytes(),
        OpModel::Dup => "\"DUP\"".spec_bytes(),
        OpModel::Sha256 => "\"SHA256\"".spec_bytes(),
        OpModel::EqualVerify => "\"EQUALVERIFY\"".spec_bytes(),
        OpModel::CheckSig => "\"CHECKSIG\"".spec_bytes(),
    }
}

/// The serialized form of a script: the array of its opcodes.
#[verifier::opaque]
pub open spec fn ser_script(ops: Seq<OpModel>) -> Seq<u8> {
    ser_list(ops, |o: OpModel| ser_op(o))
}

/// The serialized form of a transaction input.
#[verifier::opaque]
pub open spec fn ser_input(i: TxInModel) -> Seq<u8> {
    "{\"prev\":".spec_bytes() + ser_byte_list(i.prev) + ",\"output_index\":".spec_bytes()
        + ser_u64(i.output_index as int) + ",\"script\":".spec_bytes() + ser_script(i.script)
        + "}".spec_bytes()
}

/// The serialized form of a transaction output.
#[verifier::opaque]
pub open spec fn ser_output(o: TxOutModel) -> Seq<u8> {
    "{\"value\":".spec_bytes() + ser_u64(o.value as int) + ",\"script\":".spec_bytes()
        + ser_script(o.script) + "}".spec_bytes()
}

/// The canonical serialized form of a transaction.
#[verifier::opaque]
pub open spec fn ser_tx(t: TxModel) -> Seq<u8> {
    "{\"timestamp\":".spec_bytes() + ser_u64(t.timestamp as int) + ",\"version\":".spec_bytes()
        + ser_u64(t.version as int) + ",\"input_count\":".spec_bytes() + ser_u64(
        t.input_count as int,
    ) + ",\"inputs\":".spec_bytes() + ser_list(t.inputs, |i: TxInModel| ser_input(i))
        + ",\"output_count\":".spec_bytes() + ser_u64(t.output_count as int)
        + ",\"outputs\":".spec_bytes() + ser_list(t.outputs, |o: TxOutModel| ser_output(o))
        + "}".spec_bytes()
}

/// The content-based identity of a transaction: the digest of its canonical
/// serialized form.
pub open spec fn tx_hash(t: TxModel) -> Seq<u8> {
    sha256_of(ser_tx(t))
}

/// The transaction a signature commits to: every input script cleared, then
/// the script of the input being signed set to the locking script of the
/// UTXO it spends.
pub open spec fn sighash_base(t: TxModel, input_index: int, utxo: TxOutModel) -> TxModel {
    TxModel {
        timestamp: t.timestamp,
        version: t.version,
        input_count: t.input_count,
        inputs: Seq::new(
            t.inputs.len(),
            |j: int|
                TxInModel {
                    prev: t.inputs[j].prev,
                    output_index: t.inputs[j].output_index,
                    script: if j == input_index {
                        utxo.script
                    } else {
                        Seq::empty()
                    },
                },
        ),
        output_count: t.output_count,
        outputs: t.outputs,
    }
}

/// The signature hash of one input of a transaction.
pub open spec fn sighash_of(t: TxModel, input_index: int, utxo: TxOutModel) -> Seq<u8> {
    sha256_of(ser_tx(sighash_base(t, input_index, utxo)))
}

/// Append the serialized form of one opcode.
pub fn push_op(buf: &mut Vec<u8>, op: &OpCode)
    ensures
        final(buf)@ == old(buf)@ + ser_op(op@),
{
    match op {
        OpCode::PUSHBYTES(b) => {
            push_chunk(buf, "{\"PUSHBYTES\":");
            push_byte_list(buf, b.as_slice());
            push_chunk(buf, "}");
        },
        OpCode::DUP => push_chunk(buf, "\"DUP\""),
        OpCode::SHA256 => push_chunk(buf, "\"SHA256\""),
        OpCode::EQUALVERIFY => push_chunk(buf, "\"EQUALVERIFY\""),
        OpCode::CHECKSIG => push_chunk(buf, "\"CHECKSIG\""),
    }
    proof {
        reveal(ser_op);
        assert(buf@ =~~= old(buf)@ + ser_op(op@));
    }
}

/// Append the serialized form of a script.
#[verifier::loop_isolation(false)]
pub fn push_script(buf: &mut Vec<u8>, script: &Script)
    ensures
        final(buf)@ == old(buf)@ + ser_script(script@),
{
    push_chunk(buf, "[");
    let ghost start = buf@;
    let ghost f = |o: OpModel| ser_op(o);
    let mut i: usize = 0;
    while i < script.0.len()
        invariant
            i <= script.0@.len(),
            buf@ == start + ser_items(script@.take(i as int), f),
        decreases script.0@.len() - i,
    {
        if i > 0 {
            push_chunk(buf, ",");
        }
        push_op(buf, &script.0[i]);
        i = i + 1;
        proof {
            let prev = script@.take(i - 1);
            assert(prev.push(script@[i - 1]) =~~= script@.take(i as int));
            lemma_ser_items_push(prev, f, script@[i - 1]);
            assert(buf@ =~~= start + ser_items(script@.take(i as int), f));
        }
    }
    proof {
        assert(script@.take(script@.len() as int) =~~= script@);
    }
    push_chunk(buf, "]");
    proof {
        reveal(ser_script);
        assert(buf@ =~~= old(buf)@ + ser_script(script@));
    }
}

/// Append the serialized form of a transaction input.
pub fn push_input(buf: &mut Vec<u8>, input: &TxInput)
    ensures
        final(buf)@ == old(buf)@ + ser_input(input@),
{
    push_chunk(buf, "{\"prev\":");
    push_byte_list(buf, input.prev.as_slice());
    push_chunk(buf, ",\"output_index\":");
    push_u64(buf, input.output_index);
    push_chunk(buf, ",\"script\":");
    push_script(buf, &input.script);
    push_chunk(buf, "}");
    proof {
        reveal(ser_input);
        assert(buf@ =~~= old(buf)@ + ser_input(input@));
    }
}

/// Append the serialized form of a transaction output.
pub fn push_output(buf: &mut Vec<u8>, output: &TxOutput)
    ensures
        final(buf)@ == old(buf)@ + ser_output(output@),
{
    push_chunk(buf, "{\"value\":");
    push_u64(buf, output.value);
    push_chunk(buf, ",\"script\":");
    push_script(buf, &output.script);
    push_chunk(buf, "}");
    proof {
        reveal(ser_output);
        assert(buf@ =~~= old(buf)@ + ser_output(output@));
    }
}

/// Append the serialized list of transaction inputs.
#[verifier::loop_isolation(false)]
pub fn push_inputs(buf: &mut Vec<u8>, inputs: &Vec<TxInput>)
    ensures
        final(buf)@ == old(buf)@ + ser_list(inputs.deep_view(), |i: TxInModel| ser_input(i)),
{
    push_chunk(buf, "[");
    let ghost start = buf@;
    let ghost fin = |i: TxInModel| ser_input(i);
    let mut i: usize = 0;
    while i < inputs.len()
        invariant
            i <= inputs@.len(),
            buf@ == start + ser_items(inputs.deep_view().take(i as int), fin),
        decreases inputs@.len() - i,
    {
        if i > 0 {
            push_chunk(buf, ",");
        }
        push_input(buf, &inputs[i]);
        i = i + 1;
        proof {
            let prev = inputs.deep_view().take(i - 1);
            assert(prev.push(inputs.deep_view()[i - 1]) =~~= inputs.deep_view().take(i as int));
            lemma_ser_items_push(prev, fin, inputs.deep_view()[i - 1]);
            assert(buf@ =~~= start + ser_items(inputs.deep_view().take(i as int), fin));
        }
    }
    proof {
        assert(inputs.deep_view().take(inputs@.len() as int) =~~= inputs.deep_view());
    }
    push_chunk(buf, "]");
    proof {
        assert(buf@ =~~= old(buf)@ + ser_list(inputs.deep_view(), fin));
    }
}

/// Append the serialized list of transaction outputs.
#[verifier::loop_isolation(false)]
pub fn push_outputs(buf: &mut Vec<u8>, outputs: &Vec<TxOutput>)
    ensures
        final(buf)@ == old(buf)@ + ser_list(outputs.deep_view(), |o: TxOutModel| ser_output(o)),
{
    push_chunk(buf, "[");
    let ghost start = buf@;
    let ghost fout = |o: TxOutModel| ser_output(o);
    let mut i: usize = 0;
    while i < outputs.len()
        invariant
            i <= outputs@.len(),
            buf@ == start + ser_items(outputs.deep_view().take(i as int), fout),
        decreases outputs@.len() - i,
    {
        if i > 0 {
            push_chunk(buf, ",");
        }
        push_output(buf, &outputs[i]);
        i = i + 1;
        proof {
            let prev = outputs.deep_view().take(i - 1);
            assert(prev.push(outputs.deep_view()[i - 1]) =~~= outputs.deep_view().take(i as int));
            lemma_ser_items_push(prev, fout, outputs.deep_view()[i - 1]);
            assert(buf@ =~~= start + ser_items(outputs.deep_view().take(i as int), fout));
        }
    }
    proof {
        assert(outputs.deep_view().take(outputs@.len() as int) =~~= outputs.deep_view());
    }
    push_chunk(buf, "]");
    proof {
        assert(buf@ =~~= old(buf)@ + ser_list(outputs.deep_view(), fout));
    }
}

/// Append the serialized form of a transaction.
pub fn push_tx(buf: &mut Vec<u8>, tx: &Transaction)
    ensures
        final(buf)@ == old(buf)@ + ser_tx(tx@),
{
    push_chunk(buf, "{\"timestamp\":");
    push_u64(buf, tx.timestamp);
    push_chunk(buf, ",\"version\":");
    push_u64(buf, tx.version);
    push_chunk(buf, ",\"input_count\":");
    push_u64(buf, tx.input_count);
    push_chunk(buf, ",\"inputs\":");
    push_inputs(buf, &tx.inputs);
    push_chunk(buf, ",\"output_count\":");
    push_u64(buf, tx.output_count);
    push_chunk(buf, ",\"outputs\":");
    push_outputs(buf, &tx.outputs);
    push_chunk(buf, "}");
    proof {
        reveal(ser_tx);
        assert(buf@ =~~= old(buf)@ + ser_tx(tx@));
    }
}

impl TxInput {
    /// Copy a transaction input.
    pub fn duplicate(&self) -> (r: TxInput)
        ensures
            r@ == self@,
    {
        TxInput {
            prev: clone_bytes(&self.prev),
            output_index: self.output_index,
            script: self.script.duplicate(),
        }
    }
}

impl TxOutput {
    /// Copy a transaction output.
    pub fn duplicate(&self) -> (r: TxOutput)
        ensures
            r@ == self@,
    {
        TxOutput { value: self.value, script: self.script.duplicate() }
    }
}

impl UtxoEntry {
    /// Copy a UTXO-set entry.
    pub fn duplicate(&self) -> (r: UtxoEntry)
        ensures
            r@ == self@,
    {
        UtxoEntry {
            tx_hash: clone_bytes(&self.tx_hash),
            index: self.index,
            output: self.output.duplicate(),
        }
    }
}

/// Copy a vector of transaction inputs.
#[verifier::loop_isolation(false)]
pub fn clone_inputs(v: &Vec<TxInput>) -> (r: Vec<TxInput>)
    ensures
        r.deep_view() == v.deep_view(),
{
    let mut out: Vec<TxInput> = Vec::new();
    let mut i: usize = 0;
    while i < v.len()
        invariant
            i <= v@.len(),
            out@.len() == i,
            out.deep_view() == v.deep_view().take(i as int),
        decreases v@.len() - i,
    {
        out.push(v[i].duplicate());
        i = i + 1;
        proof {
            assert(out.deep_view() =~~= v.deep_view().take(i as int));
        }
    }
    proof {
        assert(v.deep_view().take(v@.len() as int) =~~= v.deep_view());
    }
    out
}

/// Copy a vector of transaction outputs.
#[verifier::loop_isolation(false)]
pub fn clone_outputs(v: &Vec<TxOutput>) -> (r: Vec<TxOutput>)
    ensures
        r.deep_view() == v.deep_view(),
{
    let mut out: Vec<TxOutput> = Vec::new();
    let mut i: usize = 0;
    while i < v.len()
        invariant
            i <= v@.len(),
            out@.len() == i,
            out.deep_view() == v.deep_view().take(i as int),
        decreases v@.len() - i,
    {
        out.push(v[i].duplicate());
        i = i + 1;
        proof {
            assert(out.deep_view() =~~= v.deep_view().take(i as int));
        }
    }
    proof {
        assert(v.deep_view().take(v@.len() as int) =~~= v.deep_view());
    }
    out
}

/// Whether two inputs are the same.
pub fn txin_eq(a: &TxInput, b: &TxInput) -> (r: bool)
    ensures
        r == (a@ == b@),
{
    let prev_eq = crate::script::bytes_eq(&a.prev, &b.prev);
    if prev_eq && a.output_index == b.output_index && script_eq(&a.script, &b.script) {
        proof {
            assert(a@ =~~= b@);
        }
        true
    } else {
        false
    }
}

/// Whether two outputs are the same.
pub fn txout_eq(a: &TxOutput, b: &TxOutput) -> (r: bool)
    ensures
        r == (a@ == b@),
{
    if a.value == b.value && script_eq(&a.script, &b.script) {
        proof {
            assert(a@ =~~= b@);
        }
        true
    } else {
        false
    }
}

/// Whether two transactions are the same, by full content.
#[verifier::loop_isolation(false)]
pub fn tx_eq(a: &Transaction, b: &Transaction) -> (r: bool)
    ensures
        r == (a@ == b@),
{
    if a.timestamp != b.timestamp || a.version != b.version || a.input_count != b.input_count
        || a.output_count != b.output_count || a.inputs.len() != b.inputs.len()
        || a.outputs.len() != b.outputs.len() {
        proof {
            assert(a@.inputs.len() == a.inputs@.len());
            assert(b@.inputs.len() == b.inputs@.len());
            assert(a@.outputs.len() == a.outputs@.len());
            assert(b@.outputs.len() == b.outputs@.len());
        }
        return false;
    }
    let mut i: usize = 0;
    while i < a.inputs.len()
        invariant
            i <= a.inputs@.len(),
            a.inputs@.len() == b.inputs@.len(),
            forall|j: int| 0 <= j < i ==> a@.inputs[j] == b@.inputs[j],
        decreases a.inputs@.len() - i,
    {
        if !txin_eq(&a.inputs[i], &b.inputs[i]) {
            proof {
                assert(a@.inputs[i as int] == a.inputs@[i as int]@);
                assert(b@.inputs[i as int] == b.inputs@[i as int]@);
            }
            return false;
        }
        i = i + 1;
        proof {
            assert(a@.inputs[i - 1] == a.inputs@[i - 1]@);
            assert(b@.inputs[i - 1] == b.inputs@[i - 1]@);
        }
    }
    let mut j: usize = 0;
    while j < a.outputs.len()
        invariant
            j <= a.outputs@.len(),
            a.outputs@.len() == b.outputs@.len(),
            forall|k: int| 0 <= k < j ==> a@.outputs[k] == b@.outputs[k],
        decreases a.outputs@.len() - j,
    {
        if !txout_eq(&a.outputs[j], &b.outputs[j]) {
            proof {
                assert(a@.outputs[j as int] == a.outputs@[j as int]@);
                assert(b@.outputs[j as int] == b.outputs@[j as int]@);
            }
            return false;
        }
        j = j + 1;
        proof {
            assert(a@.outputs[j - 1] == a.outputs@[j - 1]@);
            assert(b@.outputs[j - 1] == b.outputs@[j - 1]@);
        }
    }
    proof {
        assert(a@.inputs =~~= b@.inputs);
        assert(a@.outputs =~~= b@.outputs);
        assert(a@ =~~= b@);
    }
    true
}

impl Transaction {
    /// Copy a transaction.
    pub fn duplicate(&self) -> (r: Transaction)
        ensures
            r@ == self@,
    {
        let r = Transaction {
            timestamp: self.timestamp,
            version: self.version,
            input_count: self.input_count,
            inputs: clone_inputs(&self.inputs),
            output_count: self.output_count,
            outputs: clone_outputs(&self.outputs),
        };
        proof {
            assert(r@ =~~= self@);
        }
        r
    }

    /// The canonical serialized form, as UTF-8 bytes.
    pub fn serialize(&self) -> (r: Vec<u8>)
        ensures
            r@ == ser_tx(self@),
    {
        let mut buf: Vec<u8> = Vec::new();
        push_tx(&mut buf, self);
        proof {
            assert(buf@ =~~= ser_tx(self@));
        }
        buf
    }

    /// The content-based identity: the digest of the serialized form.
    pub fn hash(&self) -> (r: Vec<u8>)
        ensures
            r@ == tx_hash(self@),
            r@.len() == 32,
    {
        let ser = self.serialize();
        sha256(ser.as_slice())
    }

    /// The coinbase transaction paying the block reward to a public key.
    pub fn reward(reward: u64, pubkey: Vec<u8>, version: u64) -> (r: Transaction)
        ensures
            r@.version == version,
            r@.input_count == 0,
            r@.inputs.len() == 0,
            r@.output_count == 1,
            r@.outputs.len() == 1,
            r@.outputs[0].value == reward,
            r@.outputs[0].script == p2pkh_output(pub_key_hash_of(pubkey@)),
    {
        let lossy = lossy_bytes(pubkey.as_slice());
        let pkh = sha256(lossy.as_slice());
        let script = Script::P2PKHOutput(pkh);
        let mut outputs: Vec<TxOutput> = Vec::new();
        outputs.push(TxOutput { value: reward, script });
        let r = Transaction {
            timestamp: get_timestamp(),
            version,
            input_count: 0,
            inputs: Vec::new(),
            output_count: 1,
            outputs,
        };
        proof {
            assert(r@.inputs =~~= Seq::<TxInModel>::empty());
        }
        r
    }

    /// Build a payment: spend the given wallet entries, pay each recipient
    /// under a P2PKH lock, and sign every input with the user's key over the
    /// given timestamp. The result is exactly the signed payment, and it
    /// comes back exactly when the key signs every input's digest.
    #[verifier::loop_isolation(false)]
    #[verifier::rlimit(80)]
    pub fn new(
        version: u64,
        timestamp: u64,
        user: &User,
        entries: Vec<UtxoEntry>,
        recipients: Vec<Recipient>,
    ) -> (r: Option<Transaction>)
        ensures
            r is Some <==> payment_signable(
                user.private_key@,
                timestamp,
                version,
                entries.deep_view(),
                recipients.deep_view(),
            ),
            r matches Some(tx) ==> tx@ == spec_payment(
                user.private_key@,
                user.public_key@,
                timestamp,
                version,
                entries.deep_view(),
                recipients.deep_view(),
            ),
    {
        let ghost em = entries.deep_view();
        let ghost rm = recipients.deep_view();
        let ghost sk = user.private_key@;
        let mut outputs: Vec<TxOutput> = Vec::new();
        let mut j: usize = 0;
        while j < recipients.len()
            invariant
                j <= rm.len(),
                outputs@.len() == j,
                forall|k: int|
                    0 <= k < j ==> #[trigger] outputs.deep_view()[k] == payment_outputs(rm)[k],
            decreases rm.len() - j,
        {
            proof {
                assert(recipients@[j as int].deep_view() == rm[j as int]);
            }
            let lossy = lossy_bytes(recipients[j].pubkey.as_slice());
            let pkh = sha256(lossy.as_slice());
            let ghost before = outputs.deep_view();
            outputs.push(
                TxOutput { value: recipients[j].amount, script: Script::P2PKHOutput(pkh) },
            );
            j = j + 1;
            proof {
                assert(outputs.deep_view()[j - 1] =~~= payment_outputs(rm)[j - 1]);
                assert forall|k: int|
                    0 <= k < j implies #[trigger] outputs.deep_view()[k] == payment_outputs(
                    rm,
                )[k] by {
                    if k < j - 1 {
                        assert(outputs.deep_view()[k] == before[k]);
                    }
                }
            }
        }
        let mut unsigned: Vec<TxInput> = Vec::new();
        let mut i: usize = 0;
        while i < entries.len()
            invariant
                i <= em.len(),
                unsigned@.len() == i,
                forall|k: int|
                    0 <= k < i ==> #[trigger] unsigned.deep_view()[k] == payment_base(
                        timestamp,
                        version,
                        em,
                        rm,
                    ).inputs[k],
            decreases em.len() - i,
        {
            proof {
                assert(entries@[i as int].deep_view() == em[i as int]);
            }
            let ghost before = unsigned.deep_view();
            unsigned.push(
                TxInput {
                    prev: clone_bytes(&entries[i].tx_hash),
                    output_index: entries[i].index,
                    script: Script::empty(),
                },
            );
            i = i + 1;
            proof {
                assert(unsigned.deep_view()[i - 1] =~~= payment_base(
                    timestamp,
                    version,
                    em,
                    rm,
                ).inputs[i - 1]);
                assert forall|k: int|
                    0 <= k < i implies #[trigger] unsigned.deep_view()[k] == payment_base(
                    timestamp,
                    version,
                    em,
                    rm,
                ).inputs[k] by {
                    if k < i - 1 {
                        assert(unsigned.deep_view()[k] == before[k]);
                    }
                }
            }
        }
        let base = Transaction {
            timestamp,
            version,
            input_count: entries.len() as u64,
            inputs: unsigned,
            output_count: recipients.len() as u64,
            outputs,
        };
        proof {
            assert(base@.inputs =~~= payment_base(timestamp, version, em, rm).inputs);
            assert(base@.outputs =~~= payment_outputs(rm));
            assert(base@ =~~= payment_base(timestamp, version, em, rm));
        }
        let mut signed: Vec<TxInput> = Vec::new();
        let mut i: usize = 0;
        while i < entries.len()
            invariant
                i <= em.len(),
                signed@.len() == i,
                base.inputs@.len() == em.len(),
                base@ == payment_base(timestamp, version, em, rm),
                forall|k: int|
                    0 <= k < i ==> sign_ok(sk, #[trigger] payment_digest(
                        timestamp,
                        version,
                        em,
                        rm,
                        k,
                    )),
                forall|k: int|
                    0 <= k < i ==> #[trigger] signed.deep_view()[k] == spec_payment(
                        sk,
                        user.public_key@,
                        timestamp,
                        version,
                        em,
                        rm,
                    ).inputs[k],
            decreases em.len() - i,
        {
            proof {
                assert(entries@[i as int].deep_view() == em[i as int]);
            }
            let digest = compute_sig_hash(&base, i, &entries[i].output);
            proof {
                assert(digest@ == payment_digest(timestamp, version, em, rm, i as int));
            }
            let sig = match sign_digest(user.private_key.as_slice(), digest.as_slice()) {
                Some(s) => s,
                None => {
                    proof {
                        assert(!sign_ok(sk, payment_digest(timestamp, version, em, rm, i as int)));
                        assert(!payment_signable(sk, timestamp, version, em, rm));
                    }
                    return None;
                },
            };
            let ghost sig_model = sig@;
            let script = Script::P2PKHInput(sig, user.get_pub_key());
            let ghost before = signed.deep_view();
            signed.push(
                TxInput {
                    prev: clone_bytes(&entries[i].tx_hash),
                    output_index: entries[i].index,
                    script,
                },
            );
            i = i + 1;
            proof {
                assert(signed.deep_view()[i - 1] =~~= spec_payment(
                    sk,
                    user.public_key@,
                    timestamp,
                    version,
                    em,
                    rm,
                ).inputs[i - 1]);
                assert forall|k: int|
                    0 <= k < i implies #[trigger] signed.deep_view()[k] == spec_payment(
                    sk,
                    user.public_key@,
                    timestamp,
                    version,
                    em,
                    rm,
                ).inputs[k] by {
                    if k < i - 1 {
                        assert(signed.deep_view()[k] == before[k]);
                    }
                }
            }
        }
        let tx = Transaction {
            timestamp: base.timestamp,
            version: base.version,
            input_count: base.input_count,
            inputs: signed,
            output_count: base.output_count,
            outputs: base.outputs,
        };
        proof {
            assert(tx@.inputs =~~= spec_payment(
                sk,
                user.public_key@,
                timestamp,
                version,
                em,
                rm,
            ).inputs);
            assert(tx@ =~~= spec_payment(sk, user.public_key@, timestamp, version, em, rm));
        }
        Some(tx)
    }
}

/// The outputs of a payment: each recipient's amount under its P2PKH lock.
pub open spec fn payment_outputs(recipients: Seq<RecipientModel>) -> Seq<TxOutModel> {
    Seq::new(
        recipients.len(),
        |j: int|
            TxOutModel {
                value: recipients[j].amount,
                script: p2pkh_output(pub_key_hash_of(recipients[j].pubkey)),
            },
    )
}

/// The unsigned form of a payment: the named entries as inputs with empty
/// scripts, the recipients as outputs.
pub open spec fn payment_base(
    timestamp: u64,
    version: u64,
    entries: Seq<UtxoEntryModel>,
    recipients: Seq<RecipientModel>,
) -> TxModel {
    TxModel {
        timestamp,
        version,
        input_count: entries.len() as u64,
        inputs: Seq::new(
            entries.len(),
            |i: int|
                TxInModel {
                    prev: entries[i].tx_hash,
                    output_index: entries[i].index,
                    script: Seq::empty(),
                },
        ),
        output_count: recipients.len() as u64,
        outputs: payment_outputs(recipients),
    }
}

/// The digest input `i` of the payment commits to: the signature hash of
/// the unsigned payment at that input, against the entry it spends.
pub open spec fn payment_digest(
    timestamp: u64,
    version: u64,
    entries: Seq<UtxoEntryModel>,
    recipients: Seq<RecipientModel>,
    i: int,
) -> Seq<u8> {
    sighash_of(payment_base(timestamp, version, entries, recipients), i, entries[i].output)
}

/// Whether the key signs every input of the payment.
pub open spec fn payment_signable(
    sk: Seq<u8>,
    timestamp: u64,
    version: u64,
    entries: Seq<UtxoEntryModel>,
    recipients: Seq<RecipientModel>,
) -> bool {
    forall|i: int|
        0 <= i < entries.len() ==> sign_ok(
            sk,
            #[trigger] payment_digest(timestamp, version, entries, recipients, i),
        )
}

/// The signed payment: the unsigned form with each input unlocked by the
/// key's deterministic signature over that input's digest.
pub open spec fn spec_payment(
    sk: Seq<u8>,
    pk: Seq<u8>,
    timestamp: u64,
    version: u64,
    entries: Seq<UtxoEntryModel>,
    recipients: Seq<RecipientModel>,
) -> TxModel {
    TxModel {
        timestamp,
        version,
        input_count: entries.len() as u64,
        inputs: Seq::new(
            entries.len(),
            |i: int|
                TxInModel {
                    prev: entries[i].tx_hash,
                    output_index: entries[i].index,
                    script: p2pkh_input(
                        sig_of(sk, payment_digest(timestamp, version, entries, recipients, i)),
                        pk,
                    ),
                },
        ),
        output_count: recipients.len() as u64,
        outputs: payment_outputs(recipients),
    }
}

/// The signature hash of input `input_index` of `tx`, spending `utxo`:
/// the digest of the transaction with all input scripts cleared and the
/// named one set to the UTXO's locking script.
#[verifier::loop_isolation(false)]
pub fn compute_sig_hash(tx: &Transaction, input_index: usize, utxo: &TxOutput) -> (r: Vec<u8>)
    requires
        input_index < tx.inputs@.len(),
    ensures
        r@ == sighash_of(tx@, input_index as int, utxo@),
        r@.len() == 32,
{
    let mut inputs: Vec<TxInput> = Vec::new();
    let ghost target = sighash_base(tx@, input_index as int, utxo@);
    let mut i: usize = 0;
    while i < tx.inputs.len()
        invariant
            i <= tx.inputs@.len(),
            inputs@.len() == i,
            forall|k: int| 0 <= k < i ==> #[trigger] inputs.deep_view()[k] == target.inputs[k],
        decreases tx.inputs@.len() - i,
    {
        let script = if i == input_index {
            utxo.script.duplicate()
        } else {
            Script::empty()
        };
        let ghost before = inputs.deep_view();
        inputs.push(
            TxInput {
                prev: clone_bytes(&tx.inputs[i].prev),
                output_index: tx.inputs[i].output_index,
                script,
            },
        );
        i = i + 1;
        proof {
            assert(inputs.deep_view()[i - 1] =~~= target.inputs[i - 1]);
            assert forall|k: int| 0 <= k < i implies #[trigger] inputs.deep_view()[k]
                == target.inputs[k] by {
                if k < i - 1 {
                    assert(inputs.deep_view()[k] == before[k]);
                }
            }
        }
    }
    let modified = Transaction {
        timestamp: tx.timestamp,
        version: tx.version,
        input_count: tx.input_count,
        inputs,
        output_count: tx.output_count,
        outputs: clone_outputs(&tx.outputs),
    };
    proof {
        assert(modified@.inputs =~~= target.inputs);
        assert(modified@ =~~= target);
    }
    let ser = modified.serialize();
    sha256(ser.as_slice())
}

impl Script {
    /// Run the script program of this script against the signature hash of
    /// input `input_index` of `tx`, which spends `utxo`.
    pub fn validate_script(&self, tx: &Transaction, input_index: usize, utxo: &TxOutput) -> (r:
        bool)
        requires
            input_index < tx.inputs@.len(),
        ensures
            r == script_passes(self@, sighash_of(tx@, input_index as int, utxo@)),
    {
        let sighash = compute_sig_hash(tx, input_index, utxo);
        self.run(&sighash)
    }
}

} // verus!
