//! The P2PKH script machine: opcodes, standard script builders, and a stack
//! evaluator over byte vectors.

use vstd::prelude::*;
use crate::crypto::{sha256_of, lossy_clean, sig_valid, sha256, lossy_bytes, verify_digest,
    clone_bytes};

verus! {

/// An opcode of the script language.
#[allow(non_camel_case_types)]
pub enum OpCode {
    PUSHBYTES(Vec<u8>),
    DUP,
    SHA256,
    EQUALVERIFY,
    CHECKSIG,
}

/// The mathematical form of an opcode.
#[verifier::ext_equal]
pub enum OpModel {
    PushBytes(Seq<u8>),
    Dup,
    Sha256,
    EqualVerify,
    CheckSig,
}

impl View for OpCode {
    type V = OpModel;

    open spec fn view(&self) -> OpModel {
        match self {
            OpCode::PUSHBYTES(b) => OpModel::PushBytes(b@),
            OpCode::DUP => OpModel::Dup,
            OpCode::SHA256 => OpModel::Sha256,
            OpCode::EQUALVERIFY => OpModel::EqualVerify,
            OpCode::CHECKSIG => OpModel::CheckSig,
        }
    }
}

impl DeepView for OpCode {
    type V = OpModel;

    open spec fn deep_view(&self) -> OpModel {
        self.view()
    }
}

impl OpCode {
    /// Copy an opcode.
    pub fn duplicate(&self) -> (r: OpCode)
        ensures
            r@ == self@,
    {
        match self {
            OpCode::PUSHBYTES(b) => OpCode::PUSHBYTES(clone_bytes(b)),
            OpCode::DUP => OpCode::DUP,
            OpCode::SHA256 => OpCode::SHA256,
            OpCode::EQUALVERIFY => OpCode::EQUALVERIFY,
            OpCode::CHECKSIG => OpCode::CHECKSIG,
        }
    }
}

/// An ordered sequence of opcodes.
pub struct Script(pub Vec<OpCode>);

impl View for Script {
    type V = Seq<OpModel>;

    open spec fn view(&self) -> Seq<OpModel> {
        self.0.deep_view()
    }
}

/// One step of the stack machine; `None` is abortion with failure.
pub open spec fn vm_step(stack: Seq<Seq<u8>>, op: OpModel, sighash: Seq<u8>) -> Option<
    Seq<Seq<u8>>,
> {
    match op {
        OpModel::PushBytes(b) => Some(stack.push(b)),
        OpModel::Dup => if stack.len() == 0 {
            None
        } else {
            Some(stack.push(stack.last()))
        },
        OpModel::Sha256 => if stack.len() == 0 {
            Some(stack)
        } else {
            Some(stack.drop_last().push(sha256_of(lossy_clean(stack.last()))))
        },
        OpModel::EqualVerify => if stack.len() < 2 {
            None
        } else if stack[stack.len() - 1] != stack[stack.len() - 2] {
            None
        } else {
            Some(stack.take(stack.len() - 2))
        },
        OpModel::CheckSig => if stack.len() < 2 {
            None
        } else if sig_valid(stack[stack.len() - 1], sighash, stack[stack.len() - 2]) {
            Some(stack.take(stack.len() - 2).push(seq![1u8]))
        } else {
            None
        },
    }
}

/// Run the machine over a sequence of opcodes.
pub open spec fn vm_run(ops: Seq<OpModel>, stack: Seq<Seq<u8>>, sighash: Seq<u8>) -> Option<
    Seq<Seq<u8>>,
>
    decreases ops.len(),
{
    if ops.len() == 0 {
        Some(stack)
    } else {
        match vm_step(stack, ops[0], sighash) {
            None => None,
            Some(st) => vm_run(ops.drop_first(), st, sighash),
        }
    }
}

/// The success condition on the final stack: a top item exists and holds at
/// least one non-zero byte.
pub open spec fn stack_truthy(stack: Seq<Seq<u8>>) -> bool {
    &&& stack.len() > 0
    &&& exists|i: int| 0 <= i < stack.last().len() && stack.last()[i] != 0
}

/// Whether a script program accepts, given the signature hash of the input
/// being validated.
pub open spec fn script_passes(ops: Seq<OpModel>, sighash: Seq<u8>) -> bool {
    match vm_run(ops, Seq::empty(), sighash) {
        Some(st) => stack_truthy(st),
        None => false,
    }
}

/// Whether two byte vectors hold the same bytes.
pub fn bytes_eq(a: &Vec<u8>, b: &Vec<u8>) -> (r: bool)
    ensures
        r == (a@ == b@),
{
    if a.len() != b.len() {
        proof {
            assert(a@.len() != b@.len());
        }
        return false;
    }
    let mut i: usize = 0;
    while i < a.len()
        invariant
            i <= a@.len(),
            a@.len() == b@.len(),
            forall|j: int| 0 <= j < i ==> a@[j] == b@[j],
        decreases a@.len() - i,
    {
        if a[i] != b[i] {
            return false;
        }
        i = i + 1;
    }
    proof {
        assert(a@ =~~= b@);
    }
    true
}

impl Script {
    /// The empty script.
    pub fn empty() -> (r: Script)
        ensures
            r@ == Seq::<OpModel>::empty(),
    {
        let s = Script(Vec::new());
        proof {
            assert(s@ =~~= Seq::<OpModel>::empty());
        }
        s
    }

    /// Copy a script.
    #[verifier::loop_isolation(false)]
    pub fn duplicate(&self) -> (r: Script)
        ensures
            r@ == self@,
    {
        let mut ops: Vec<OpCode> = Vec::new();
        let mut i: usize = 0;
        while i < self.0.len()
            invariant
                i <= self.0@.len(),
                ops@.len() == i,
                ops.deep_view() == self.0.deep_view().take(i as int),
            decreases self.0@.len() - i,
        {
            let op = self.0[i].duplicate();
            proof {
                assert(op.deep_view() == self.0@[i as int].deep_view());
            }
            ops.push(op);
            i = i + 1;
            proof {
                let l = ops.deep_view();
                let r = self.0.deep_view().take(i as int);
                assert(self.0.deep_view().len() == self.0@.len());
                assert(ops@.len() == i);
                assert(l.len() == r.len());
                assert(forall|j: int| 0 <= j < l.len() ==> l[j] == r[j]);
                assert(l =~~= r);
            }
        }
        proof {
            assert(self.0.deep_view().take(self.0@.len() as int) =~~= self.0.deep_view());
        }
        Script(ops)
    }

    /// Concatenation of two scripts: the unlocking then the locking program.
    pub fn concat(s1: Script, s2: Script) -> (r: Script)
        ensures
            r@ == s1@ + s2@,
    {
        let mut ops = s1.0;
        let mut rest = s2.0;
        ops.append(&mut rest);
        let r = Script(ops);
        proof {
            assert(r@ =~~= s1.0.deep_view() + s2.0.deep_view());
        }
        r
    }

    /// The standard P2PKH unlocking script: push the signature, then the
    /// public key.
    #[allow(non_snake_case)]
    pub fn P2PKHInput(sig: Vec<u8>, pubkey: Vec<u8>) -> (r: Script)
        ensures
            r@ == p2pkh_input(sig@, pubkey@),
    {
        let mut ops: Vec<OpCode> = Vec::new();
        ops.push(OpCode::PUSHBYTES(sig));
        ops.push(OpCode::PUSHBYTES(pubkey));
        let r = Script(ops);
        proof {
            assert(r@ =~~= p2pkh_input(sig@, pubkey@));
        }
        r
    }

    /// The standard P2PKH locking script for a pubkey-hash.
    #[allow(non_snake_case)]
    pub fn P2PKHOutput(pubkey_hash: Vec<u8>) -> (r: Script)
        ensures
            r@ == p2pkh_output(pubkey_hash@),
    {
        let mut ops: Vec<OpCode> = Vec::new();
        ops.push(OpCode::DUP);
        ops.push(OpCode::SHA256);
        ops.push(OpCode::PUSHBYTES(pubkey_hash));
        ops.push(OpCode::EQUALVERIFY);
        ops.push(OpCode::CHECKSIG);
        let r = Script(ops);
        proof {
            assert(r@ =~~= p2pkh_output(pubkey_hash@));
        }
        r
    }

    /// Evaluate the script program against a signature hash.
    #[verifier::loop_isolation(false)]
    pub fn run(&self, sighash: &Vec<u8>) -> (r: bool)
        ensures
            r == script_passes(self@, sighash@),
    {
        let ghost ops = self@;
        let mut stack: Vec<Vec<u8>> = Vec::new();
        let mut idx: usize = 0;
        proof {
            assert(stack.deep_view() =~~= Seq::<Seq<u8>>::empty());
            assert(ops.skip(0) =~~= ops);
        }
        while idx < self.0.len()
            invariant
                idx <= self.0@.len(),
                ops == self.0.deep_view(),
                vm_run(ops, Seq::empty(), sighash@) == vm_run(
                    ops.skip(idx as int),
                    stack.deep_view(),
                    sighash@,
                ),
            decreases self.0@.len() - idx,
        {
            let ghost pre = stack.deep_view();
            let ghost rest = ops.skip(idx as int);
            proof {
                assert(rest.len() > 0);
                assert(rest[0] == ops[idx as int]);
                assert(rest.drop_first() =~~= ops.skip(idx as int + 1));
            }
            match &self.0[idx] {
                OpCode::PUSHBYTES(data) => {
                    stack.push(clone_bytes(data));
                    proof {
                        assert(stack.deep_view() =~~= pre.push(data@));
                    }
                },
                OpCode::DUP => {
                    if stack.len() == 0 {
                        return false;
                    }
                    let top = clone_bytes(&stack[stack.len() - 1]);
                    proof {
                        assert(top@ == pre.last());
                    }
                    stack.push(top);
                    proof {
                        assert(stack.deep_view() =~~= pre.push(pre.last()));
                    }
                },
                OpCode::SHA256 => {
                    if stack.len() > 0 {
                        let top = stack.pop().unwrap();
                        proof {
                            assert(top@ == pre.last());
                            assert(stack.deep_view() =~~= pre.drop_last());
                        }
                        let lossy = lossy_bytes(top.as_slice());
                        let digest = sha256(lossy.as_slice());
                        stack.push(digest);
                        proof {
                            assert(stack.deep_view() =~~= pre.drop_last().push(
                                sha256_of(lossy_clean(pre.last())),
                            ));
                        }
                    }
                },
                OpCode::EQUALVERIFY => {
                    if stack.len() < 2 {
                        return false;
                    }
                    let x1 = stack.pop().unwrap();
                    let x2 = stack.pop().unwrap();
                    proof {
                        assert(x1@ == pre[pre.len() - 1]);
                        assert(x2@ == pre[pre.len() - 2]);
                        assert(stack.deep_view() =~~= pre.take(pre.len() - 2));
                    }
                    if !bytes_eq(&x1, &x2) {
                        return false;
                    }
                },
                OpCode::CHECKSIG => {
                    if stack.len() < 2 {
                        return false;
                    }
                    let pk = stack.pop().unwrap();
                    let sig = stack.pop().unwrap();
                    proof {
                        assert(pk@ == pre[pre.len() - 1]);
                        assert(sig@ == pre[pre.len() - 2]);
                        assert(stack.deep_view() =~~= pre.take(pre.len() - 2));
                    }
                    if verify_digest(pk.as_slice(), sighash.as_slice(), sig.as_slice()) {
                        let mut one: Vec<u8> = Vec::new();
                        one.push(1);
                        stack.push(one);
                        proof {
                            assert(stack.deep_view() =~~= pre.take(pre.len() - 2).push(seq![1u8]));
                        }
                    } else {
                        return false;
                    }
                },
            }
            idx = idx + 1;
        }
        proof {
            assert(ops.skip(ops.len() as int) =~~= Seq::<OpModel>::empty());
        }
        if stack.len() == 0 {
            return false;
        }
        let top = &stack[stack.len() - 1];
        proof {
            assert(top@ == stack.deep_view().last());
        }
        let mut i: usize = 0;
        while i < top.len()
            invariant
                i <= top@.len(),
                forall|j: int| 0 <= j < i ==> top@[j] == 0,
            decreases top@.len() - i,
        {
            if top[i] != 0 {
                return true;
            }
            i = i + 1;
        }
        false
    }
}

/// Whether two opcodes are the same.
pub fn op_eq(a: &OpCode, b: &OpCode) -> (r: bool)
    ensures
        r == (a@ == b@),
{
    match (a, b) {
        (OpCode::PUSHBYTES(x), OpCode::PUSHBYTES(y)) => bytes_eq(x, y),
        (OpCode::DUP, OpCode::DUP) => true,
        (OpCode::SHA256, OpCode::SHA256) => true,
        (OpCode::EQUALVERIFY, OpCode::EQUALVERIFY) => true,
        (OpCode::CHECKSIG, OpCode::CHECKSIG) => true,
        _ => false,
    }
}

/// Whether two scripts hold the same opcodes.
#[verifier::loop_isolation(false)]
pub fn script_eq(a: &Script, b: &Script) -> (r: bool)
    ensures
        r == (a@ == b@),
{
    if a.0.len() != b.0.len() {
        proof {
            assert(a@.len() != b@.len());
        }
        return false;
    }
    let mut i: usize = 0;
    while i < a.0.len()
        invariant
            i <= a.0@.len(),
            forall|j: int| 0 <= j < i ==> a@[j] == b@[j],
        decreases a.0@.len() - i,
    {
        if !op_eq(&a.0[i], &b.0[i]) {
            proof {
                assert(a@[i as int] != b@[i as int]);
            }
            return false;
        }
        i = i + 1;
    }
    proof {
        assert(a@ =~~= b@);
    }
    true
}

/// The opcode sequence of a P2PKH unlocking script.
pub open spec fn p2pkh_input(sig: Seq<u8>, pubkey: Seq<u8>) -> Seq<OpModel> {
    seq![OpModel::PushBytes(sig), OpModel::PushBytes(pubkey)]
}

/// The opcode sequence of a P2PKH locking script.
pub open spec fn p2pkh_output(pubkey_hash: Seq<u8>) -> Seq<OpModel> {
    seq![
        OpModel::Dup,
        OpModel::Sha256,
        OpModel::PushBytes(pubkey_hash),
        OpModel::EqualVerify,
        OpModel::CheckSig,
    ]
}


/// The P2PKH program reduces to the two crypto checks: the concatenation of
/// the standard unlocking and locking scripts passes exactly when the
/// supplied public key hashes to the locked pubkey-hash and the supplied
/// signature is valid for that key over the signature hash.
pub proof fn lemma_p2pkh_reduction(sig: Seq<u8>, pubkey: Seq<u8>, pkh: Seq<u8>, sighash: Seq<u8>)
    ensures
        script_passes(p2pkh_input(sig, pubkey) + p2pkh_output(pkh), sighash) == (sha256_of(
            lossy_clean(pubkey),
        ) == pkh && sig_valid(pubkey, sighash, sig)),
{
    let ops = p2pkh_input(sig, pubkey) + p2pkh_output(pkh);
    assert(ops =~~= seq![
        OpModel::PushBytes(sig),
        OpModel::PushBytes(pubkey),
        OpModel::Dup,
        OpModel::Sha256,
        OpModel::PushBytes(pkh),
        OpModel::EqualVerify,
        OpModel::CheckSig,
    ]);
    let s0: Seq<Seq<u8>> = Seq::empty();
    let s1 = s0.push(sig);
    let s2 = s1.push(pubkey);
    let s3 = s2.push(pubkey);
    let digest = sha256_of(lossy_clean(pubkey));
    let s4 = s3.drop_last().push(digest);
    let s5 = s4.push(pkh);
    assert(ops.skip(0) =~~= ops);
    assert(ops.skip(0).drop_first() =~~= ops.skip(1));
    assert(ops.skip(1).drop_first() =~~= ops.skip(2));
    assert(ops.skip(2).drop_first() =~~= ops.skip(3));
    assert(ops.skip(3).drop_first() =~~= ops.skip(4));
    assert(ops.skip(4).drop_first() =~~= ops.skip(5));
    assert(ops.skip(5).drop_first() =~~= ops.skip(6));
    assert(ops.skip(6).drop_first() =~~= ops.skip(7));
    assert(vm_run(ops, s0, sighash) == vm_run(ops.skip(1), s1, sighash));
    assert(vm_run(ops.skip(1), s1, sighash) == vm_run(ops.skip(2), s2, sighash));
    assert(s2.len() == 2 && s2.last() == pubkey);
    assert(vm_run(ops.skip(2), s2, sighash) == vm_run(ops.skip(3), s3, sighash));
    assert(s3.len() == 3 && s3.last() == pubkey);
    assert(vm_run(ops.skip(3), s3, sighash) == vm_run(ops.skip(4), s4, sighash));
    assert(vm_run(ops.skip(4), s4, sighash) == vm_run(ops.skip(5), s5, sighash));
    assert(s5.len() == 4);
    assert(s5[s5.len() - 1] == pkh);
    assert(s5[s5.len() - 2] == digest);
    if digest != pkh {
        assert(vm_step(s5, ops.skip(5)[0], sighash) is None);
        assert(vm_run(ops.skip(5), s5, sighash) is None);
        assert(!script_passes(ops, sighash));
    } else {
        let s6 = s5.take(s5.len() - 2);
        assert(vm_run(ops.skip(5), s5, sighash) == vm_run(ops.skip(6), s6, sighash));
        assert(s6 =~~= s2);
        assert(s6.len() == 2);
        assert(s6[s6.len() - 1] == pubkey);
        assert(s6[s6.len() - 2] == sig);
        if sig_valid(pubkey, sighash, sig) {
            let s7 = s6.take(s6.len() - 2).push(seq![1u8]);
            assert(vm_run(ops.skip(6), s6, sighash) == vm_run(ops.skip(7), s7, sighash));
            assert(ops.skip(7).len() == 0);
            assert(vm_run(ops.skip(7), s7, sighash) == Some(s7));
            assert(stack_truthy(s7)) by {
                assert(s7.last() == seq![1u8]);
                assert(s7.last()[0] == 1);
            }
            assert(script_passes(ops, sighash));
        } else {
            assert(vm_step(s6, ops.skip(6)[0], sighash) is None);
            assert(vm_run(ops.skip(6), s6, sighash) is None);
            assert(!script_passes(ops, sighash));
        }
    }
}

/// A P2PKH spend whose key hashes to the lock and whose signature the key
/// accepts passes the script machine.
pub proof fn lemma_p2pkh_accepts_valid_spend(
    sig: Seq<u8>,
    pubkey: Seq<u8>,
    pkh: Seq<u8>,
    sighash: Seq<u8>,
)
    requires
        sha256_of(lossy_clean(pubkey)) == pkh,
        sig_valid(pubkey, sighash, sig),
    ensures
        script_passes(p2pkh_input(sig, pubkey) + p2pkh_output(pkh), sighash),
{
    lemma_p2pkh_reduction(sig, pubkey, pkh, sighash);
}

/// A P2PKH spend whose signature the key does not accept is refused. The
/// hypothesis carries the crypto fact itself — for instance, that a
/// signature with any single byte changed no longer verifies — which no
/// contract can state; under it, rejection is proved.
pub proof fn lemma_p2pkh_rejects_invalid_signature(
    sig: Seq<u8>,
    pubkey: Seq<u8>,
    pkh: Seq<u8>,
    sighash: Seq<u8>,
)
    requires
        !sig_valid(pubkey, sighash, sig),
    ensures
        !script_passes(p2pkh_input(sig, pubkey) + p2pkh_output(pkh), sighash),
{
    lemma_p2pkh_reduction(sig, pubkey, pkh, sighash);
}

/// A P2PKH spend whose supplied key does not hash to the locked pubkey-hash
/// is refused at the equality check, whatever the signature says. The
/// hypothesis carries the hash-distinctness fact — two users' pubkey-hashes
/// differ — which no contract can state.
pub proof fn lemma_p2pkh_rejects_wrong_pubkey_hash(
    sig: Seq<u8>,
    pubkey: Seq<u8>,
    pkh: Seq<u8>,
    sighash: Seq<u8>,
)
    requires
        sha256_of(lossy_clean(pubkey)) != pkh,
    ensures
        !script_passes(p2pkh_input(sig, pubkey) + p2pkh_output(pkh), sighash),
{
    lemma_p2pkh_reduction(sig, pubkey, pkh, sighash);
}

} // verus!
