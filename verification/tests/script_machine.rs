use coin::crypto::{sha256, User};
use coin::script::{OpCode, Script};
use coin::tx::{Transaction, TxInput, TxOutput};

fn p2pkh_lock(pkh: Vec<u8>) -> Script {
    Script(vec![
        OpCode::DUP,
        OpCode::SHA256,
        OpCode::PUSHBYTES(pkh),
        OpCode::EQUALVERIFY,
        OpCode::CHECKSIG,
    ])
}

fn spending_setup() -> (User, User, User, TxOutput, Transaction, Vec<u8>) {
    // A -> B -> C
    let a = User::new();
    let b = User::new();
    let c = User::new();

    let utxo = TxOutput { value: 10, script: p2pkh_lock(b.get_pub_key_hash()) };

    let mut tx = Transaction {
        timestamp: 0,
        version: 10,
        input_count: 1,
        inputs: vec![TxInput {
            prev: sha256("Hello World".as_bytes()),
            output_index: 1,
            script: utxo.script.duplicate(),
        }],
        output_count: 1,
        outputs: vec![TxOutput { value: 10, script: p2pkh_lock(c.get_pub_key_hash()) }],
    };
    let sig = b.sign(&tx.serialize()).unwrap();
    let unlocking = Script(vec![
        OpCode::PUSHBYTES(sig.clone()),
        OpCode::PUSHBYTES(b.get_pub_key()),
    ]);
    tx.inputs[0].script = unlocking;
    let _ = &a;
    (a, b, c, utxo, tx, sig)
}

#[test]
fn script_test() {
    // A -> B -> C
    let (_a, b, _c, utxo, tx, _sig) = spending_setup();
    let unlocking = tx.inputs[0].script.duplicate();
    let script = Script::concat(unlocking, utxo.script.duplicate());
    assert_eq!(script.validate_script(&tx, 0, &utxo), true);
}

#[test]
fn corrupted_signature_is_refused() {
    let (_a, b, _c, utxo, tx, sig) = spending_setup();
    for at in 0..sig.len() {
        let mut bad_sig = sig.clone();
        bad_sig[at] ^= 1;
        let unlocking = Script(vec![
            OpCode::PUSHBYTES(bad_sig),
            OpCode::PUSHBYTES(b.get_pub_key()),
        ]);
        let script = Script::concat(unlocking, utxo.script.duplicate());
        let mut tx2 = tx.duplicate();
        tx2.inputs[0].script = script.duplicate();
        assert_eq!(script.validate_script(&tx2, 0, &utxo), false);
    }
}

#[test]
fn wrong_pubkey_hash_is_refused_at_equalverify() {
    let (_a, b, c, _utxo, tx, _sig) = spending_setup();
    // Swap the pubkey-hash in the locking script to C's.
    let bad_utxo = TxOutput { value: 10, script: p2pkh_lock(c.get_pub_key_hash()) };
    let sig = b.sign(&tx.serialize()).unwrap();
    let unlocking = Script(vec![
        OpCode::PUSHBYTES(sig),
        OpCode::PUSHBYTES(b.get_pub_key()),
    ]);
    let script = Script::concat(unlocking, bad_utxo.script.duplicate());
    assert_eq!(script.validate_script(&tx, 0, &bad_utxo), false);
}

#[test]
fn empty_stack_fails_and_dup_underflow_fails() {
    let (_a, _b, _c, utxo, tx, _sig) = spending_setup();
    let empty = Script::empty();
    assert_eq!(empty.validate_script(&tx, 0, &utxo), false);
    let dup_only = Script(vec![OpCode::DUP]);
    assert_eq!(dup_only.validate_script(&tx, 0, &utxo), false);
}

#[test]
fn sha256_opcode_hashes_the_lossy_string_form() {
    let (_a, _b, _c, utxo, tx, _sig) = spending_setup();
    // 0xff is no UTF-8 start byte: its lossy form is the replacement
    // character, whose UTF-8 bytes are ef bf bd.
    let expected = sha256(&[0xef, 0xbf, 0xbd]);
    let script = Script(vec![
        OpCode::PUSHBYTES(vec![0xff]),
        OpCode::SHA256,
        OpCode::PUSHBYTES(expected),
        OpCode::EQUALVERIFY,
        OpCode::PUSHBYTES(vec![1]),
    ]);
    assert_eq!(script.validate_script(&tx, 0, &utxo), true);
    // Hashing the raw byte instead must not match.
    let wrong = sha256(&[0xff]);
    let script2 = Script(vec![
        OpCode::PUSHBYTES(vec![0xff]),
        OpCode::SHA256,
        OpCode::PUSHBYTES(wrong),
        OpCode::EQUALVERIFY,
        OpCode::PUSHBYTES(vec![1]),
    ]);
    assert_eq!(script2.validate_script(&tx, 0, &utxo), false);
}

#[test]
fn sha256_matches_the_published_test_vector() {
    let digest = sha256("abc".as_bytes());
    let expected = coin::hexcode::hex_decode("ba7816bf8f01cfea414140de5dae2223b00361a396177a9cb410ff61f20015ad".as_bytes()).unwrap();
    assert_eq!(digest, expected);
    assert_eq!(digest.len(), 32);
}

#[test]
fn hex_codec_round_trip_and_rejections() {
    let bytes = vec![0x00, 0x1f, 0xab, 0xff];
    let encoded = coin::hexcode::hex_encode(&bytes);
    assert_eq!(encoded, "001fabff".as_bytes().to_vec());
    let decoded = coin::hexcode::hex_decode(&encoded).unwrap();
    assert_eq!(decoded, bytes);
    assert!(coin::hexcode::hex_decode("zz".as_bytes()).is_none());
    assert!(coin::hexcode::hex_decode("abc".as_bytes()).is_none());
    assert!(coin::hexcode::hex_decode("AB".as_bytes()).is_none());
}

#[test]
fn serialization_is_the_exact_canonical_json() {
    let tx = Transaction {
        timestamp: 12345,
        version: 0,
        input_count: 0,
        inputs: vec![],
        output_count: 1,
        outputs: vec![TxOutput {
            value: 7,
            script: Script(vec![OpCode::PUSHBYTES(vec![1, 2]), OpCode::DUP]),
        }],
    };
    let expected = "{\"timestamp\":12345,\"version\":0,\"input_count\":0,\"inputs\":[],\"output_count\":1,\"outputs\":[{\"value\":7,\"script\":[{\"PUSHBYTES\":[1,2]},\"DUP\"]}]}";
    assert_eq!(tx.serialize(), expected.as_bytes().to_vec());
}

#[test]
fn serialization_of_inputs_and_headers() {
    let tx = Transaction {
        timestamp: 1,
        version: 2,
        input_count: 1,
        inputs: vec![TxInput {
            prev: vec![0, 255],
            output_index: 3,
            script: Script(vec![
                OpCode::SHA256,
                OpCode::EQUALVERIFY,
                OpCode::CHECKSIG,
            ]),
        }],
        output_count: 0,
        outputs: vec![],
    };
    let expected = "{\"timestamp\":1,\"version\":2,\"input_count\":1,\"inputs\":[{\"prev\":[0,255],\"output_index\":3,\"script\":[\"SHA256\",\"EQUALVERIFY\",\"CHECKSIG\"]}],\"output_count\":0,\"outputs\":[]}";
    assert_eq!(tx.serialize(), expected.as_bytes().to_vec());
}
