use coin::crypto::{sha256, User};
use coin::mempool::{Mempool, TransactionWithFee};
use coin::miner::Block;
use coin::node::Node;
use coin::script::{OpCode, Script};
use coin::tx::{Recipient, Transaction, TxInput, TxOutput, tx_eq};
use coin::utxo::UTXOS;
use coin::wallet::Wallet;

fn dummy_tx(stamp: u64) -> Transaction {
    Transaction {
        timestamp: stamp,
        version: 0,
        input_count: 1,
        inputs: vec![TxInput {
            prev: sha256("x".as_bytes()),
            output_index: 0,
            script: Script::empty(),
        }],
        output_count: 0,
        outputs: vec![],
    }
}

#[test]
fn chain_and_headers_agree_after_every_application() {
    let mut node = Node::new();
    assert_eq!(node.height, 0);
    for round in 0..3u64 {
        let block = node.get_next_block();
        assert!(node.add_block(block));
        assert_eq!(node.height, round + 1);
        assert_eq!(node.block_chain.len() as u64, node.height);
        assert_eq!(node.headers.len() as u64, node.height);
        for i in 0..node.block_chain.len() {
            assert!(coin::miner::header_eq(
                &node.headers[i],
                &node.block_chain[i].block_header
            ));
            assert_eq!(node.block_chain[i].block_header.height as usize, i + 1);
        }
    }
}

#[test]
fn block_at_wrong_height_is_refused_and_nothing_changes() {
    let mut node = Node::new();
    let coinbase = Transaction::reward(10, node.user.get_pub_key(), 0);
    let block = Block::new(vec![coinbase], node.get_prev_hash(), 3, 0, 5);
    let before_chain = node.block_chain.len();
    let before_utxos = node.utxos.size();
    let before_wallet = node.wallet.value;
    assert_eq!(node.add_block(block), false);
    assert_eq!(node.height, 0);
    assert_eq!(node.block_chain.len(), before_chain);
    assert_eq!(node.utxos.size(), before_utxos);
    assert_eq!(node.wallet.value, before_wallet);
}

#[test]
fn fee_is_inputs_beyond_outputs_whenever_defined() {
    let mut utxos = UTXOS::new();
    let k1 = sha256("one".as_bytes());
    let k2 = sha256("two".as_bytes());
    utxos.add(k1.clone(), 0, TxOutput { value: 8, script: Script::empty() });
    utxos.add(k2.clone(), 1, TxOutput { value: 5, script: Script::empty() });
    let tx = Transaction {
        timestamp: 0,
        version: 0,
        input_count: 2,
        inputs: vec![
            TxInput { prev: k1.clone(), output_index: 0, script: Script::empty() },
            TxInput { prev: k2.clone(), output_index: 1, script: Script::empty() },
        ],
        output_count: 1,
        outputs: vec![TxOutput { value: 9, script: Script::empty() }],
    };
    // Sum of inputs is 13, outputs 9: the fee is defined and inputs cover
    // the outputs.
    assert_eq!(utxos.get_fee(&tx), Some(4));

    // A missing input leaves the fee undefined.
    let mut missing = tx.duplicate();
    missing.inputs[0].prev = sha256("absent".as_bytes());
    assert_eq!(utxos.get_fee(&missing), None);

    // Outputs beyond the inputs leave the fee undefined.
    let mut greedy = tx.duplicate();
    greedy.outputs[0].value = 14;
    assert_eq!(utxos.get_fee(&greedy), None);
}

#[test]
fn mempool_add_then_remove_leaves_an_empty_pool() {
    let mut pool = Mempool::new();
    let tx = dummy_tx(7);
    assert!(pool.add(tx.duplicate(), 3));
    assert_eq!(pool.size(), 1);
    // The same identity is rejected on a second add.
    assert_eq!(pool.add(tx.duplicate(), 3), false);
    assert_eq!(pool.size(), 1);
    pool.remove(&tx);
    assert_eq!(pool.size(), 0);
    assert_eq!(pool.to_vec().len(), 0);
    assert_eq!(pool.duplicate().get_inv().len(), 0);
}

#[test]
fn mempool_orders_by_decreasing_fee() {
    let mut pool = Mempool::new();
    assert!(pool.add(dummy_tx(1), 1));
    assert!(pool.add(dummy_tx(2), 5));
    assert!(pool.add(dummy_tx(3), 3));
    let items = pool.to_vec();
    let fees: Vec<u64> = items.iter().map(|i| i.fee).collect();
    assert_eq!(fees, vec![5, 3, 1]);
    let next = pool.get_next_transactions();
    assert_eq!(next.len(), 3);
    assert!(tx_eq(&next[0], &dummy_tx(2)));
    assert!(tx_eq(&next[1], &dummy_tx(3)));
    assert!(tx_eq(&next[2], &dummy_tx(1)));
}

#[test]
fn mempool_rebuild_restores_the_pool() {
    let mut pool = Mempool::new();
    assert!(pool.add(dummy_tx(1), 2));
    assert!(pool.add(dummy_tx(2), 9));
    assert!(pool.add(dummy_tx(3), 4));
    let stored = pool.to_vec();
    let rebuilt = Mempool::from_vec(stored);
    let a = pool.to_vec();
    let b = rebuilt.to_vec();
    assert_eq!(a.len(), b.len());
    for i in 0..a.len() {
        assert_eq!(a[i].fee, b[i].fee);
        assert!(tx_eq(&a[i].transaction, &b[i].transaction));
    }
}

#[test]
fn node_round_trips_through_its_stored_parts() {
    let mut node = Node::new();
    let block = node.get_next_block();
    assert!(node.add_block(block));
    assert!(node.mempool.add(dummy_tx(1), 2));
    let parts = node.to_parts();
    let rebuilt = Node::from_parts(parts).unwrap();
    assert_eq!(rebuilt.height, node.height);
    assert_eq!(rebuilt.version, node.version);
    assert_eq!(rebuilt.difficulty, node.difficulty);
    assert_eq!(rebuilt.reward, node.reward);
    assert_eq!(rebuilt.wallet.value, node.wallet.value);
    assert_eq!(rebuilt.user.public_key, node.user.public_key);
    assert_eq!(rebuilt.user.private_key, node.user.private_key);
    assert_eq!(rebuilt.block_chain.len(), node.block_chain.len());
    for i in 0..node.block_chain.len() {
        assert_eq!(
            rebuilt.block_chain[i].serialize(),
            node.block_chain[i].serialize()
        );
    }
    let a = node.mempool.to_vec();
    let b = rebuilt.mempool.to_vec();
    assert_eq!(a.len(), b.len());
    for i in 0..a.len() {
        assert_eq!(a[i].fee, b[i].fee);
        assert!(tx_eq(&a[i].transaction, &b[i].transaction));
    }
}

#[test]
fn stored_parts_with_bad_keys_are_refused() {
    let node = Node::new();
    let mut parts = node.to_parts();
    parts.private_key_hex = "zz".as_bytes().to_vec();
    assert!(Node::from_parts(parts).is_none());
    let mut parts2 = node.to_parts();
    parts2.height = 9;
    assert!(Node::from_parts(parts2).is_none());
}

#[test]
fn wallet_follows_coinbase_transfer_and_change() {
    let mut node = Node::new();
    let v = User::new();
    let mut v_wallet = Wallet::new(v.get_pub_key());

    // Block 1: a coinbase paying the node's own key 10 units.
    let b1 = node.get_next_block();
    assert!(node.add_block(b1.duplicate()));
    v_wallet.update(&b1);
    assert_eq!(node.wallet.value, 10);
    assert_eq!(node.wallet.utxos.len(), 1);
    assert_eq!(v_wallet.value, 0);

    // Transfer 4 units to V with fee 2: change of 4 returns to the node.
    let tx = node
        .create_transaction(vec![Recipient { pubkey: v.get_pub_key(), amount: 4 }], 2, coin::crypto::get_timestamp())
        .unwrap();
    assert_eq!(node.utxos.get_fee(&tx), Some(2));
    assert!(node.utxos.validate_transaction(&tx));
    assert!(node.mempool.add(tx, 2));

    // Block 2: the transfer plus a fresh coinbase, mined by the node.
    let b2 = node.get_next_block();
    assert_eq!(b2.transactions.len(), 2);
    assert!(node.add_block(b2.duplicate()));
    v_wallet.update(&b2);

    // 4 change + 10 fresh reward for the node; 4 for V.
    assert_eq!(node.wallet.value, 14);
    assert_eq!(v_wallet.value, 4);
    // The transfer has left the mempool.
    assert_eq!(node.get_mempool_size(), 0);
}

#[test]
fn create_transaction_needs_funds() {
    let node = Node::new();
    let v = User::new();
    assert!(node
        .create_transaction(vec![Recipient { pubkey: v.get_pub_key(), amount: 1 }], 0, coin::crypto::get_timestamp())
        .is_none());
}

#[test]
fn difficulty_is_a_leading_zero_prefix_of_the_hash() {
    let node_block = Block::new(vec![], sha256("seed".as_bytes()), 0, 0, 1);
    assert!(node_block.meets_difficulty(&vec![0x30, 0x30, 0x31], 2));
    assert!(!node_block.meets_difficulty(&vec![0x30, 0x30, 0x31], 3));
    assert!(node_block.meets_difficulty(&vec![0x31], 0));
    assert!(!node_block.meets_difficulty(&vec![0x30], 2));
}

#[test]
fn mining_succeeds_at_once_under_a_zero_target() {
    let mut block = Block::new(vec![], sha256("seed".as_bytes()), 0, 0, 1);
    assert!(block.mine_step());
    let hash = block.calculate_hash();
    assert!(block.meets_difficulty(&hash, 0));
    assert_eq!(block.block_header.nonce.len(), 16);
}

#[test]
fn merkle_root_is_deterministic_and_sized() {
    let a = Transaction::reward(10, vec![1, 2, 3], 0);
    let b = Transaction::reward(11, vec![4, 5, 6], 0);
    let r1 = Block::get_merkle_root(&vec![a.duplicate(), b.duplicate()]);
    let r2 = Block::get_merkle_root(&vec![a.duplicate(), b.duplicate()]);
    assert_eq!(r1, r2);
    assert_eq!(r1.len(), 32);
    let r3 = Block::get_merkle_root(&vec![b, a]);
    assert_ne!(r1, r3);
    let empty = Block::get_merkle_root(&vec![]);
    assert_eq!(empty, sha256("0000".as_bytes()));
}

#[test]
fn catch_up_applies_only_runs_from_the_next_height() {
    let mut source = Node::new();
    let b1 = source.get_next_block();
    assert!(source.add_block(b1.duplicate()));
    let b2 = source.get_next_block();
    assert!(source.add_block(b2.duplicate()));

    let mut fresh = Node::new();
    let wrong = coin::messages::Blocks::new(2, vec![b2.duplicate()]);
    assert_eq!(fresh.update_blocks(wrong), false);
    assert_eq!(fresh.height, 0);
    let run = coin::messages::Blocks::new(1, vec![b1, b2]);
    assert!(fresh.update_blocks(run));
    assert_eq!(fresh.height, 2);
}

#[test]
fn utxo_insert_under_an_existing_key_replaces_it() {
    let mut utxos = UTXOS::new();
    let k = sha256("key".as_bytes());
    utxos.add(k.clone(), 0, TxOutput { value: 1, script: Script::empty() });
    utxos.add(k.clone(), 0, TxOutput { value: 2, script: Script::empty() });
    assert_eq!(utxos.size(), 1);
    let held = utxos.get(&k, 0).unwrap();
    assert_eq!(held.value, 2);
    assert!(utxos.get(&k, 1).is_none());
}

#[test]
fn fee_handles_the_largest_values() {
    let mut utxos = UTXOS::new();
    let k1 = sha256("a".as_bytes());
    let k2 = sha256("b".as_bytes());
    utxos.add(k1.clone(), 0, TxOutput { value: u64::MAX, script: Script::empty() });
    utxos.add(k2.clone(), 0, TxOutput { value: u64::MAX, script: Script::empty() });
    let one = Transaction {
        timestamp: 0,
        version: 0,
        input_count: 1,
        inputs: vec![TxInput { prev: k1.clone(), output_index: 0, script: Script::empty() }],
        output_count: 0,
        outputs: vec![],
    };
    assert_eq!(utxos.get_fee(&one), Some(u64::MAX));
    // Two largest inputs leave the machine range: the fee is undefined.
    let two = Transaction {
        timestamp: 0,
        version: 0,
        input_count: 2,
        inputs: vec![
            TxInput { prev: k1, output_index: 0, script: Script::empty() },
            TxInput { prev: k2, output_index: 0, script: Script::empty() },
        ],
        output_count: 0,
        outputs: vec![],
    };
    assert_eq!(utxos.get_fee(&two), None);
}

#[test]
fn block_candidates_take_at_most_ten_transactions() {
    let mut pool = Mempool::new();
    for stamp in 0..12u64 {
        assert!(pool.add(dummy_tx(stamp), stamp));
    }
    assert_eq!(pool.size(), 12);
    let next = pool.get_next_transactions();
    assert_eq!(next.len(), 10);
    // The ten with the highest fees come out, highest first.
    assert!(tx_eq(&next[0], &dummy_tx(11)));
    assert!(tx_eq(&next[9], &dummy_tx(2)));
}

#[test]
fn wallet_selects_the_shortest_covering_prefix() {
    let user = User::new();
    let mut wallet = Wallet::new(user.get_pub_key());
    let lock = || coin::script::Script(vec![
        OpCode::DUP,
        OpCode::SHA256,
        OpCode::PUSHBYTES(user.get_pub_key_hash()),
        OpCode::EQUALVERIFY,
        OpCode::CHECKSIG,
    ]);
    // Entries enter the wallet only through block application.
    let pay = Transaction {
        timestamp: 3,
        version: 0,
        input_count: 0,
        inputs: vec![],
        output_count: 3,
        outputs: vec![
            TxOutput { value: 2, script: lock() },
            TxOutput { value: 3, script: lock() },
            TxOutput { value: 4, script: lock() },
        ],
    };
    let block = Block::new(vec![pay], sha256("p".as_bytes()), 0, 0, 1);
    wallet.update(&block);
    assert_eq!(wallet.value, 9);
    // The shortest prefix beyond 4 holds the first two entries.
    let (selected, total) = wallet.get_inputs(4).unwrap();
    assert_eq!(selected.len(), 2);
    assert_eq!(total, 5);
    // Anything at or past the whole value cannot be covered.
    assert!(wallet.get_inputs(9).is_none());
}
