use coin::messages::{NetMessage, NetworkCommand, Verack};
use coin::network::{handle_close, handle_command, handle_message, PeerRegistry, RouterAction};
use coin::node::Node;
use coin::tx::Recipient;
use coin::crypto::User;

#[test]
fn handshake_opening_is_answered_and_taller_peers_are_asked_for_blocks() {
    let mut node = Node::new();
    let registry = PeerRegistry::new();
    let actions = handle_message(
        &mut node,
        &registry,
        NetMessage::Verack(Verack::new(0, 1, 5)),
    );
    assert_eq!(actions.len(), 2);
    match &actions[0] {
        RouterAction::Reply(NetMessage::Verack(v)) => {
            assert_eq!(v.index, 1);
            assert_eq!(v.version, 0);
            assert_eq!(v.height, 0);
        },
        _ => panic!("expected a handshake reply"),
    }
    match &actions[1] {
        RouterAction::Reply(NetMessage::GetBlocks(gb)) => {
            assert_eq!(gb.start_height, 1);
        },
        _ => panic!("expected a catch-up request"),
    }
    assert_eq!(node.height, 0);
}

#[test]
fn handshake_reply_from_a_shorter_peer_asks_nothing() {
    let mut node = Node::new();
    let registry = PeerRegistry::new();
    let actions = handle_message(
        &mut node,
        &registry,
        NetMessage::Verack(Verack::new(1, 1, 0)),
    );
    assert_eq!(actions.len(), 0);
}

#[test]
fn ping_is_answered_with_pong() {
    let mut node = Node::new();
    let registry = PeerRegistry::new();
    let actions = handle_message(&mut node, &registry, NetMessage::Ping(coin::messages::Ping {}));
    assert_eq!(actions.len(), 1);
    assert!(matches!(
        actions[0],
        RouterAction::Reply(NetMessage::Pong(_))
    ));
    let none = handle_message(&mut node, &registry, NetMessage::Pong(coin::messages::Pong {}));
    assert_eq!(none.len(), 0);
}

#[test]
fn accepted_blocks_are_relayed_and_restart_the_miner() {
    let mut node = Node::new();
    let registry = PeerRegistry::new();
    let block = node.get_next_block();
    let actions = handle_command(&mut node, &registry, NetworkCommand::Block(block));
    assert_eq!(actions.len(), 2);
    assert!(matches!(
        actions[0],
        RouterAction::Broadcast(NetMessage::NewBlock(_))
    ));
    assert!(matches!(actions[1], RouterAction::UpdateMiner));
    assert_eq!(node.height, 1);

    // The same block again stands at a stale height: dropped, no actions.
    let again = node.block_chain[0].duplicate();
    let actions2 = handle_message(
        &mut node,
        &registry,
        NetMessage::NewBlock(coin::messages::NewBlock::new(again)),
    );
    assert_eq!(actions2.len(), 0);
    assert_eq!(node.height, 1);
}

#[test]
fn valid_transactions_enter_the_pool_and_are_broadcast_once() {
    let mut node = Node::new();
    let registry = PeerRegistry::new();
    let block = node.get_next_block();
    assert!(node.add_block(block));
    let v = User::new();
    let tx = node
        .create_transaction(vec![Recipient { pubkey: v.get_pub_key(), amount: 3 }], 1, coin::crypto::get_timestamp())
        .unwrap();
    let actions = handle_message(
        &mut node,
        &registry,
        NetMessage::Transaction(tx.duplicate()),
    );
    assert_eq!(actions.len(), 1);
    assert!(matches!(
        actions[0],
        RouterAction::Broadcast(NetMessage::Transaction(_))
    ));
    assert_eq!(node.get_mempool_size(), 1);

    // The same identity again is not re-broadcast.
    let actions2 = handle_message(&mut node, &registry, NetMessage::Transaction(tx));
    assert_eq!(actions2.len(), 0);
    assert_eq!(node.get_mempool_size(), 1);

    // A transaction without a defined fee is ignored.
    let junk = coin::tx::Transaction {
        timestamp: 0,
        version: 0,
        input_count: 1,
        inputs: vec![coin::tx::TxInput {
            prev: coin::crypto::sha256("absent".as_bytes()),
            output_index: 0,
            script: coin::script::Script::empty(),
        }],
        output_count: 0,
        outputs: vec![],
    };
    let actions3 = handle_message(&mut node, &registry, NetMessage::Transaction(junk));
    assert_eq!(actions3.len(), 0);
    assert_eq!(node.get_mempool_size(), 1);
}

#[test]
fn catch_up_requests_stream_each_block_in_order() {
    let mut node = Node::new();
    let registry = PeerRegistry::new();
    for _ in 0..2 {
        let b = node.get_next_block();
        assert!(node.add_block(b));
    }
    let actions = handle_message(
        &mut node,
        &registry,
        NetMessage::GetBlocks(coin::messages::GetBlocks::new(1)),
    );
    assert_eq!(actions.len(), 2);
    for (i, action) in actions.iter().enumerate() {
        match action {
            RouterAction::Reply(NetMessage::NewBlock(nb)) => {
                assert_eq!(
                    nb.block.serialize(),
                    node.block_chain[i].serialize()
                );
            },
            _ => panic!("expected streamed blocks"),
        }
    }
    // A request beyond the tip streams nothing.
    let empty = handle_message(
        &mut node,
        &registry,
        NetMessage::GetBlocks(coin::messages::GetBlocks::new(9)),
    );
    assert_eq!(empty.len(), 0);
}

#[test]
fn peer_registry_tracks_addresses_and_connect_decisions() {
    let mut registry = PeerRegistry::new();
    registry.add("10.0.0.1:8080".to_string());
    registry.add("10.0.0.2:8080".to_string());
    registry.add("10.0.0.1:8080".to_string());
    assert_eq!(registry.peers.len(), 2);
    assert!(registry.contains(&"10.0.0.1:8080".to_string()));

    let mut node = Node::new();
    let known = handle_command(
        &mut node,
        &registry,
        NetworkCommand::Connect("10.0.0.1:8080".to_string()),
    );
    assert_eq!(known.len(), 0);
    let unknown = handle_command(
        &mut node,
        &registry,
        NetworkCommand::Connect("10.0.0.3:8080".to_string()),
    );
    assert_eq!(unknown.len(), 1);
    assert!(matches!(unknown[0], RouterAction::Connect(_)));

    handle_close(&mut registry, &"10.0.0.1:8080".to_string());
    assert!(!registry.contains(&"10.0.0.1:8080".to_string()));
    assert_eq!(registry.peers.len(), 1);
}

#[test]
fn peer_address_lists_are_deduplicated_before_dialing() {
    let mut node = Node::new();
    let mut registry = PeerRegistry::new();
    registry.add("10.0.0.1:1".to_string());
    let actions = handle_message(
        &mut node,
        &registry,
        NetMessage::PeerAddrs(coin::messages::PeerAddrs::new(vec![
            "10.0.0.1:1".to_string(),
            "10.0.0.2:2".to_string(),
            "10.0.0.2:2".to_string(),
            "10.0.0.3:3".to_string(),
        ])),
    );
    assert_eq!(actions.len(), 2);
    match (&actions[0], &actions[1]) {
        (RouterAction::Connect(a), RouterAction::Connect(b)) => {
            assert_eq!(a, "10.0.0.2:2");
            assert_eq!(b, "10.0.0.3:3");
        },
        _ => panic!("expected dial actions"),
    }
}

#[test]
fn inventories_are_absorbed_and_served() {
    let mut node = Node::new();
    let registry = PeerRegistry::new();
    let block = node.get_next_block();
    assert!(node.add_block(block));
    let v = User::new();
    let tx = node
        .create_transaction(vec![Recipient { pubkey: v.get_pub_key(), amount: 2 }], 1, coin::crypto::get_timestamp())
        .unwrap();
    let actions = handle_message(
        &mut node,
        &registry,
        NetMessage::Inv(coin::messages::Inv::new(vec![tx.duplicate()])),
    );
    assert_eq!(actions.len(), 0);
    assert_eq!(node.get_mempool_size(), 1);

    let reply = handle_message(
        &mut node,
        &registry,
        NetMessage::GetInv(coin::messages::GetInv::new()),
    );
    assert_eq!(reply.len(), 1);
    match &reply[0] {
        RouterAction::Reply(NetMessage::Inv(inv)) => {
            assert_eq!(inv.mempool.len(), 1);
            assert!(coin::tx::tx_eq(&inv.mempool[0], &tx));
        },
        _ => panic!("expected the pending transactions"),
    }
}
