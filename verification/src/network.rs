//! The network router: the registry of connected peers and the decision
//! rules that turn each incoming peer message or supervision command into
//! consensus-state changes and a list of actions — replies, broadcasts,
//! dials and miner restarts — that the connection tasks carry out.

use vstd::prelude::*;
use crate::tx::{Transaction, TxModel};
use crate::miner::Block;
use crate::utxo::{fee_defined, spec_fee, spec_validate_tx};
use crate::mempool::{TwfModel, spec_push};
use crate::node::{Node, NodeModel, spec_add_block, add_block_ok, spec_update_blocks};
use crate::messages::{NetMessage, NetworkCommand, Verack, NewBlock, GetBlocks, Inv, PeerAddrs,
    Pong, GetInv, Blocks};

verus! {

/// What the router asks its surroundings to do.
pub enum RouterAction {
    /// Send a message back to the peer the event came from.
    Reply(NetMessage),
    /// Send a message to every connected peer.
    Broadcast(NetMessage),
    /// Restart the nonce search on a fresh candidate block.
    UpdateMiner,
    /// Dial an address, register it, and greet it with the opening
    /// handshake message.
    Connect(String),
}

/// Whether the registry knows an address.
pub open spec fn contains_addr(s: Seq<Seq<char>>, a: Seq<char>) -> bool {
    exists|i: int| 0 <= i < s.len() && #[trigger] s[i] == a
}

/// Keeping an address other than the named one.
pub open spec fn addr_other(a: Seq<char>) -> spec_fn(Seq<char>) -> bool {
    |p: Seq<char>| p != a
}

/// The registry with an address removed.
pub open spec fn spec_remove_addr(s: Seq<Seq<char>>, a: Seq<char>) -> Seq<Seq<char>> {
    s.filter(addr_other(a))
}

/// The addresses of a list worth dialing: those neither known to the
/// registry nor seen earlier in the list.
pub open spec fn spec_connects(reg: Seq<Seq<char>>, addrs: Seq<Seq<char>>, from: int) -> Seq<
    Seq<char>,
>
    decreases addrs.len() - from,
{
    if from < 0 || from >= addrs.len() {
        Seq::empty()
    } else if contains_addr(reg, addrs[from]) {
        spec_connects(reg, addrs, from + 1)
    } else {
        seq![addrs[from]] + spec_connects(reg.push(addrs[from]), addrs, from + 1)
    }
}

/// The mempool after a list of offered transactions is absorbed: each one
/// whose fee is defined and which validates joins with its fee, in order.
pub open spec fn spec_absorb(
    s: Seq<TwfModel>,
    u: Seq<crate::tx::UtxoEntryModel>,
    txs: Seq<TxModel>,
    from: int,
) -> Seq<TwfModel>
    decreases txs.len() - from,
{
    if from < 0 || from >= txs.len() {
        s
    } else {
        let next = if fee_defined(u, txs[from]) && spec_validate_tx(u, txs[from]) {
            spec_push(
                s,
                TwfModel { transaction: txs[from], fee: spec_fee(u, txs[from]) as u64 },
            )
        } else {
            s
        };
        spec_absorb(next, u, txs, from + 1)
    }
}

/// The peers the node is connected to, by address in text form.
pub struct PeerRegistry {
    pub peers: Vec<String>,
}

impl View for PeerRegistry {
    type V = Seq<Seq<char>>;

    open spec fn view(&self) -> Seq<Seq<char>> {
        self.peers.deep_view()
    }
}

impl PeerRegistry {
    /// An empty registry.
    pub fn new() -> (r: PeerRegistry)
        ensures
            r@ == Seq::<Seq<char>>::empty(),
    {
        let r = PeerRegistry { peers: Vec::new() };
        proof {
            assert(r@ =~~= Seq::<Seq<char>>::empty());
        }
        r
    }

    /// Whether an address is registered.
    #[verifier::loop_isolation(false)]
    pub fn contains(&self, peer: &String) -> (r: bool)
        ensures
            r == contains_addr(self@, peer@),
    {
        let mut i: usize = 0;
        while i < self.peers.len()
            invariant
                i <= self@.len(),
                forall|j: int| 0 <= j < i ==> #[trigger] self@[j] != peer@,
            decreases self@.len() - i,
        {
            if self.peers[i] == *peer {
                proof {
                    assert(self@[i as int] == peer@);
                }
                return true;
            }
            i = i + 1;
            proof {
                assert(self@[i - 1] == self.peers@[i - 1]@);
            }
        }
        false
    }

    /// Register an address; one already known stays registered once.
    pub fn add(&mut self, peer: String)
        ensures
            final(self)@ == if contains_addr(old(self)@, peer@) {
                old(self)@
            } else {
                old(self)@.push(peer@)
            },
    {
        if !self.contains(&peer) {
            self.peers.push(peer);
            proof {
                assert(self@ =~~= old(self)@.push(peer@));
            }
        }
    }

    /// Drop an address.
    #[verifier::loop_isolation(false)]
    pub fn remove(&mut self, peer: &String)
        ensures
            final(self)@ == spec_remove_addr(old(self)@, peer@),
    {
        let ghost pred = addr_other(peer@);
        let mut kept: Vec<String> = Vec::new();
        let mut i: usize = 0;
        proof {
            reveal(Seq::filter);
            assert(old(self)@.take(0) =~~= Seq::<Seq<char>>::empty());
            assert(Seq::<Seq<char>>::empty().filter(pred) =~~= Seq::<Seq<char>>::empty());
            assert(kept.deep_view() =~~= Seq::<Seq<char>>::empty());
        }
        while i < self.peers.len()
            invariant
                i <= self@.len(),
                kept.deep_view() == self@.take(i as int).filter(pred),
            decreases self@.len() - i,
        {
            let p = &self.peers[i];
            let same = *p == *peer;
            proof {
                reveal(Seq::filter);
                let t = self@.take(i as int + 1);
                assert(t.drop_last() =~~= self@.take(i as int));
                assert(t.last() == self@[i as int]);
            }
            if !same {
                kept.push(p.clone());
                proof {
                    assert(kept.deep_view() =~~= self@.take(i as int + 1).filter(pred));
                }
            }
            i = i + 1;
        }
        proof {
            reveal(Seq::filter);
            assert(self@.take(self@.len() as int) =~~= self@);
        }
        self.peers = kept;
    }

    /// The registered addresses.
    #[verifier::loop_isolation(false)]
    pub fn addresses(&self) -> (r: Vec<String>)
        ensures
            r.deep_view() == self@,
    {
        let mut out: Vec<String> = Vec::new();
        let mut i: usize = 0;
        while i < self.peers.len()
            invariant
                i <= self@.len(),
                out@.len() == i,
                out.deep_view() == self@.take(i as int),
            decreases self@.len() - i,
        {
            out.push(self.peers[i].clone());
            i = i + 1;
            proof {
                assert(out.deep_view() =~~= self@.take(i as int));
            }
        }
        proof {
            assert(self@.take(self@.len() as int) =~~= self@);
        }
        out
    }
}

/// A peer's connection closed: the router drops it from the registry.
pub fn handle_close(registry: &mut PeerRegistry, peer: &String)
    ensures
        final(registry)@ == spec_remove_addr(old(registry)@, peer@),
{
    registry.remove(peer);
}

/// Route one message from a peer: apply the consensus rules to the node and
/// say what the connection tasks must do in turn.
#[verifier::loop_isolation(false)]
#[verifier::rlimit(100)]
pub fn handle_message(node: &mut Node, registry: &PeerRegistry, msg: NetMessage) -> (actions: Vec<
    RouterAction,
>)
    requires
        old(node).wf(),
    ensures
        final(node).wf(),
        crate::node::replayed(old(node)@) ==> crate::node::replayed(final(node)@),
        match msg {
            NetMessage::Verack(v) => {
                &&& *final(node) == *old(node)
                &&& actions@.len() == (if v.index == 0 {
                    1int
                } else {
                    0int
                }) + (if v.height > old(node)@.height {
                    1int
                } else {
                    0int
                })
                &&& v.index == 0 ==> (actions@[0] matches RouterAction::Reply(
                    NetMessage::Verack(va),
                ) && va.index == 1 && va.version == old(node)@.version && va.height == old(
                    node,
                )@.height)
                &&& v.height > old(node)@.height ==> (actions@.last()
                    matches RouterAction::Reply(NetMessage::GetBlocks(gb)) && gb.start_height
                    == old(node)@.height + 1)
            },
            NetMessage::GetInv(_) => {
                &&& *final(node) == *old(node)
                &&& actions@.len() == 1
                &&& (actions@[0] matches RouterAction::Reply(NetMessage::Inv(inv))
                    && inv.mempool.deep_view() == crate::mempool::pool_txs(old(node)@.mempool))
            },
            NetMessage::Inv(inv) => {
                &&& final(node)@ == (NodeModel {
                    mempool: spec_absorb(
                        old(node)@.mempool,
                        old(node)@.utxos,
                        inv.mempool.deep_view(),
                        0,
                    ),
                    ..old(node)@
                })
                &&& actions@.len() == 0
            },
            NetMessage::GetPeerAddrs(_) => {
                &&& *final(node) == *old(node)
                &&& actions@.len() == 1
                &&& (actions@[0] matches RouterAction::Reply(NetMessage::PeerAddrs(pa))
                    && pa.addresses.deep_view() == registry@)
            },
            NetMessage::PeerAddrs(pa) => {
                &&& *final(node) == *old(node)
                &&& actions@.len() == spec_connects(registry@, pa.addresses.deep_view(), 0).len()
                &&& forall|i: int|
                    0 <= i < actions@.len() ==> (#[trigger] actions@[i]
                        matches RouterAction::Connect(a) && a@ == spec_connects(
                        registry@,
                        pa.addresses.deep_view(),
                        0,
                    )[i])
            },
            NetMessage::Ping(_) => {
                &&& *final(node) == *old(node)
                &&& actions@.len() == 1
                &&& (actions@[0] matches RouterAction::Reply(NetMessage::Pong(_)))
            },
            NetMessage::Pong(_) => *final(node) == *old(node) && actions@.len() == 0,
            NetMessage::Transaction(tx) => {
                let ok = fee_defined(old(node)@.utxos, tx@) && spec_validate_tx(
                    old(node)@.utxos,
                    tx@,
                );
                let fresh = !crate::mempool::contains_tx(old(node)@.mempool, tx@);
                &&& final(node)@ == (NodeModel {
                    mempool: if ok {
                        spec_push(
                            old(node)@.mempool,
                            TwfModel {
                                transaction: tx@,
                                fee: spec_fee(old(node)@.utxos, tx@) as u64,
                            },
                        )
                    } else {
                        old(node)@.mempool
                    },
                    ..old(node)@
                })
                &&& actions@.len() == (if ok && fresh {
                    1int
                } else {
                    0int
                })
                &&& ok && fresh ==> (actions@[0] matches RouterAction::Broadcast(
                    NetMessage::Transaction(t),
                ) && t@ == tx@)
            },
            NetMessage::NewBlock(nb) => {
                let ok = add_block_ok(old(node)@, nb.block@);
                &&& final(node)@ == spec_add_block(old(node)@, nb.block@)
                &&& actions@.len() == (if ok {
                    2int
                } else {
                    0int
                })
                &&& ok ==> (actions@[0] matches RouterAction::Broadcast(
                    NetMessage::NewBlock(b),
                ) && b.block@ == nb.block@)
                &&& ok ==> actions@[1] is UpdateMiner
            },
            NetMessage::Blocks(blocks) => {
                let ok = blocks.start_height == old(node)@.height + 1;
                &&& ok ==> final(node)@ == spec_update_blocks(
                    old(node)@,
                    blocks.blockchain.deep_view(),
                    0,
                )
                &&& !ok ==> *final(node) == *old(node)
                &&& actions@.len() == 1
                &&& actions@[0] is UpdateMiner
            },
            NetMessage::GetBlocks(gb) => {
                &&& *final(node) == *old(node)
                &&& actions@.len() == (if 1 <= gb.start_height && gb.start_height <= old(
                    node,
                )@.height {
                    old(node)@.height - gb.start_height + 1
                } else {
                    0int
                })
                &&& forall|i: int|
                    0 <= i < actions@.len() ==> (#[trigger] actions@[i]
                        matches RouterAction::Reply(NetMessage::NewBlock(b)) && b.block@ == old(
                        node,
                    )@.block_chain[gb.start_height - 1 + i])
            },
        },
{
    let mut actions: Vec<RouterAction> = Vec::new();
    match msg {
        NetMessage::Verack(verack) => {
            if verack.index == 0 {
                actions.push(
                    RouterAction::Reply(
                        NetMessage::Verack(Verack::new(1, node.version, node.height)),
                    ),
                );
            }
            if verack.height > node.height {
                actions.push(
                    RouterAction::Reply(
                        NetMessage::GetBlocks(GetBlocks::new(node.height + 1)),
                    ),
                );
            }
            actions
        },
        NetMessage::GetInv(_) => {
            let pool = self_mempool_txs(node);
            actions.push(RouterAction::Reply(NetMessage::Inv(Inv::new(pool))));
            actions
        },
        NetMessage::Inv(inv) => {
            let ghost txs = inv.mempool.deep_view();
            let ghost u = node@.utxos;
            let list = inv.mempool;
            let mut i: usize = 0;
            while i < list.len()
                invariant
                    i <= txs.len(),
                    node.wf(),
                    node@ == (NodeModel { mempool: node@.mempool, ..old(node)@ }),
                    u == old(node)@.utxos,
                    list.deep_view() == txs,
                    spec_absorb(old(node)@.mempool, u, txs, 0) == spec_absorb(
                        node@.mempool,
                        u,
                        txs,
                        i as int,
                    ),
                decreases txs.len() - i,
            {
                let tx = &list[i];
                proof {
                    assert(list@[i as int].deep_view() == txs[i as int]);
                }
                match node.utxos.get_fee(tx) {
                    Some(fee) => {
                        if node.utxos.validate_transaction(tx) {
                            let _ = node.mempool.add(tx.duplicate(), fee);
                        }
                    },
                    None => {},
                }
                i = i + 1;
            }
            actions
        },
        NetMessage::GetPeerAddrs(_) => {
            let addrs = registry.addresses();
            actions.push(RouterAction::Reply(NetMessage::PeerAddrs(PeerAddrs::new(addrs))));
            actions
        },
        NetMessage::PeerAddrs(pa) => {
            let ghost addrs = pa.addresses.deep_view();
            let ghost reg0 = registry@;
            let mut known: Vec<String> = registry.addresses();
            let list = pa.addresses;
            let mut i: usize = 0;
            let ghost mut emitted: Seq<Seq<char>> = Seq::empty();
            proof {
                assert(emitted + spec_connects(known.deep_view(), addrs, 0) =~~= spec_connects(
                    reg0,
                    addrs,
                    0,
                ));
            }
            while i < list.len()
                invariant
                    i <= addrs.len(),
                    list.deep_view() == addrs,
                    emitted.len() == actions@.len(),
                    spec_connects(reg0, addrs, 0) == emitted + spec_connects(
                        known.deep_view(),
                        addrs,
                        i as int,
                    ),
                    forall|j: int|
                        0 <= j < actions@.len() ==> (#[trigger] actions@[j]
                            matches RouterAction::Connect(a) && a@ == emitted[j]),
                decreases addrs.len() - i,
            {
                let addr = &list[i];
                proof {
                    assert(list@[i as int].deep_view() == addrs[i as int]);
                }
                if !contains_string(&known, addr) {
                    let ghost known0 = known.deep_view();
                    actions.push(RouterAction::Connect(addr.clone()));
                    known.push(addr.clone());
                    proof {
                        emitted = emitted.push(addrs[i as int]);
                        assert(known.deep_view() =~~= known0.push(addrs[i as int]));
                        assert(spec_connects(known0, addrs, i as int) =~~= seq![
                            addrs[i as int],
                        ] + spec_connects(known0.push(addrs[i as int]), addrs, i as int + 1));
                        assert(spec_connects(reg0, addrs, 0) =~~= emitted + spec_connects(
                            known.deep_view(),
                            addrs,
                            i as int + 1,
                        ));
                    }
                }
                i = i + 1;
            }
            proof {
                assert(spec_connects(known.deep_view(), addrs, addrs.len() as int) =~~= Seq::<
                    Seq<char>,
                >::empty());
                assert(emitted =~~= spec_connects(reg0, addrs, 0));
            }
            actions
        },
        NetMessage::Ping(_) => {
            actions.push(RouterAction::Reply(NetMessage::Pong(Pong {  })));
            actions
        },
        NetMessage::Pong(_) => actions,
        NetMessage::Transaction(transaction) => {
            match node.utxos.get_fee(&transaction) {
                Some(fee) => {
                    if node.utxos.validate_transaction(&transaction) {
                        let added = node.mempool.add(transaction.duplicate(), fee);
                        if added {
                            actions.push(
                                RouterAction::Broadcast(NetMessage::Transaction(transaction)),
                            );
                        }
                    }
                },
                None => {},
            }
            actions
        },
        NetMessage::NewBlock(new_block) => {
            let ghost bm = new_block.block@;
            let relay = new_block.block.duplicate();
            let is_new = node.add_block(new_block.block);
            if is_new {
                actions.push(RouterAction::Broadcast(NetMessage::NewBlock(NewBlock::new(relay))));
                actions.push(RouterAction::UpdateMiner);
            }
            actions
        },
        NetMessage::Blocks(blocks) => {
            let _ = node.update_blocks(blocks);
            actions.push(RouterAction::UpdateMiner);
            actions
        },
        NetMessage::GetBlocks(get_blocks) => {
            let start = get_blocks.start_height;
            if start < 1 || start > node.height {
                return actions;
            }
            let n = node.block_chain.len();
            proof {
                assert(n == node@.block_chain.len());
                assert(node@.block_chain.len() == node@.height);
                assert(start - 1 < n);
            }
            let mut i: usize = (start - 1) as usize;
            proof {
                assert(i == start - 1);
            }
            while i < node.block_chain.len()
                invariant
                    start >= 1,
                    start - 1 <= i <= node@.block_chain.len(),
                    node@.block_chain.len() == node@.height,
                    actions@.len() == i - (start - 1),
                    forall|k: int|
                        0 <= k < actions@.len() ==> (#[trigger] actions@[k]
                            matches RouterAction::Reply(NetMessage::NewBlock(b)) && b.block@
                            == node@.block_chain[start - 1 + k]),
                decreases node@.block_chain.len() - i,
            {
                let b = node.block_chain[i].duplicate();
                proof {
                    assert(node.block_chain@[i as int].deep_view()
                        == node@.block_chain[i as int]);
                }
                actions.push(RouterAction::Reply(NetMessage::NewBlock(NewBlock::new(b))));
                i = i + 1;
            }
            actions
        },
    }
}

/// The pending transactions of the node, in pool order.
fn self_mempool_txs(node: &Node) -> (r: Vec<Transaction>)
    ensures
        r.deep_view() == crate::mempool::pool_txs(node@.mempool),
{
    let pool = node.mempool.duplicate();
    pool.get_inv()
}

/// Whether a list of strings holds one equal to the given one.
#[verifier::loop_isolation(false)]
fn contains_string(list: &Vec<String>, s: &String) -> (r: bool)
    ensures
        r == contains_addr(list.deep_view(), s@),
{
    let mut i: usize = 0;
    while i < list.len()
        invariant
            i <= list@.len(),
            forall|j: int| 0 <= j < i ==> #[trigger] list.deep_view()[j] != s@,
        decreases list@.len() - i,
    {
        if list[i] == *s {
            proof {
                assert(list.deep_view()[i as int] == s@);
            }
            return true;
        }
        i = i + 1;
        proof {
            assert(list.deep_view()[i - 1] == list@[i - 1]@);
        }
    }
    false
}

/// Route one command from consensus or supervision.
pub fn handle_command(node: &mut Node, registry: &PeerRegistry, cmd: NetworkCommand) -> (actions:
    Vec<RouterAction>)
    requires
        old(node).wf(),
    ensures
        final(node).wf(),
        crate::node::replayed(old(node)@) ==> crate::node::replayed(final(node)@),
        match cmd {
            NetworkCommand::Block(b) => {
                let ok = add_block_ok(old(node)@, b@);
                &&& final(node)@ == spec_add_block(old(node)@, b@)
                &&& actions@.len() == (if ok {
                    2int
                } else {
                    0int
                })
                &&& ok ==> (actions@[0] matches RouterAction::Broadcast(
                    NetMessage::NewBlock(nb),
                ) && nb.block@ == b@)
                &&& ok ==> actions@[1] is UpdateMiner
            },
            NetworkCommand::Transaction(tx) => {
                let ok = fee_defined(old(node)@.utxos, tx@) && spec_validate_tx(
                    old(node)@.utxos,
                    tx@,
                );
                &&& final(node)@ == (NodeModel {
                    mempool: if ok {
                        spec_push(
                            old(node)@.mempool,
                            TwfModel {
                                transaction: tx@,
                                fee: spec_fee(old(node)@.utxos, tx@) as u64,
                            },
                        )
                    } else {
                        old(node)@.mempool
                    },
                    ..old(node)@
                })
                &&& actions@.len() == (if ok {
                    1int
                } else {
                    0int
                })
                &&& ok ==> (actions@[0] matches RouterAction::Broadcast(
                    NetMessage::Transaction(t),
                ) && t@ == tx@)
            },
            NetworkCommand::Connect(addr) => {
                &&& *final(node) == *old(node)
                &&& actions@.len() == (if contains_addr(registry@, addr@) {
                    0int
                } else {
                    1int
                })
                &&& !contains_addr(registry@, addr@) ==> (actions@[0]
                    matches RouterAction::Connect(a) && a@ == addr@)
            },
        },
{
    let mut actions: Vec<RouterAction> = Vec::new();
    match cmd {
        NetworkCommand::Block(block) => {
            let relay = block.duplicate();
            let accepted = node.add_block(block);
            if accepted {
                actions.push(RouterAction::Broadcast(NetMessage::NewBlock(NewBlock::new(relay))));
                actions.push(RouterAction::UpdateMiner);
            }
            actions
        },
        NetworkCommand::Transaction(transaction) => {
            match node.utxos.get_fee(&transaction) {
                Some(fee) => {
                    if node.utxos.validate_transaction(&transaction) {
                        let _ = node.mempool.add(transaction.duplicate(), fee);
                        actions.push(
                            RouterAction::Broadcast(NetMessage::Transaction(transaction)),
                        );
                    }
                },
                None => {},
            }
            actions
        },
        NetworkCommand::Connect(addr) => {
            if !registry.contains(&addr) {
                actions.push(RouterAction::Connect(addr));
            }
            actions
        },
    }
}

} // verus!
