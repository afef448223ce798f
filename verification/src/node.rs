//! The consensus state of one node: its key pair, blockchain, UTXO set,
//! mempool and wallet, with the rules that keep them consistent as blocks
//! arrive from mining or from peers.

use vstd::prelude::*;
use vstd::string::StringSliceAdditionalSpecFns;
use crate::crypto::{sha256_of, sha256, pub_key_hash_of, User, clone_bytes};
use crate::script::p2pkh_output;
use crate::tx::{Transaction, TxModel, UtxoEntryModel, tx_hash, payment_signable, spec_payment};
use crate::miner::{Block, BlockHeader, BlockModel, HeaderModel, block_hash, merkle_root_of};
use crate::utxo::{UTXOS, apply_txs, spec_block_valid, spec_validate_tx};
use crate::mempool::{Mempool, TwfModel, heap_wf, spec_remove, contains_item,
    lemma_remove_membership, lemma_remove_len, TX_PER_BLOCK};
use crate::wallet::{Wallet, WalletModel, wallet_wf, wallet_apply_txs, entries_value, covers,
    lemma_covers_unique};
use crate::messages::Blocks;
use crate::hexcode::{hex_of, unhex, is_hex, hex_encode, hex_decode, lemma_unhex_hex_of};
use crate::script::{Script, bytes_eq, script_eq};
use crate::miner::{header_eq, clone_headers, clone_blocks};
use crate::mempool::TransactionWithFee;
use crate::tx::UtxoEntry;
use crate::wallet::{lemma_entries_value_bound};

verus! {

/// The proof-of-work target a fresh node starts with.
pub const DIFFICULTY: u64 = 3;

/// The block reward a fresh node starts with.
pub const REWARD: u64 = 10;

/// The mathematical form of a node.
#[verifier::ext_equal]
pub struct NodeModel {
    pub user_pk: Seq<u8>,
    pub user_sk: Seq<u8>,
    pub height: u64,
    pub version: u64,
    pub mempool: Seq<TwfModel>,
    pub headers: Seq<HeaderModel>,
    pub block_chain: Seq<BlockModel>,
    pub difficulty: u64,
    pub reward: u64,
    pub utxos: Seq<UtxoEntryModel>,
    pub wallet: WalletModel,
}

/// The consensus state.
pub struct Node {
    pub user: User,
    pub height: u64,
    pub version: u64,
    pub mempool: Mempool,
    pub headers: Vec<BlockHeader>,
    pub block_chain: Vec<Block>,
    pub difficulty: u64,
    pub reward: u64,
    pub utxos: UTXOS,
    pub wallet: Wallet,
}

impl View for Node {
    type V = NodeModel;

    open spec fn view(&self) -> NodeModel {
        NodeModel {
            user_pk: self.user.public_key@,
            user_sk: self.user.private_key@,
            height: self.height,
            version: self.version,
            mempool: self.mempool@,
            headers: self.headers.deep_view(),
            block_chain: self.block_chain.deep_view(),
            difficulty: self.difficulty,
            reward: self.reward,
            utxos: self.utxos@,
            wallet: self.wallet@,
        }
    }
}

/// The shape every reachable node keeps: the chain and the headers have the
/// node's height as their common length and agree at every index, heights
/// in headers are one-based, the mempool is ordered and duplicate-free, and
/// the wallet is consistent and belongs to the node's key.
pub open spec fn node_wf(n: NodeModel) -> bool {
    &&& n.block_chain.len() == n.height
    &&& n.headers.len() == n.height
    &&& forall|i: int| 0 <= i < n.height ==> #[trigger] n.headers[i] == n.block_chain[i].block_header
    &&& forall|i: int|
        0 <= i < n.height ==> (#[trigger] n.block_chain[i]).block_header.height == i + 1
    &&& heap_wf(n.mempool)
    &&& wallet_wf(n.wallet)
    &&& n.wallet.pub_key == n.user_pk
}

/// The hash the next block must link to: the hash of the last block, or the
/// digest of the fixed genesis seed under an empty chain.
pub open spec fn prev_hash_of(n: NodeModel) -> Seq<u8> {
    if n.block_chain.len() == 0 {
        sha256_of("00".spec_bytes())
    } else {
        block_hash(n.block_chain.last())
    }
}

/// Whether a chain is linked: the first block points at the genesis seed,
/// and each later block at the hash of the one before it.
pub open spec fn chain_linked(chain: Seq<BlockModel>) -> bool {
    &&& chain.len() > 0 ==> chain[0].block_header.prev_hash == sha256_of("00".spec_bytes())
    &&& forall|i: int|
        1 <= i < chain.len() ==> (#[trigger] chain[i]).block_header.prev_hash == block_hash(
            chain[i - 1],
        )
}

/// The UTXO set obtained by applying every transaction of every block of
/// the chain, in order, from block `from` on, to `s`.
pub open spec fn replay_from(s: Seq<UtxoEntryModel>, chain: Seq<BlockModel>, from: int) -> Seq<
    UtxoEntryModel,
>
    decreases chain.len() - from,
{
    if from < 0 || from >= chain.len() {
        s
    } else {
        replay_from(apply_txs(s, chain[from].transactions, 0), chain, from + 1)
    }
}

/// Whether the node's UTXO set is exactly the replay of its chain.
pub open spec fn replayed(n: NodeModel) -> bool {
    n.utxos == replay_from(Seq::empty(), n.block_chain, 0)
}

/// Replaying a chain with one more block is replaying the chain and then
/// applying the block.
proof fn lemma_replay_snoc(s: Seq<UtxoEntryModel>, chain: Seq<BlockModel>, b: BlockModel, from: int)
    requires
        0 <= from <= chain.len(),
    ensures
        replay_from(s, chain.push(b), from) == apply_txs(
            replay_from(s, chain, from),
            b.transactions,
            0,
        ),
    decreases chain.len() - from,
{
    if from == chain.len() {
        assert(chain.push(b)[from] == b);
        assert(replay_from(s, chain, from) == s);
        assert(replay_from(s, chain.push(b), from) == replay_from(
            apply_txs(s, b.transactions, 0),
            chain.push(b),
            from + 1,
        ));
        assert(replay_from(apply_txs(s, b.transactions, 0), chain.push(b), from + 1) == apply_txs(
            s,
            b.transactions,
            0,
        ));
    } else {
        assert(chain.push(b)[from] == chain[from]);
        assert(replay_from(s, chain.push(b), from) == replay_from(
            apply_txs(s, chain[from].transactions, 0),
            chain.push(b),
            from + 1,
        ));
        assert(replay_from(s, chain, from) == replay_from(
            apply_txs(s, chain[from].transactions, 0),
            chain,
            from + 1,
        ));
        lemma_replay_snoc(apply_txs(s, chain[from].transactions, 0), chain, b, from + 1);
    }
}

/// The mempool after the non-coinbase transactions of a block leave it,
/// from transaction `from` on.
pub open spec fn mempool_strip(s: Seq<TwfModel>, txs: Seq<TxModel>, from: int) -> Seq<TwfModel>
    decreases txs.len() - from,
{
    if from < 0 || from >= txs.len() {
        s
    } else {
        let next = if txs[from].input_count != 0 {
            spec_remove(s, txs[from])
        } else {
            s
        };
        mempool_strip(next, txs, from + 1)
    }
}

/// Whether a node accepts a block: it stands at the next height and every
/// transaction in it validates against the UTXO set as it is.
pub open spec fn add_block_ok(n: NodeModel, b: BlockModel) -> bool {
    &&& b.block_header.height == n.height + 1
    &&& spec_block_valid(n.utxos, b.transactions)
}

/// The node after a block arrives: unchanged when the block is refused;
/// else the block and its header join the chain, the height advances, the
/// UTXO set and the wallet absorb the block's transactions, and the pending
/// copies of its non-coinbase transactions leave the mempool.
pub open spec fn spec_add_block(n: NodeModel, b: BlockModel) -> NodeModel {
    if !add_block_ok(n, b) {
        n
    } else {
        NodeModel {
            height: b.block_header.height,
            mempool: mempool_strip(n.mempool, b.transactions, 0),
            headers: n.headers.push(b.block_header),
            block_chain: n.block_chain.push(b),
            utxos: apply_txs(n.utxos, b.transactions, 0),
            wallet: WalletModel {
                value: entries_value(
                    wallet_apply_txs(n.wallet.utxos, b.transactions, n.wallet.pub_key_hash, 0),
                ) as u128,
                utxos: wallet_apply_txs(n.wallet.utxos, b.transactions, n.wallet.pub_key_hash, 0),
                ..n.wallet
            },
            ..n
        }
    }
}

/// The node after a run of blocks is offered in order, from block `from` on.
pub open spec fn spec_update_blocks(n: NodeModel, chain: Seq<BlockModel>, from: int) -> NodeModel
    decreases chain.len() - from,
{
    if from < 0 || from >= chain.len() {
        n
    } else {
        spec_update_blocks(spec_add_block(n, chain[from]), chain, from + 1)
    }
}

impl Node {
    /// Whether the node keeps its shape.
    pub open spec fn wf(&self) -> bool {
        node_wf(self@)
    }

    /// A fresh node: a new key pair, an empty chain, an empty UTXO set, an
    /// empty mempool and an empty wallet.
    pub fn new() -> (r: Node)
        ensures
            r.wf(),
            chain_linked(r@.block_chain),
            replayed(r@),
            r@.height == 0,
            r@.version == 0,
            r@.difficulty == DIFFICULTY,
            r@.reward == REWARD,
            r@.mempool == Seq::<TwfModel>::empty(),
            r@.block_chain == Seq::<BlockModel>::empty(),
            r@.headers == Seq::<HeaderModel>::empty(),
            r@.utxos == Seq::<UtxoEntryModel>::empty(),
            r@.wallet.pub_key == r@.user_pk,
            r@.wallet.pub_key_hash == pub_key_hash_of(r@.user_pk),
            r@.wallet.value == 0,
    {
        let user = User::new();
        let wallet = Wallet::new(user.get_pub_key());
        let r = Node {
            user,
            height: 0,
            version: 0,
            mempool: Mempool::new(),
            headers: Vec::new(),
            block_chain: Vec::new(),
            difficulty: DIFFICULTY,
            reward: REWARD,
            utxos: UTXOS::new(),
            wallet,
        };
        proof {
            assert(r@.block_chain =~~= Seq::<BlockModel>::empty());
            assert(r@.headers =~~= Seq::<HeaderModel>::empty());
        }
        r
    }

    /// The number of pending transactions.
    pub fn get_mempool_size(&self) -> (r: usize)
        ensures
            r == self@.mempool.len(),
    {
        self.mempool.size()
    }

    /// The hash the next block must link to.
    pub fn get_prev_hash(&self) -> (r: Vec<u8>)
        ensures
            r@ == prev_hash_of(self@),
    {
        if self.block_chain.len() == 0 {
            let mut seed: Vec<u8> = Vec::new();
            crate::ser::push_chunk(&mut seed, "00");
            proof {
                assert(seed@ =~~= "00".spec_bytes());
            }
            sha256(seed.as_slice())
        } else {
            let last = self.block_chain.len() - 1;
            proof {
                assert(self.block_chain@[last as int].deep_view()
                    == self@.block_chain.last());
            }
            self.block_chain[last].calculate_hash()
        }
    }

    /// Offer a block at the next height. Refused — with the node unchanged
    /// and `false` returned — when its height is not the node's height plus
    /// one or a transaction in it fails validation; accepted otherwise,
    /// with every consensus structure updated together.
    #[verifier::loop_isolation(false)]
    pub fn add_block(&mut self, block: Block) -> (r: bool)
        requires
            old(self).wf(),
        ensures
            final(self).wf(),
            r == add_block_ok(old(self)@, block@),
            final(self)@ == spec_add_block(old(self)@, block@),
            block@.block_header.height != old(self)@.height + 1 ==> !r && *final(self) == *old(
                self,
            ),
            replayed(old(self)@) ==> replayed(final(self)@),
            chain_linked(old(self)@.block_chain) && r && block@.block_header.prev_hash
                == prev_hash_of(old(self)@) ==> chain_linked(final(self)@.block_chain),
    {
        if block.block_header.height < 1 || block.block_header.height - 1 != self.height {
            return false;
        }
        if !self.utxos.add_block(&block) {
            return false;
        }
        let ghost pre = old(self)@;
        let ghost bm = block@;
        self.wallet.update(&block);
        let ghost mid = self@;
        let ghost txs = bm.transactions;
        let mut t: usize = 0;
        while t < block.transactions.len()
            invariant
                t <= txs.len(),
                heap_wf(self.mempool@),
                self@ == (NodeModel { mempool: self@.mempool, ..mid }),
                mempool_strip(pre.mempool, txs, 0) == mempool_strip(self.mempool@, txs, t as int),
            decreases txs.len() - t,
        {
            let tx = &block.transactions[t];
            proof {
                assert(block.transactions@[t as int].deep_view() == txs[t as int]);
            }
            if tx.input_count != 0 {
                self.mempool.remove(tx);
            }
            t = t + 1;
        }
        self.headers.push(block.block_header.duplicate());
        self.height = block.block_header.height;
        self.block_chain.push(block);
        proof {
            assert(self@.block_chain =~~= pre.block_chain.push(bm));
            assert(self@.headers =~~= pre.headers.push(bm.block_header));
            assert(self@ =~~= spec_add_block(pre, bm));
            assert(node_wf(self@)) by {
                assert forall|i: int|
                    0 <= i < self@.height implies #[trigger] self@.headers[i]
                    == self@.block_chain[i].block_header && self@.block_chain[i].block_header.height
                    == i + 1 by {
                    if i < pre.height {
                        assert(self@.headers[i] == pre.headers[i]);
                        assert(self@.block_chain[i] == pre.block_chain[i]);
                    }
                }
            }
            if replayed(pre) {
                lemma_replay_snoc(Seq::empty(), pre.block_chain, bm, 0);
            }
            if chain_linked(pre.block_chain) && bm.block_header.prev_hash == prev_hash_of(pre) {
                let newc = self@.block_chain;
                assert forall|i: int|
                    1 <= i < newc.len() implies (#[trigger] newc[i]).block_header.prev_hash
                    == block_hash(newc[i - 1]) by {
                    if i < newc.len() - 1 {
                        assert(newc[i] == pre.block_chain[i]);
                        assert(newc[i - 1] == pre.block_chain[i - 1]);
                    } else {
                        assert(newc[i] == bm);
                        assert(newc[i - 1] == pre.block_chain.last());
                    }
                }
            }
        }
        true
    }

    /// Offer a run of consecutive blocks. Nothing changes unless the run
    /// starts exactly one above the node's height; each block is then
    /// offered in order under the same rules as a single one.
    #[verifier::loop_isolation(false)]
    pub fn update_blocks(&mut self, blocks: Blocks) -> (r: bool)
        requires
            old(self).wf(),
        ensures
            final(self).wf(),
            r == (blocks.start_height == old(self)@.height + 1),
            !r ==> *final(self) == *old(self),
            r ==> final(self)@ == spec_update_blocks(
                old(self)@,
                blocks.blockchain.deep_view(),
                0,
            ),
            replayed(old(self)@) ==> replayed(final(self)@),
    {
        if blocks.start_height < 1 || blocks.start_height - 1 != self.height {
            return false;
        }
        let ghost chain = blocks.blockchain.deep_view();
        let blockchain = blocks.blockchain;
        let mut i: usize = 0;
        while i < blockchain.len()
            invariant
                i <= chain.len(),
                blockchain.deep_view() == chain,
                self.wf(),
                spec_update_blocks(old(self)@, chain, 0) == spec_update_blocks(
                    self@,
                    chain,
                    i as int,
                ),
                replayed(old(self)@) ==> replayed(self@),
            decreases chain.len() - i,
        {
            let block = blockchain[i].duplicate();
            proof {
                assert(blockchain@[i as int].deep_view() == chain[i as int]);
                assert(block@ == chain[i as int]);
            }
            let _ = self.add_block(block);
            i = i + 1;
        }
        true
    }
}


impl Node {
    /// Take up to ten top-fee pending transactions, all valid against the
    /// UTXO set; any invalid candidate met on the way is dropped from the
    /// mempool and the selection starts over. Only the mempool changes, and
    /// it only loses entries whose transaction fails validation.
    #[verifier::loop_isolation(false)]
    pub fn get_next_transactions(&mut self) -> (r: Vec<Transaction>)
        requires
            old(self).wf(),
        ensures
            final(self).wf(),
            final(self)@ == (NodeModel { mempool: final(self)@.mempool, ..old(self)@ }),
            forall|x: TwfModel|
                contains_item(final(self)@.mempool, x) ==> contains_item(old(self)@.mempool, x),
            forall|x: TwfModel|
                contains_item(old(self)@.mempool, x) && !contains_item(final(self)@.mempool, x)
                    ==> !spec_validate_tx(old(self)@.utxos, x.transaction),
            r@.len() == vstd::math::min(TX_PER_BLOCK as int, final(self)@.mempool.len() as int),
            forall|j: int|
                0 <= j < r@.len() ==> #[trigger] r.deep_view()[j]
                    == final(self)@.mempool[j].transaction,
            forall|j: int|
                0 <= j < r@.len() ==> spec_validate_tx(old(self)@.utxos, #[trigger] r.deep_view()[j]),
    {
        loop
            invariant
                self.wf(),
                self@ == (NodeModel { mempool: self@.mempool, ..old(self)@ }),
                forall|x: TwfModel|
                    contains_item(self@.mempool, x) ==> contains_item(old(self)@.mempool, x),
                forall|x: TwfModel|
                    contains_item(old(self)@.mempool, x) && !contains_item(self@.mempool, x)
                        ==> !spec_validate_tx(old(self)@.utxos, x.transaction),
            decreases self@.mempool.len(),
        {
            let ghost mem0 = self@.mempool;
            let txs = self.mempool.get_next_transactions();
            let ghost sel = txs.deep_view();
            proof {
                assert forall|j: int, k: int| 0 <= j < k < sel.len() implies sel[j] != sel[k] by {
                    assert(mem0[j].transaction != mem0[k].transaction);
                }
            }
            let mut all_valid = true;
            let mut i: usize = 0;
            while i < txs.len()
                invariant
                    i <= sel.len(),
                    txs.deep_view() == sel,
                    txs@.len() == sel.len(),
                    self.wf(),
                    self@ == (NodeModel { mempool: self@.mempool, ..old(self)@ }),
                    all_valid ==> self@.mempool == mem0,
                    !all_valid ==> self@.mempool.len() < mem0.len(),
                    all_valid ==> forall|j: int|
                        0 <= j < i ==> spec_validate_tx(old(self)@.utxos, #[trigger] sel[j]),
                    forall|j: int|
                        i <= j < sel.len() ==> crate::mempool::contains_tx(
                            self@.mempool,
                            #[trigger] sel[j],
                        ),
                    forall|x: TwfModel|
                        contains_item(self@.mempool, x) ==> contains_item(old(self)@.mempool, x),
                    forall|x: TwfModel|
                        contains_item(old(self)@.mempool, x) && !contains_item(self@.mempool, x)
                            ==> !spec_validate_tx(old(self)@.utxos, x.transaction),
                decreases sel.len() - i,
            {
                let tx = &txs[i];
                proof {
                    assert(txs@[i as int].deep_view() == sel[i as int]);
                }
                if !self.utxos.validate_transaction(tx) {
                    let ghost before = self@.mempool;
                    self.mempool.remove(tx);
                    all_valid = false;
                    proof {
                        lemma_remove_len(before, sel[i as int]);
                        lemma_remove_membership(before, sel[i as int]);
                        assert forall|j: int|
                            i + 1 <= j < sel.len() implies crate::mempool::contains_tx(
                            self@.mempool,
                            #[trigger] sel[j],
                        ) by {
                            crate::mempool::lemma_remove_keeps_other(
                                before,
                                sel[i as int],
                                sel[j],
                            );
                        }
                    }
                }
                i = i + 1;
            }
            if all_valid {
                return txs;
            }
        }
    }

    /// Assemble the next candidate block: the selected pending
    /// transactions, then a coinbase paying the node's own key the block
    /// reward, linked to the hash of the chain tip at the next height.
    pub fn get_next_block(&mut self) -> (r: Block)
        requires
            old(self).wf(),
            old(self)@.height < u64::MAX,
        ensures
            final(self).wf(),
            final(self)@ == (NodeModel { mempool: final(self)@.mempool, ..old(self)@ }),
            forall|x: TwfModel|
                contains_item(final(self)@.mempool, x) ==> contains_item(old(self)@.mempool, x),
            forall|x: TwfModel|
                contains_item(old(self)@.mempool, x) && !contains_item(final(self)@.mempool, x)
                    ==> !spec_validate_tx(old(self)@.utxos, x.transaction),
            r@.block_header.height == old(self)@.height + 1,
            r@.block_header.prev_hash == prev_hash_of(old(self)@),
            r@.block_header.difficulty == old(self)@.difficulty,
            r@.block_header.version == old(self)@.version,
            r@.block_header.merkle_root == merkle_root_of(r@.transactions),
            r@.transaction_count == r@.transactions.len(),
            r@.transactions.len() == 1 + vstd::math::min(
                TX_PER_BLOCK as int,
                final(self)@.mempool.len() as int,
            ),
            forall|j: int|
                0 <= j < r@.transactions.len() - 1 ==> #[trigger] r@.transactions[j]
                    == final(self)@.mempool[j].transaction && spec_validate_tx(
                    old(self)@.utxos,
                    r@.transactions[j],
                ),
            r@.transactions.last().input_count == 0,
            r@.transactions.last().inputs.len() == 0,
            r@.transactions.last().output_count == 1,
            r@.transactions.last().outputs.len() == 1,
            r@.transactions.last().outputs[0].value == old(self)@.reward,
            r@.transactions.last().outputs[0].script == p2pkh_output(
                pub_key_hash_of(old(self)@.user_pk),
            ),
    {
        let mut next_transactions = self.get_next_transactions();
        let ghost sel = next_transactions.deep_view();
        let coinbase = Transaction::reward(self.reward, self.user.get_pub_key(), self.version);
        let ghost cb = coinbase@;
        next_transactions.push(coinbase);
        proof {
            assert(next_transactions.deep_view() =~~= sel.push(cb));
        }
        let prev = self.get_prev_hash();
        let block = Block::new(
            next_transactions,
            prev,
            self.difficulty,
            self.version,
            self.height + 1,
        );
        proof {
            assert(block@.transactions == sel.push(cb));
            assert(block@.transactions.last() == cb);
            assert forall|j: int|
                0 <= j < block@.transactions.len() - 1 implies #[trigger] block@.transactions[j]
                == final(self)@.mempool[j].transaction && spec_validate_tx(
                old(self)@.utxos,
                block@.transactions[j],
            ) by {
                assert(block@.transactions[j] == sel[j]);
            }
        }
        block
    }

    /// Build a payment from the node's wallet at the given timestamp: pay
    /// each recipient, return the change to the node's own key, and sign
    /// every input. The result, when it comes, is exactly the signed payment
    /// over the greedy selection; it comes exactly when the total spend fits
    /// the machine, the wallet covers it, and the key signs every input.
    #[verifier::loop_isolation(false)]
    #[verifier::rlimit(60)]
    pub fn create_transaction(
        &self,
        recipients: Vec<crate::tx::Recipient>,
        fee: u64,
        timestamp: u64,
    ) -> (r: Option<Transaction>)
        requires
            self.wf(),
        ensures
            r is Some <==> spec_total_spend(recipients.deep_view(), fee) <= u64::MAX
                && entries_value(self@.wallet.utxos) > spec_total_spend(
                recipients.deep_view(),
                fee,
            ) && (forall|k: int|
                covers(self@.wallet.utxos, spec_total_spend(recipients.deep_view(), fee), k)
                    ==> payment_signable(
                    self@.user_sk,
                    timestamp,
                    self@.version,
                    self@.wallet.utxos.take(k),
                    spec_payment_recipients(self@, recipients.deep_view(), fee, k),
                )),
            r matches Some(tx) ==> exists|k: int|
                {
                    &&& #[trigger] covers(
                        self@.wallet.utxos,
                        spec_total_spend(recipients.deep_view(), fee),
                        k,
                    )
                    &&& tx@ == spec_payment(
                        self@.user_sk,
                        self@.user_pk,
                        timestamp,
                        self@.version,
                        self@.wallet.utxos.take(k),
                        spec_payment_recipients(self@, recipients.deep_view(), fee, k),
                    )
                },
    {
        let ghost recs = recipients.deep_view();
        let ghost w = self@.wallet.utxos;
        let mut total_spend: u64 = 0;
        let mut i: usize = 0;
        while i < recipients.len()
            invariant
                i <= recs.len(),
                total_spend as int == spec_amounts(recs.take(i as int)),
            decreases recs.len() - i,
        {
            let amount = recipients[i].amount;
            proof {
                assert(recs.take(i as int + 1).drop_last() =~~= recs.take(i as int));
                assert(recs.take(i as int + 1).last() == recs[i as int]);
                assert(recipients@[i as int].deep_view() == recs[i as int]);
            }
            if amount > u64::MAX - total_spend {
                proof {
                    lemma_spec_amounts_prefix(recs, i as int + 1);
                }
                return None;
            }
            total_spend = total_spend + amount;
            i = i + 1;
        }
        proof {
            assert(recs.take(recs.len() as int) =~~= recs);
        }
        if fee > u64::MAX - total_spend {
            return None;
        }
        total_spend = total_spend + fee;
        let ghost total = spec_total_spend(recs, fee);
        let selected = match self.wallet.get_inputs(total_spend) {
            Some(sel) => sel,
            None => {
                return None;
            },
        };
        let (inputs, excess) = selected;
        let ghost kx = inputs@.len() as int;
        proof {
            assert(covers(w, total, kx));
            assert(w.take(kx).drop_last() =~~= w.take(kx - 1));
            assert(w.take(kx).last() == w[kx - 1]);
            assert(entries_value(w.take(kx)) == entries_value(w.take(kx - 1))
                + w[kx - 1].output.value);
        }
        let change_wide = excess - (total_spend as u128);
        let change = change_wide as u64;
        let mut outputs = recipients;
        outputs.push(crate::tx::Recipient { pubkey: self.user.get_pub_key(), amount: change });
        proof {
            assert(outputs.deep_view() =~~= spec_payment_recipients(self@, recs, fee, kx));
        }
        let tx = Transaction::new(self.version, timestamp, &self.user, inputs, outputs);
        proof {
            let picked = spec_payment_recipients(self@, recs, fee, kx);
            if tx is Some {
                assert(covers(w, total, kx));
                assert forall|k: int| covers(w, total, k) implies payment_signable(
                    self@.user_sk,
                    timestamp,
                    self@.version,
                    w.take(k),
                    spec_payment_recipients(self@, recs, fee, k),
                ) by {
                    lemma_covers_unique(w, total, k, kx);
                }
            } else {
                assert(!payment_signable(self@.user_sk, timestamp, self@.version, w.take(kx), picked));
                if entries_value(w) > total && total <= u64::MAX && (forall|k: int|
                    covers(w, total, k) ==> payment_signable(
                        self@.user_sk,
                        timestamp,
                        self@.version,
                        w.take(k),
                        spec_payment_recipients(self@, recs, fee, k),
                    )) {
                    assert(payment_signable(self@.user_sk, timestamp, self@.version, w.take(kx), picked));
                }
            }
        }
        tx
    }
}

/// The full recipient list of a wallet payment that selects the first `k`
/// wallet entries: the named recipients, then the change — what the
/// selection carries beyond the total spend — back to the owner's key.
pub open spec fn spec_payment_recipients(
    n: NodeModel,
    recipients: Seq<crate::tx::RecipientModel>,
    fee: u64,
    k: int,
) -> Seq<crate::tx::RecipientModel> {
    recipients.push(
        crate::tx::RecipientModel {
            pubkey: n.user_pk,
            amount: (entries_value(n.wallet.utxos.take(k)) - spec_total_spend(recipients, fee)) as u64,
        },
    )
}

/// A prefix of the recipients asks for at most what the whole list asks.
proof fn lemma_spec_amounts_prefix(recs: Seq<crate::tx::RecipientModel>, k: int)
    requires
        0 <= k <= recs.len(),
    ensures
        spec_amounts(recs.take(k)) <= spec_amounts(recs),
    decreases recs.len(),
{
    if k == recs.len() {
        assert(recs.take(k) =~~= recs);
    } else if recs.len() > 0 {
        lemma_spec_amounts_prefix(recs.drop_last(), k);
        assert(recs.drop_last().take(k) =~~= recs.take(k));
    }
}

/// The sum the recipients are paid.
pub open spec fn spec_amounts(recs: Seq<crate::tx::RecipientModel>) -> int
    decreases recs.len(),
{
    if recs.len() == 0 {
        0
    } else {
        spec_amounts(recs.drop_last()) + recs.last().amount
    }
}

/// The total a payment spends: the recipients' amounts and the fee.
pub open spec fn spec_total_spend(recs: Seq<crate::tx::RecipientModel>, fee: u64) -> int {
    spec_amounts(recs) + fee
}



/// The stored form of a node: what the persisted state file holds, with the
/// keys hex-encoded and the wallet carried as its entries.
pub struct NodeParts {
    pub public_key_hex: Vec<u8>,
    pub private_key_hex: Vec<u8>,
    pub height: u64,
    pub version: u64,
    pub mempool: Vec<TransactionWithFee>,
    pub headers: Vec<BlockHeader>,
    pub block_chain: Vec<Block>,
    pub difficulty: u64,
    pub reward: u64,
    pub utxos: Vec<UtxoEntry>,
    pub wallet_pub_key_hash: Vec<u8>,
    pub wallet_utxos: Vec<UtxoEntry>,
}

/// The mathematical form of the stored node.
#[verifier::ext_equal]
pub struct PartsModel {
    pub public_key_hex: Seq<u8>,
    pub private_key_hex: Seq<u8>,
    pub height: u64,
    pub version: u64,
    pub mempool: Seq<TwfModel>,
    pub headers: Seq<HeaderModel>,
    pub block_chain: Seq<BlockModel>,
    pub difficulty: u64,
    pub reward: u64,
    pub utxos: Seq<UtxoEntryModel>,
    pub wallet_pub_key_hash: Seq<u8>,
    pub wallet_utxos: Seq<UtxoEntryModel>,
}

impl View for NodeParts {
    type V = PartsModel;

    open spec fn view(&self) -> PartsModel {
        PartsModel {
            public_key_hex: self.public_key_hex@,
            private_key_hex: self.private_key_hex@,
            height: self.height,
            version: self.version,
            mempool: self.mempool.deep_view(),
            headers: self.headers.deep_view(),
            block_chain: self.block_chain.deep_view(),
            difficulty: self.difficulty,
            reward: self.reward,
            utxos: self.utxos.deep_view(),
            wallet_pub_key_hash: self.wallet_pub_key_hash@,
            wallet_utxos: self.wallet_utxos.deep_view(),
        }
    }
}

/// The stored form of a node's state.
pub open spec fn spec_to_parts(n: NodeModel) -> PartsModel {
    PartsModel {
        public_key_hex: hex_of(n.user_pk),
        private_key_hex: hex_of(n.user_sk),
        height: n.height,
        version: n.version,
        mempool: n.mempool,
        headers: n.headers,
        block_chain: n.block_chain,
        difficulty: n.difficulty,
        reward: n.reward,
        utxos: n.utxos,
        wallet_pub_key_hash: n.wallet.pub_key_hash,
        wallet_utxos: n.wallet.utxos,
    }
}

/// Whether stored parts decode to a well-shaped node: the keys are hex, the
/// chain and the headers agree under the stored height, and the stored
/// wallet entries pay the stored key hash with no repeated outpoint.
pub open spec fn parts_ok(p: PartsModel) -> bool {
    &&& is_hex(p.public_key_hex)
    &&& is_hex(p.private_key_hex)
    &&& p.headers.len() == p.height
    &&& p.block_chain.len() == p.height
    &&& forall|i: int| 0 <= i < p.height ==> #[trigger] p.headers[i] == p.block_chain[i].block_header
    &&& forall|i: int|
        0 <= i < p.height ==> (#[trigger] p.block_chain[i]).block_header.height == i + 1
    &&& forall|i: int|
        0 <= i < p.wallet_utxos.len() ==> (#[trigger] p.wallet_utxos[i]).output.script
            == p2pkh_output(p.wallet_pub_key_hash)
    &&& forall|i: int, j: int|
        0 <= i < j < p.wallet_utxos.len() ==> !((#[trigger] p.wallet_utxos[i]).tx_hash == (
        #[trigger] p.wallet_utxos[j]).tx_hash && p.wallet_utxos[i].index == p.wallet_utxos[j].index)
}

/// The node that stored parts rebuild: the keys decoded, the mempool
/// re-added item by item, and the wallet value recomputed from its entries.
pub open spec fn spec_from_parts(p: PartsModel) -> NodeModel {
    NodeModel {
        user_pk: unhex(p.public_key_hex),
        user_sk: unhex(p.private_key_hex),
        height: p.height,
        version: p.version,
        mempool: crate::mempool::spec_push_all(Seq::empty(), p.mempool, 0),
        headers: p.headers,
        block_chain: p.block_chain,
        difficulty: p.difficulty,
        reward: p.reward,
        utxos: p.utxos,
        wallet: WalletModel {
            pub_key: unhex(p.public_key_hex),
            pub_key_hash: p.wallet_pub_key_hash,
            value: entries_value(p.wallet_utxos) as u128,
            utxos: p.wallet_utxos,
        },
    }
}

impl Node {
    /// The stored form of the node, for persistence.
    pub fn to_parts(&self) -> (r: NodeParts)
        ensures
            r@ == spec_to_parts(self@),
    {
        let r = NodeParts {
            public_key_hex: hex_encode(self.user.public_key.as_slice()),
            private_key_hex: hex_encode(self.user.private_key.as_slice()),
            height: self.height,
            version: self.version,
            mempool: self.mempool.to_vec(),
            headers: clone_headers(&self.headers),
            block_chain: clone_blocks(&self.block_chain),
            difficulty: self.difficulty,
            reward: self.reward,
            utxos: self.utxos.duplicate().entries,
            wallet_pub_key_hash: clone_bytes(&self.wallet.pub_key_hash),
            wallet_utxos: self.wallet.duplicate().utxos,
        };
        proof {
            assert(r@ =~~= spec_to_parts(self@));
        }
        r
    }

    /// Rebuild a node from its stored form; `None` exactly when the parts
    /// do not decode to a well-shaped node.
    #[verifier::loop_isolation(false)]
    pub fn from_parts(parts: NodeParts) -> (r: Option<Node>)
        ensures
            r is Some <==> parts_ok(parts@),
            r matches Some(n) ==> n@ == spec_from_parts(parts@) && n.wf(),
    {
        let ghost p = parts@;
        let pk = match hex_decode(parts.public_key_hex.as_slice()) {
            Some(b) => b,
            None => {
                return None;
            },
        };
        let sk = match hex_decode(parts.private_key_hex.as_slice()) {
            Some(b) => b,
            None => {
                return None;
            },
        };
        if parts.headers.len() != parts.block_chain.len() {
            return None;
        }
        if (parts.block_chain.len() as u64) != parts.height {
            return None;
        }
        let mut i: usize = 0;
        while i < parts.block_chain.len()
            invariant
                i <= p.block_chain.len(),
                forall|k: int|
                    0 <= k < i ==> #[trigger] p.headers[k] == p.block_chain[k].block_header,
                forall|k: int|
                    0 <= k < i ==> (#[trigger] p.block_chain[k]).block_header.height == k + 1,
            decreases p.block_chain.len() - i,
        {
            proof {
                assert(parts.headers@[i as int].deep_view() == p.headers[i as int]);
                assert(parts.block_chain@[i as int].deep_view() == p.block_chain[i as int]);
            }
            if !header_eq(&parts.headers[i], &parts.block_chain[i].block_header) {
                return None;
            }
            if i as u64 > u64::MAX - 1 || parts.block_chain[i].block_header.height != (i as u64)
                + 1 {
                return None;
            }
            i = i + 1;
        }
        let lock = Script::P2PKHOutput(clone_bytes(&parts.wallet_pub_key_hash));
        let mut value: u128 = 0;
        let mut j: usize = 0;
        while j < parts.wallet_utxos.len()
            invariant
                j <= p.wallet_utxos.len(),
                lock@ == p2pkh_output(p.wallet_pub_key_hash),
                forall|k: int|
                    0 <= k < j ==> (#[trigger] p.wallet_utxos[k]).output.script == p2pkh_output(
                        p.wallet_pub_key_hash,
                    ),
                forall|a: int, b: int|
                    0 <= a < b < j ==> !((#[trigger] p.wallet_utxos[a]).tx_hash == (
                    #[trigger] p.wallet_utxos[b]).tx_hash && p.wallet_utxos[a].index
                        == p.wallet_utxos[b].index),
                value as int == entries_value(p.wallet_utxos.take(j as int)),
            decreases p.wallet_utxos.len() - j,
        {
            let e = &parts.wallet_utxos[j];
            proof {
                assert(parts.wallet_utxos@[j as int].deep_view() == p.wallet_utxos[j as int]);
            }
            if !script_eq(&e.output.script, &lock) {
                return None;
            }
            let mut k: usize = 0;
            while k < j
                invariant
                    k <= j,
                    j < p.wallet_utxos.len(),
                    forall|a: int|
                        0 <= a < k ==> !((#[trigger] p.wallet_utxos[a]).tx_hash
                            == p.wallet_utxos[j as int].tx_hash && p.wallet_utxos[a].index
                            == p.wallet_utxos[j as int].index),
                decreases j - k,
            {
                let other = &parts.wallet_utxos[k];
                proof {
                    assert(parts.wallet_utxos@[k as int].deep_view() == p.wallet_utxos[k as int]);
                }
                if bytes_eq(&other.tx_hash, &e.tx_hash) && other.index == e.index {
                    return None;
                }
                k = k + 1;
            }
            proof {
                lemma_entries_value_bound(p.wallet_utxos.take(j as int));
                assert(value + (e.output.value as u128) <= u128::MAX) by (nonlinear_arith)
                    requires
                        value as int <= (j as int) * (u64::MAX as int),
                        j as int <= u64::MAX as int,
                        e.output.value <= u64::MAX,
                ;
                assert(p.wallet_utxos.take(j as int + 1).drop_last() =~~= p.wallet_utxos.take(
                    j as int,
                ));
                assert(p.wallet_utxos.take(j as int + 1).last() == p.wallet_utxos[j as int]);
            }
            value = value + (e.output.value as u128);
            j = j + 1;
        }
        proof {
            assert(p.wallet_utxos.take(p.wallet_utxos.len() as int) =~~= p.wallet_utxos);
        }
        let wallet = Wallet {
            pub_key: crate::crypto::clone_bytes(&pk),
            pub_key_hash: parts.wallet_pub_key_hash,
            value,
            utxos: parts.wallet_utxos,
        };
        let node = Node {
            user: User { public_key: pk, private_key: sk },
            height: parts.height,
            version: parts.version,
            mempool: Mempool::from_vec(parts.mempool),
            headers: parts.headers,
            block_chain: parts.block_chain,
            difficulty: parts.difficulty,
            reward: parts.reward,
            utxos: UTXOS { entries: parts.utxos },
            wallet,
        };
        proof {
            lemma_entries_value_bound(p.wallet_utxos);
            assert(value == entries_value(p.wallet_utxos) as u128);
            assert(node@ =~~= spec_from_parts(p));
            assert(parts_ok(p));
            assert(node_wf(node@));
        }
        Some(node)
    }
}

/// Storing a well-shaped node and rebuilding it from the stored parts
/// restores it exactly: the keys round-trip through their hex form, the
/// mempool is rebuilt in its own fee order, and the wallet value is
/// recomputed to the sum it already was.
pub proof fn lemma_node_round_trip(n: NodeModel)
    requires
        node_wf(n),
    ensures
        parts_ok(spec_to_parts(n)),
        spec_from_parts(spec_to_parts(n)) == n,
{
    lemma_unhex_hex_of(n.user_pk);
    lemma_unhex_hex_of(n.user_sk);
    crate::mempool::lemma_pool_round_trip(n.mempool);
    assert(n.mempool.take(0) =~~= Seq::<TwfModel>::empty());
    assert(crate::mempool::spec_push_all(Seq::empty(), n.mempool, 0) == n.mempool);
    assert(n.wallet.value == entries_value(n.wallet.utxos) as u128);
    assert(spec_from_parts(spec_to_parts(n)) =~~= n);
}


/// The shape conjuncts of the chain: the blocks and the headers share the
/// node's height as their length, agree at every index, and carry one-based
/// heights.
pub open spec fn chain_shape(n: NodeModel) -> bool {
    &&& n.block_chain.len() == n.height
    &&& n.headers.len() == n.height
    &&& forall|i: int| 0 <= i < n.height ==> #[trigger] n.headers[i] == n.block_chain[i].block_header
    &&& forall|i: int|
        0 <= i < n.height ==> (#[trigger] n.block_chain[i]).block_header.height == i + 1
}

/// One block application keeps the chain shape: whether the block is
/// refused or accepted, the chain and the headers agree at every index and
/// have the node's height as their common length.
pub proof fn lemma_chain_shape_step(n: NodeModel, b: BlockModel)
    requires
        chain_shape(n),
    ensures
        chain_shape(spec_add_block(n, b)),
{
    if add_block_ok(n, b) {
        let m = spec_add_block(n, b);
        assert forall|i: int|
            0 <= i < m.height implies #[trigger] m.headers[i] == m.block_chain[i].block_header
            && m.block_chain[i].block_header.height == i + 1 by {
            if i < n.height {
                assert(m.headers[i] == n.headers[i]);
                assert(m.block_chain[i] == n.block_chain[i]);
            } else {
                assert(m.block_chain[i] == b);
            }
        }
    }
}

/// Any sequence of block applications keeps the chain shape.
pub proof fn lemma_chain_shape_sequence(n: NodeModel, chain: Seq<BlockModel>, from: int)
    requires
        chain_shape(n),
        0 <= from,
    ensures
        chain_shape(spec_update_blocks(n, chain, from)),
    decreases chain.len() - from,
{
    if from < chain.len() {
        lemma_chain_shape_step(n, chain[from]);
        lemma_chain_shape_sequence(spec_add_block(n, chain[from]), chain, from + 1);
    }
}

} // verus!
