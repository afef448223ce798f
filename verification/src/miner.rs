//! Blocks and block headers, their canonical serialization and identity
//! hash, the merkle-root reduction, the difficulty predicate, and the
//! single nonce-search step that mining threads race on.

use vstd::prelude::*;
use vstd::string::StringSliceAdditionalSpecFns;
use crate::crypto::{sha256_of, lossy_clean, lossy_bytes, clone_bytes};
use crate::ser::{ser_u64, ser_items, ser_list, ser_byte_list, lemma_ser_items_push, push_u64,
    push_byte_list, push_chunk};
use crate::tx::{Transaction, TxModel, ser_tx, push_tx};

pub use crate::crypto::get_timestamp;
pub use crate::crypto::sha256;

verus! {

/// An enum of the commands the mining coordinator reacts to.
pub enum MiningCommand {
    Stop,
    UpdateBlock,
}

/// Relies on `rand::rng` and `rand::RngCore::fill_bytes`: 16 random bytes,
/// of which nothing is stated but the length.
#[verifier::external_body]
fn random_nonce() -> (r: Vec<u8>)
    ensures
        r@.len() == 16,
{
    let mut nonce = [0u8; 16];
    rand::RngCore::fill_bytes(&mut rand::rng(), &mut nonce);
    nonce.to_vec()
}

/// A block header.
pub struct BlockHeader {
    pub prev_hash: Vec<u8>,
    pub merkle_root: Vec<u8>,
    pub timestamp: u64,
    pub difficulty: u64,
    pub nonce: Vec<u8>,
    pub version: u64,
    pub height: u64,
}

/// The mathematical form of a block header.
#[verifier::ext_equal]
pub struct HeaderModel {
    pub prev_hash: Seq<u8>,
    pub merkle_root: Seq<u8>,
    pub timestamp: u64,
    pub difficulty: u64,
    pub nonce: Seq<u8>,
    pub version: u64,
    pub height: u64,
}

impl View for BlockHeader {
    type V = HeaderModel;

    open spec fn view(&self) -> HeaderModel {
        HeaderModel {
            prev_hash: self.prev_hash@,
            merkle_root: self.merkle_root@,
            timestamp: self.timestamp,
            difficulty: self.difficulty,
            nonce: self.nonce@,
            version: self.version,
            height: self.height,
        }
    }
}

impl DeepView for BlockHeader {
    type V = HeaderModel;

    open spec fn deep_view(&self) -> HeaderModel {
        self.view()
    }
}

/// A block: a header and the transactions it contains.
pub struct Block {
    pub block_header: BlockHeader,
    pub transactions: Vec<Transaction>,
    pub transaction_count: u64,
}

/// The mathematical form of a block.
#[verifier::ext_equal]
pub struct BlockModel {
    pub block_header: HeaderModel,
    pub transactions: Seq<TxModel>,
    pub transaction_count: u64,
}

impl View for Block {
    type V = BlockModel;

    open spec fn view(&self) -> BlockModel {
        BlockModel {
            block_header: self.block_header@,
            transactions: self.transactions.deep_view(),
            transaction_count: self.transaction_count,
        }
    }
}

impl DeepView for Block {
    type V = BlockModel;

    open spec fn deep_view(&self) -> BlockModel {
        self.view()
    }
}

/// The serialized form of a block header.
#[verifier::opaque]
pub open spec fn ser_header(h: HeaderModel) -> Seq<u8> {
    "{\"prev_hash\":".spec_bytes() + ser_byte_list(h.prev_hash) + ",\"merkle_root\":".spec_bytes()
        + ser_byte_list(h.merkle_root) + ",\"timestamp\":".spec_bytes() + ser_u64(
        h.timestamp as int,
    ) + ",\"difficulty\":".spec_bytes() + ser_u64(h.difficulty as int) + ",\"nonce\":".spec_bytes()
        + ser_byte_list(h.nonce) + ",\"version\":".spec_bytes() + ser_u64(h.version as int)
        + ",\"height\":".spec_bytes() + ser_u64(h.height as int) + "}".spec_bytes()
}

/// The canonical serialized form of a block.
#[verifier::opaque]
pub open spec fn ser_block(b: BlockModel) -> Seq<u8> {
    "{\"block_header\":".spec_bytes() + ser_header(b.block_header)
        + ",\"transactions\":".spec_bytes() + ser_list(b.transactions, |t: TxModel| ser_tx(t))
        + ",\"transaction_count\":".spec_bytes() + ser_u64(b.transaction_count as int)
        + "}".spec_bytes()
}

/// The identity of a block: the digest of its canonical serialized form.
pub open spec fn block_hash(b: BlockModel) -> Seq<u8> {
    sha256_of(ser_block(b))
}

/// Whether a hash meets a difficulty target: it opens with `target` bytes
/// that read as the character zero. This is the string-prefix test of the
/// mining rule, stated over the digest bytes: a leading zero character of
/// the lossy string form is exactly a leading 0x30 byte.
pub open spec fn spec_meets_difficulty(hash: Seq<u8>, target: u64) -> bool {
    &&& target <= hash.len()
    &&& forall|i: int| 0 <= i < target ==> hash[i] == 0x30
}

/// One reduction level of the merkle tree: hash each pair of neighbours,
/// doubling the last item when their number is odd, and keep the lossy
/// string form of each digest.
pub open spec fn merkle_pair(t: Seq<Seq<u8>>, i: int) -> Seq<u8> {
    if 2 * i + 1 < t.len() {
        t[2 * i] + t[2 * i + 1]
    } else {
        t[2 * i] + t[2 * i]
    }
}

/// The next level of the merkle reduction.
pub open spec fn merkle_level(t: Seq<Seq<u8>>) -> Seq<Seq<u8>> {
    Seq::new(((t.len() + 1) / 2) as nat, |i: int| lossy_clean(sha256_of(merkle_pair(t, i))))
}

/// The merkle root of a sequence of serialized transactions.
pub open spec fn merkle_of(t: Seq<Seq<u8>>) -> Seq<u8>
    decreases t.len(),
{
    if t.len() == 0 {
        sha256_of("0000".spec_bytes())
    } else if t.len() == 1 {
        sha256_of(t[0] + t[0])
    } else if t.len() == 2 {
        sha256_of(t[0] + t[1])
    } else {
        merkle_of(merkle_level(t))
    }
}

/// The merkle root of a block's transactions.
pub open spec fn merkle_root_of(txs: Seq<TxModel>) -> Seq<u8> {
    merkle_of(Seq::new(txs.len(), |i: int| ser_tx(txs[i])))
}

/// Append the serialized form of a block header.
pub fn push_header(buf: &mut Vec<u8>, h: &BlockHeader)
    ensures
        final(buf)@ == old(buf)@ + ser_header(h@),
{
    push_chunk(buf, "{\"prev_hash\":");
    push_byte_list(buf, h.prev_hash.as_slice());
    push_chunk(buf, ",\"merkle_root\":");
    push_byte_list(buf, h.merkle_root.as_slice());
    push_chunk(buf, ",\"timestamp\":");
    push_u64(buf, h.timestamp);
    push_chunk(buf, ",\"difficulty\":");
    push_u64(buf, h.difficulty);
    push_chunk(buf, ",\"nonce\":");
    push_byte_list(buf, h.nonce.as_slice());
    push_chunk(buf, ",\"version\":");
    push_u64(buf, h.version);
    push_chunk(buf, ",\"height\":");
    push_u64(buf, h.height);
    push_chunk(buf, "}");
    proof {
        reveal(ser_header);
        assert(buf@ =~~= old(buf)@ + ser_header(h@));
    }
}

/// Append the serialized list of a block's transactions.
#[verifier::loop_isolation(false)]
#[verifier::rlimit(100)]
pub fn push_txs(buf: &mut Vec<u8>, txs: &Vec<Transaction>)
    ensures
        final(buf)@ == old(buf)@ + ser_list(txs.deep_view(), |t: TxModel| ser_tx(t)),
{
    push_chunk(buf, "[");
    let ghost start = buf@;
    let ghost f = |t: TxModel| ser_tx(t);
    let mut i: usize = 0;
    while i < txs.len()
        invariant
            i <= txs@.len(),
            buf@ == start + ser_items(txs.deep_view().take(i as int), f),
        decreases txs@.len() - i,
    {
        if i > 0 {
            push_chunk(buf, ",");
        }
        push_tx(buf, &txs[i]);
        i = i + 1;
        proof {
            let prev = txs.deep_view().take(i - 1);
            assert(prev.push(txs.deep_view()[i - 1]) =~~= txs.deep_view().take(i as int));
            lemma_ser_items_push(prev, f, txs.deep_view()[i - 1]);
            assert(buf@ =~~= start + ser_items(txs.deep_view().take(i as int), f));
        }
    }
    proof {
        assert(txs.deep_view().take(txs@.len() as int) =~~= txs.deep_view());
    }
    push_chunk(buf, "]");
    proof {
        assert(buf@ =~~= old(buf)@ + ser_list(txs.deep_view(), f));
    }
}

/// Append the serialized form of a block.
#[verifier::rlimit(100)]
pub fn push_block(buf: &mut Vec<u8>, b: &Block)
    ensures
        final(buf)@ == old(buf)@ + ser_block(b@),
{
    push_chunk(buf, "{\"block_header\":");
    push_header(buf, &b.block_header);
    push_chunk(buf, ",\"transactions\":");
    push_txs(buf, &b.transactions);
    push_chunk(buf, ",\"transaction_count\":");
    push_u64(buf, b.transaction_count);
    push_chunk(buf, "}");
    proof {
        reveal(ser_block);
        assert(buf@ =~~= old(buf)@ + ser_block(b@));
    }
}

/// Copy a vector of transactions.
#[verifier::loop_isolation(false)]
pub fn clone_transactions(v: &Vec<Transaction>) -> (r: Vec<Transaction>)
    ensures
        r.deep_view() == v.deep_view(),
{
    let mut out: Vec<Transaction> = Vec::new();
    let mut i: usize = 0;
    while i < v.len()
        invariant
            i <= v@.len(),
            out@.len() == i,
            out.deep_view() == v.deep_view().take(i as int),
        decreases v@.len() - i,
    {
        out.push(v[i].duplicate());
        i = i + 1;
        proof {
            assert(out.deep_view() =~~= v.deep_view().take(i as int));
        }
    }
    proof {
        assert(v.deep_view().take(v@.len() as int) =~~= v.deep_view());
    }
    out
}

impl BlockHeader {
    /// A fresh header at the given height, timestamped now, with a zero
    /// nonce.
    pub fn new(prev_hash: Vec<u8>, merkle_root: Vec<u8>, version: u64, difficulty: u64,
        height: u64) -> (r: BlockHeader)
        ensures
            r@.prev_hash == prev_hash@,
            r@.merkle_root == merkle_root@,
            r@.difficulty == difficulty,
            r@.version == version,
            r@.height == height,
            r@.nonce == Seq::new(16, |i: int| 0u8),
    {
        let mut nonce: Vec<u8> = Vec::new();
        let mut i: usize = 0;
        while i < 16
            invariant
                i <= 16,
                nonce@.len() == i,
                forall|j: int| 0 <= j < i ==> nonce@[j] == 0,
            decreases 16 - i,
        {
            nonce.push(0);
            i = i + 1;
        }
        proof {
            assert(nonce@ =~~= Seq::new(16, |i: int| 0u8));
        }
        BlockHeader {
            prev_hash,
            merkle_root,
            timestamp: crate::crypto::get_timestamp(),
            difficulty,
            nonce,
            version,
            height,
        }
    }

    /// Copy a block header.
    pub fn duplicate(&self) -> (r: BlockHeader)
        ensures
            r@ == self@,
    {
        let r = BlockHeader {
            prev_hash: clone_bytes(&self.prev_hash),
            merkle_root: clone_bytes(&self.merkle_root),
            timestamp: self.timestamp,
            difficulty: self.difficulty,
            nonce: clone_bytes(&self.nonce),
            version: self.version,
            height: self.height,
        };
        proof {
            assert(r@ =~~= self@);
        }
        r
    }

    /// The canonical serialized form, as UTF-8 bytes.
    pub fn serialize(&self) -> (r: Vec<u8>)
        ensures
            r@ == ser_header(self@),
    {
        let mut buf: Vec<u8> = Vec::new();
        push_header(&mut buf, self);
        proof {
            assert(buf@ =~~= ser_header(self@));
        }
        buf
    }
}

impl Block {
    /// Assemble a block over the given transactions.
    pub fn new(transactions: Vec<Transaction>, prev_hash: Vec<u8>, difficulty: u64, version: u64,
        height: u64) -> (r: Block)
        requires
            transactions@.len() <= u64::MAX,
        ensures
            r@.transactions == transactions.deep_view(),
            r@.transaction_count == transactions@.len(),
            r@.block_header.prev_hash == prev_hash@,
            r@.block_header.merkle_root == merkle_root_of(transactions.deep_view()),
            r@.block_header.difficulty == difficulty,
            r@.block_header.version == version,
            r@.block_header.height == height,
            r@.block_header.nonce == Seq::new(16, |i: int| 0u8),
    {
        let merkle_root = Block::get_merkle_root(&transactions);
        let transaction_count = transactions.len() as u64;
        Block {
            block_header: BlockHeader::new(prev_hash, merkle_root, version, difficulty, height),
            transactions,
            transaction_count,
        }
    }

    /// Copy a block.
    pub fn duplicate(&self) -> (r: Block)
        ensures
            r@ == self@,
    {
        let r = Block {
            block_header: self.block_header.duplicate(),
            transactions: clone_transactions(&self.transactions),
            transaction_count: self.transaction_count,
        };
        proof {
            assert(r@ =~~= self@);
        }
        r
    }

    /// The merkle root over the serialized transactions.
    #[verifier::loop_isolation(false)]
    pub fn get_merkle_root(transactions: &Vec<Transaction>) -> (r: Vec<u8>)
        ensures
            r@ == merkle_root_of(transactions.deep_view()),
    {
        let mut level: Vec<Vec<u8>> = Vec::new();
        let mut i: usize = 0;
        while i < transactions.len()
            invariant
                i <= transactions@.len(),
                level@.len() == i,
                forall|j: int|
                    0 <= j < i ==> #[trigger] level.deep_view()[j] == ser_tx(
                        transactions.deep_view()[j],
                    ),
            decreases transactions@.len() - i,
        {
            let ghost before = level.deep_view();
            level.push(transactions[i].serialize());
            i = i + 1;
            proof {
                assert forall|j: int|
                    0 <= j < i implies #[trigger] level.deep_view()[j] == ser_tx(
                    transactions.deep_view()[j],
                ) by {
                    if j < i - 1 {
                        assert(level.deep_view()[j] == before[j]);
                    }
                }
            }
        }
        proof {
            assert(level.deep_view() =~~= Seq::new(
                transactions.deep_view().len(),
                |i: int| ser_tx(transactions.deep_view()[i]),
            ));
        }
        Block::rec_merkle_root(level)
    }

    /// Reduce the levels of the merkle tree to the root digest.
    #[verifier::loop_isolation(false)]
    pub fn rec_merkle_root(transactions: Vec<Vec<u8>>) -> (r: Vec<u8>)
        ensures
            r@ == merkle_of(transactions.deep_view()),
        decreases transactions@.len(),
    {
        let n = transactions.len();
        if n == 0 {
            let mut buf: Vec<u8> = Vec::new();
            push_chunk(&mut buf, "0000");
            proof {
                assert(buf@ =~~= "0000".spec_bytes());
            }
            sha256(buf.as_slice())
        } else if n == 1 {
            let mut message = clone_bytes(&transactions[0]);
            let mut other = clone_bytes(&transactions[0]);
            message.append(&mut other);
            proof {
                assert(message@ =~~= transactions.deep_view()[0] + transactions.deep_view()[0]);
            }
            sha256(message.as_slice())
        } else if n == 2 {
            let mut message = clone_bytes(&transactions[0]);
            let mut other = clone_bytes(&transactions[1]);
            message.append(&mut other);
            proof {
                assert(message@ =~~= transactions.deep_view()[0] + transactions.deep_view()[1]);
            }
            sha256(message.as_slice())
        } else {
            let ghost t = transactions.deep_view();
            let mut stack: Vec<Vec<u8>> = Vec::new();
            let half = n / 2 + n % 2;
            proof {
                assert(half == (n + 1) as int / 2);
            }
            let mut i: usize = 0;
            while i < half
                invariant
                    i <= half,
                    half == (transactions@.len() + 1) / 2,
                    transactions@.len() > 2,
                    stack@.len() == i,
                    forall|j: int|
                        0 <= j < i ==> #[trigger] stack.deep_view()[j] == lossy_clean(
                            sha256_of(merkle_pair(t, j)),
                        ),
                decreases half - i,
            {
                let mut message = clone_bytes(&transactions[2 * i]);
                let mut other = if 2 * i + 1 < n {
                    clone_bytes(&transactions[2 * i + 1])
                } else {
                    clone_bytes(&transactions[2 * i])
                };
                message.append(&mut other);
                proof {
                    assert(message@ =~~= merkle_pair(t, i as int));
                }
                let digest = sha256(message.as_slice());
                let item = lossy_bytes(digest.as_slice());
                let ghost before = stack.deep_view();
                stack.push(item);
                i = i + 1;
                proof {
                    assert forall|j: int|
                        0 <= j < i implies #[trigger] stack.deep_view()[j] == lossy_clean(
                        sha256_of(merkle_pair(t, j)),
                    ) by {
                        if j < i - 1 {
                            assert(stack.deep_view()[j] == before[j]);
                        }
                    }
                }
            }
            proof {
                assert(stack.deep_view() =~~= merkle_level(t));
                assert(merkle_level(t).len() < t.len());
            }
            Block::rec_merkle_root(stack)
        }
    }

    /// The canonical serialized form, as UTF-8 bytes.
    pub fn serialize(&self) -> (r: Vec<u8>)
        ensures
            r@ == ser_block(self@),
    {
        let mut buf: Vec<u8> = Vec::new();
        push_block(&mut buf, self);
        proof {
            assert(buf@ =~~= ser_block(self@));
        }
        buf
    }

    /// The block's identity: the digest of its serialized form.
    pub fn calculate_hash(&self) -> (r: Vec<u8>)
        ensures
            r@ == block_hash(self@),
            r@.len() == 32,
    {
        let ser = self.serialize();
        sha256(ser.as_slice())
    }

    /// Whether a hash meets the difficulty target.
    #[verifier::loop_isolation(false)]
    pub fn meets_difficulty(&self, hash: &Vec<u8>, target: u64) -> (r: bool)
        ensures
            r == spec_meets_difficulty(hash@, target),
    {
        if (hash.len() as u64) < target {
            return false;
        }
        let bound = target as usize;
        let mut i: usize = 0;
        while i < bound
            invariant
                bound == target,
                target <= hash@.len(),
                i <= bound,
                forall|j: int| 0 <= j < i ==> hash@[j] == 0x30,
            decreases bound - i,
        {
            if hash[i] != 0x30 {
                return false;
            }
            i = i + 1;
        }
        true
    }

    /// Set the header nonce.
    pub fn update_nonce(&mut self, nonce: Vec<u8>)
        ensures
            final(self)@ == (BlockModel {
                block_header: HeaderModel { nonce: nonce@, ..old(self)@.block_header },
                ..old(self)@
            }),
    {
        self.block_header.nonce = nonce;
    }

    /// One step of the nonce search: draw a random nonce, install it, and
    /// say whether the block's hash now meets its own difficulty target.
    /// The mining threads run this step until one succeeds or is stopped.
    pub fn mine_step(&mut self) -> (r: bool)
        ensures
            final(self)@ == (BlockModel {
                block_header: HeaderModel {
                    nonce: final(self)@.block_header.nonce,
                    ..old(self)@.block_header
                },
                ..old(self)@
            }),
            r == spec_meets_difficulty(
                block_hash(final(self)@),
                final(self)@.block_header.difficulty,
            ),
    {
        let nonce = random_nonce();
        self.update_nonce(nonce);
        let hash = self.calculate_hash();
        let target = self.block_header.difficulty;
        self.meets_difficulty(&hash, target)
    }
}


/// Whether two headers are the same.
pub fn header_eq(a: &BlockHeader, b: &BlockHeader) -> (r: bool)
    ensures
        r == (a@ == b@),
{
    let same = crate::script::bytes_eq(&a.prev_hash, &b.prev_hash) && crate::script::bytes_eq(
        &a.merkle_root,
        &b.merkle_root,
    ) && a.timestamp == b.timestamp && a.difficulty == b.difficulty && crate::script::bytes_eq(
        &a.nonce,
        &b.nonce,
    ) && a.version == b.version && a.height == b.height;
    if same {
        proof {
            assert(a@ =~~= b@);
        }
        true
    } else {
        false
    }
}

/// Copy a vector of block headers.
#[verifier::loop_isolation(false)]
pub fn clone_headers(v: &Vec<BlockHeader>) -> (r: Vec<BlockHeader>)
    ensures
        r.deep_view() == v.deep_view(),
{
    let mut out: Vec<BlockHeader> = Vec::new();
    let mut i: usize = 0;
    while i < v.len()
        invariant
            i <= v@.len(),
            out@.len() == i,
            out.deep_view() == v.deep_view().take(i as int),
        decreases v@.len() - i,
    {
        out.push(v[i].duplicate());
        i = i + 1;
        proof {
            assert(out.deep_view() =~~= v.deep_view().take(i as int));
        }
    }
    proof {
        assert(v.deep_view().take(v@.len() as int) =~~= v.deep_view());
    }
    out
}

/// Copy a vector of blocks.
#[verifier::loop_isolation(false)]
pub fn clone_blocks(v: &Vec<Block>) -> (r: Vec<Block>)
    ensures
        r.deep_view() == v.deep_view(),
{
    let mut out: Vec<Block> = Vec::new();
    let mut i: usize = 0;
    while i < v.len()
        invariant
            i <= v@.len(),
            out@.len() == i,
            out.deep_view() == v.deep_view().take(i as int),
        decreases v@.len() - i,
    {
        out.push(v[i].duplicate());
        i = i + 1;
        proof {
            assert(out.deep_view() =~~= v.deep_view().take(i as int));
        }
    }
    proof {
        assert(v.deep_view().take(v@.len() as int) =~~= v.deep_view());
    }
    out
}

} // verus!
