//! The peer-protocol messages and the connection-level event and response
//! types the network router works over. Peer addresses travel in their text
//! form.

use vstd::prelude::*;
use crate::tx::Transaction;
use crate::miner::{Block, BlockHeader};
use crate::mempool::TransactionWithFee;

verus! {

/// The first handshake message: which side speaks, at what version and
/// height.
pub struct Verack {
    pub index: u64,
    pub version: u64,
    pub height: u64,
}

impl Verack {
    /// Assemble a handshake message.
    pub fn new(index: u64, version: u64, height: u64) -> (r: Verack)
        ensures
            r.index == index,
            r.version == version,
            r.height == height,
    {
        Verack { index, version, height }
    }
}

/// A freshly mined or relayed block.
pub struct NewBlock {
    pub block: Block,
}

impl NewBlock {
    /// Wrap a block for relay.
    pub fn new(block: Block) -> (r: NewBlock)
        ensures
            r.block@ == block@,
    {
        NewBlock { block }
    }
}

/// A request for the peer's pending transactions.
pub struct GetInv;

impl GetInv {
    /// Assemble the request.
    pub fn new() -> (r: GetInv) {
        GetInv {  }
    }
}

/// The peer's pending transactions.
pub struct Inv {
    pub mempool: Vec<Transaction>,
}

impl Inv {
    /// Wrap pending transactions for relay.
    pub fn new(mempool: Vec<Transaction>) -> (r: Inv)
        ensures
            r.mempool.deep_view() == mempool.deep_view(),
    {
        Inv { mempool }
    }
}

/// A request for block headers from a height on.
pub struct GetHeaders {
    pub start_height: u64,
}

impl GetHeaders {
    /// Assemble the request.
    pub fn new(start_height: u64) -> (r: GetHeaders)
        ensures
            r.start_height == start_height,
    {
        GetHeaders { start_height }
    }
}

/// Block headers from a height on.
pub struct Headers {
    pub start_height: u64,
    pub headers: Vec<BlockHeader>,
}

impl Headers {
    /// Wrap headers for relay.
    pub fn new(start_height: u64, headers: Vec<BlockHeader>) -> (r: Headers)
        ensures
            r.start_height == start_height,
            r.headers.deep_view() == headers.deep_view(),
    {
        Headers { start_height, headers }
    }
}

/// A request for the addresses of the peer's peers.
pub struct GetPeerAddrs;

/// Socket addresses of known peers, in text form.
pub struct PeerAddrs {
    pub addresses: Vec<String>,
}

impl PeerAddrs {
    /// Wrap addresses for relay.
    pub fn new(addresses: Vec<String>) -> (r: PeerAddrs)
        ensures
            r.addresses.deep_view() == addresses.deep_view(),
    {
        PeerAddrs { addresses }
    }
}

/// A liveness probe.
pub struct Ping;

/// The answer to a liveness probe.
pub struct Pong;

/// A request for every block from a height on.
pub struct GetBlocks {
    pub start_height: u64,
}

impl GetBlocks {
    /// Assemble the request.
    pub fn new(start_height: u64) -> (r: GetBlocks)
        ensures
            r.start_height == start_height,
    {
        GetBlocks { start_height }
    }
}

/// A run of consecutive blocks from a height on.
pub struct Blocks {
    pub start_height: u64,
    pub blockchain: Vec<Block>,
}

impl Blocks {
    /// Wrap a run of blocks for relay.
    pub fn new(start_height: u64, blockchain: Vec<Block>) -> (r: Blocks)
        ensures
            r.start_height == start_height,
            r.blockchain.deep_view() == blockchain.deep_view(),
    {
        Blocks { start_height, blockchain }
    }
}

/// A message of the peer protocol.
pub enum NetMessage {
    NewBlock(NewBlock),
    GetBlocks(GetBlocks),
    Blocks(Blocks),
    Verack(Verack),
    Transaction(Transaction),
    GetInv(GetInv),
    Inv(Inv),
    GetPeerAddrs(GetPeerAddrs),
    PeerAddrs(PeerAddrs),
    Ping(Ping),
    Pong(Pong),
}

/// A command handed to the network task by consensus or supervision.
pub enum NetworkCommand {
    Block(Block),
    Transaction(Transaction),
    Connect(String),
}

/// What a connection reports to the router.
pub enum ConnectionEventType {
    Close,
    Message(String),
}

/// A connection event, tagged with the peer it came from.
pub struct ConnectionEvent {
    pub peer: String,
    pub connection_event_type: ConnectionEventType,
}

impl ConnectionEvent {
    /// The event of a peer's connection closing.
    pub fn close(peer: String) -> (r: ConnectionEvent)
        ensures
            r.peer@ == peer@,
            r.connection_event_type is Close,
    {
        ConnectionEvent { peer, connection_event_type: ConnectionEventType::Close }
    }

    /// The event of a frame arriving from a peer.
    pub fn message(peer: String, message: String) -> (r: ConnectionEvent)
        ensures
            r.peer@ == peer@,
            r.connection_event_type matches ConnectionEventType::Message(m) && m@ == message@,
    {
        ConnectionEvent { peer, connection_event_type: ConnectionEventType::Message(message) }
    }
}

/// What the router asks a peer's writer to do.
pub enum ConnectionResponseType {
    Close,
    Send(String),
}

/// A response bound for one peer's writer task.
pub struct ConnectionResponse {
    pub connection_response_type: ConnectionResponseType,
}

impl ConnectionResponse {
    /// Ask the writer to close the connection.
    pub fn close() -> (r: ConnectionResponse)
        ensures
            r.connection_response_type is Close,
    {
        ConnectionResponse { connection_response_type: ConnectionResponseType::Close }
    }

    /// Ask the writer to send a frame.
    pub fn send(string: String) -> (r: ConnectionResponse)
        ensures
            r.connection_response_type matches ConnectionResponseType::Send(s) && s@ == string@,
    {
        ConnectionResponse { connection_response_type: ConnectionResponseType::Send(string) }
    }
}

} // verus!
