use vstd::prelude::*;

use crate::filter::{filter_txs, partial_block};
use crate::hash::Hash256;
use crate::vocab::{Block, NodeError, NodeRequest, NodeResponse, Substate};

verus! {

/// The abstract capability a concrete node supplies to answer protocol
/// requests.  The spec functions describe the chain snapshot the value
/// stands for: the current height, the block at each height, and the
/// serialized payloads of the simple read queries.  An implementation may
/// fail any call for its own reasons (a pruned store, a lost backend), so
/// success is never owed; but what an answer may be, and that a height
/// beyond the current one is `NotFound`, is fixed here.
pub trait NodeServer: Sized {
    /// Height of the highest block the node currently has.  Verified
    /// implementations give this and the other description functions their
    /// own definitions; the defaults leave the snapshot unconstrained, so
    /// an unverified implementation need not mention them.
    open spec fn chain_height(&self) -> u64 {
        arbitrary()
    }

    /// The full block at `height`, for heights up to `chain_height`.
    open spec fn block_at(&self, height: u64) -> Block {
        arbitrary()
    }

    /// Serialized chain summary.
    open spec fn summary(&self) -> Seq<u8> {
        arbitrary()
    }

    /// Serialized abbreviated block (header and transaction hashes) with
    /// its consensus proof, at `height`.
    open spec fn abbr_block(&self, height: u64) -> Seq<u8> {
        arbitrary()
    }

    /// Serialized raw value and compressed merkle proof for `key` in the
    /// `elem` partition of state at `height`.
    open spec fn smt_branch(&self, height: u64, elem: Substate, key: Hash256) -> Seq<u8> {
        arbitrary()
    }

    /// Serialized staker set at `height`.
    open spec fn stakers(&self, height: u64) -> Seq<u8> {
        arbitrary()
    }

    /// Submits a serialized transaction for admission and broadcast.  The
    /// outcome depends on the network, so nothing is promised of it; a
    /// failure must not leave a partial effect behind.
    fn send_tx(&self, tx: Vec<u8>) -> (r: Result<(), NodeError>);

    fn get_summary(&self) -> (r: Result<Vec<u8>, NodeError>)
        ensures
            r matches Ok(b) ==> b@ == self.summary(),
    ;

    fn get_abbr_block(&self, height: u64) -> (r: Result<Vec<u8>, NodeError>)
        ensures
            height > self.chain_height() ==> r === Err(NodeError::NotFound),
            r matches Ok(b) ==> height <= self.chain_height() && b@ == self.abbr_block(height),
    ;

    /// The full materialized block at a height; the responder builds
    /// partial blocks from it.
    fn get_state(&self, height: u64) -> (r: Result<Block, NodeError>)
        ensures
            height > self.chain_height() ==> r === Err(NodeError::NotFound),
            r matches Ok(b) ==> height <= self.chain_height() && b == self.block_at(height),
    ;

    fn get_smt_branch(&self, height: u64, elem: Substate, key: Hash256) -> (r: Result<
        Vec<u8>,
        NodeError,
    >)
        ensures
            height > self.chain_height() ==> r === Err(NodeError::NotFound),
            r matches Ok(b) ==> height <= self.chain_height() && b@ == self.smt_branch(
                height,
                elem,
                key,
            ),
    ;

    fn get_stakers_raw(&self, height: u64) -> (r: Result<Vec<u8>, NodeError>)
        ensures
            height > self.chain_height() ==> r === Err(NodeError::NotFound),
            r matches Ok(b) ==> height <= self.chain_height() && b@ == self.stakers(height),
    ;
}

/// What `respond` answers: the pure mapping from a request and the
/// server's snapshot to the response, given that the dispatched capability
/// call succeeded.  Partial blocks hold exactly the transactions of the
/// block at that height whose signature-stripped hash was requested, in
/// block order.
pub open spec fn spec_response<S: NodeServer>(server: S, req: NodeRequest, resp: NodeResponse) -> bool {
    match req {
        NodeRequest::SendTx(_) => resp == NodeResponse::Empty,
        NodeRequest::GetSummary => resp matches NodeResponse::Raw(b) && b@ == server.summary(),
        NodeRequest::GetAbbrBlock(h) => resp matches NodeResponse::Raw(b) && b@
            == server.abbr_block(h),
        NodeRequest::GetSmtBranch(h, elem, key) => resp matches NodeResponse::Raw(b) && b@
            == server.smt_branch(h, elem, key),
        NodeRequest::GetStakersRaw(h) => resp matches NodeResponse::Raw(b) && b@ == server.stakers(
            h,
        ),
        NodeRequest::GetPartialBlock(h, hashes) => resp matches NodeResponse::PartialBlock(pb)
            && pb.header@ == server.block_at(h).header@ && pb.transactions@ == filter_txs(
            server.block_at(h).transactions@,
            hashes@,
        ),
    }
}

/// Whether a request reads state at a height, and at which.
pub open spec fn spec_request_height(req: NodeRequest) -> Option<u64> {
    match req {
        NodeRequest::SendTx(_) => None,
        NodeRequest::GetSummary => None,
        NodeRequest::GetAbbrBlock(h) => Some(h),
        NodeRequest::GetSmtBranch(h, _, _) => Some(h),
        NodeRequest::GetStakersRaw(h) => Some(h),
        NodeRequest::GetPartialBlock(h, _) => Some(h),
    }
}

/// Binds one capability implementation to the wire protocol: receives a
/// decoded request, dispatches it, and builds the response.  The transport
/// shell around it decodes requests, serializes what `respond` hands back,
/// and runs the blocking capability calls off the network executor.
pub struct NodeResponder<S: NodeServer> {
    server: S,
}

impl<S: NodeServer> NodeResponder<S> {
    /// The capability this responder answers from.
    pub closed spec fn spec_server(&self) -> S {
        self.server
    }

    /// Creates a responder from something that implements `NodeServer`.
    pub fn new(server: S) -> (r: Self)
        ensures
            r.spec_server() == server,
    {
        NodeResponder { server }
    }

    /// Answers one request.  Dispatch is exhaustive over the request
    /// vocabulary; a capability failure is propagated, never swallowed,
    /// and a height beyond the chain's current height is `NotFound`.
    pub fn respond(&self, req: NodeRequest) -> (r: Result<NodeResponse, NodeError>)
        ensures
            r matches Ok(resp) ==> spec_response(self.spec_server(), req, resp),
            spec_request_height(req) matches Some(h) && h > self.spec_server().chain_height()
                ==> r === Err(NodeError::NotFound),
    {
        match req {
            NodeRequest::SendTx(tx) => {
                match self.server.send_tx(tx) {
                    Ok(_) => Ok(NodeResponse::Empty),
                    Err(e) => Err(e),
                }
            },
            NodeRequest::GetSummary => {
                match self.server.get_summary() {
                    Ok(b) => Ok(NodeResponse::Raw(b)),
                    Err(e) => Err(e),
                }
            },
            NodeRequest::GetAbbrBlock(height) => {
                match self.server.get_abbr_block(height) {
                    Ok(b) => Ok(NodeResponse::Raw(b)),
                    Err(e) => Err(e),
                }
            },
            NodeRequest::GetSmtBranch(height, elem, key) => {
                match self.server.get_smt_branch(height, elem, key) {
                    Ok(b) => Ok(NodeResponse::Raw(b)),
                    Err(e) => Err(e),
                }
            },
            NodeRequest::GetStakersRaw(height) => {
                match self.server.get_stakers_raw(height) {
                    Ok(b) => Ok(NodeResponse::Raw(b)),
                    Err(e) => Err(e),
                }
            },
            NodeRequest::GetPartialBlock(height, hashes) => {
                match self.server.get_state(height) {
                    Ok(block) => Ok(NodeResponse::PartialBlock(partial_block(block, &hashes))),
                    Err(e) => Err(e),
                }
            },
        }
    }
}

} // verus!
