use nodeprot::hash::Hash256;
use nodeprot::server::{NodeResponder, NodeServer};
use nodeprot::vocab::{Block, NodeError, NodeRequest, NodeResponse, Substate, Tx};

fn h(n: u64) -> Hash256 {
    Hash256 { w0: 0, w1: 0, w2: 0, w3: n }
}

/// A single-block chain that answers every query from fixed data.
struct MockServer {
    height: u64,
    block: Block,
    reject_tx: bool,
}

fn mock() -> MockServer {
    MockServer {
        height: 10,
        block: Block {
            header: vec![1, 2, 3],
            transactions: vec![
                Tx { hash_nosigs: h(1), body: b"a".to_vec() },
                Tx { hash_nosigs: h(2), body: b"b".to_vec() },
                Tx { hash_nosigs: h(3), body: b"c".to_vec() },
            ],
        },
        reject_tx: false,
    }
}

impl NodeServer for MockServer {
    fn send_tx(&self, _tx: Vec<u8>) -> Result<(), NodeError> {
        if self.reject_tx {
            Err(NodeError::Validation)
        } else {
            Ok(())
        }
    }

    fn get_summary(&self) -> Result<Vec<u8>, NodeError> {
        Ok(b"summary".to_vec())
    }

    fn get_abbr_block(&self, height: u64) -> Result<Vec<u8>, NodeError> {
        if height > self.height {
            Err(NodeError::NotFound)
        } else {
            Ok(vec![height as u8, 0xab])
        }
    }

    fn get_state(&self, height: u64) -> Result<Block, NodeError> {
        if height > self.height {
            Err(NodeError::NotFound)
        } else {
            Ok(self.block.clone())
        }
    }

    fn get_smt_branch(
        &self,
        height: u64,
        _elem: Substate,
        key: Hash256,
    ) -> Result<Vec<u8>, NodeError> {
        if height > self.height {
            Err(NodeError::NotFound)
        } else {
            Ok(vec![height as u8, key.w3 as u8])
        }
    }

    fn get_stakers_raw(&self, height: u64) -> Result<Vec<u8>, NodeError> {
        if height > self.height {
            Err(NodeError::NotFound)
        } else {
            Ok(vec![0x57])
        }
    }
}

#[test]
fn send_tx_success_is_empty_response() {
    let r = NodeResponder::new(mock());
    assert_eq!(r.respond(NodeRequest::SendTx(vec![1, 2])), Ok(NodeResponse::Empty));
}

#[test]
fn send_tx_failure_propagates_verbatim() {
    let mut m = mock();
    m.reject_tx = true;
    let r = NodeResponder::new(m);
    assert_eq!(r.respond(NodeRequest::SendTx(vec![1, 2])), Err(NodeError::Validation));
}

#[test]
fn read_queries_return_capability_payloads() {
    let r = NodeResponder::new(mock());
    assert_eq!(
        r.respond(NodeRequest::GetSummary),
        Ok(NodeResponse::Raw(b"summary".to_vec()))
    );
    assert_eq!(
        r.respond(NodeRequest::GetAbbrBlock(4)),
        Ok(NodeResponse::Raw(vec![4, 0xab]))
    );
    assert_eq!(
        r.respond(NodeRequest::GetSmtBranch(4, Substate::Coins, h(9))),
        Ok(NodeResponse::Raw(vec![4, 9]))
    );
    assert_eq!(
        r.respond(NodeRequest::GetStakersRaw(4)),
        Ok(NodeResponse::Raw(vec![0x57]))
    );
}

#[test]
fn heights_beyond_chain_are_not_found() {
    // Beyond the current height the answer is NotFound, never a default.
    let r = NodeResponder::new(mock());
    assert_eq!(r.respond(NodeRequest::GetAbbrBlock(11)), Err(NodeError::NotFound));
    assert_eq!(
        r.respond(NodeRequest::GetPartialBlock(11, vec![h(1)])),
        Err(NodeError::NotFound)
    );
    assert_eq!(r.respond(NodeRequest::GetStakersRaw(11)), Err(NodeError::NotFound));
    assert_eq!(
        r.respond(NodeRequest::GetSmtBranch(11, Substate::Stakes, h(1))),
        Err(NodeError::NotFound)
    );
}

/// A capability whose backend is gone; every read fails.
struct DownServer;

impl NodeServer for DownServer {
    fn send_tx(&self, _tx: Vec<u8>) -> Result<(), NodeError> {
        Err(NodeError::Backend)
    }

    fn get_summary(&self) -> Result<Vec<u8>, NodeError> {
        Err(NodeError::Backend)
    }

    fn get_abbr_block(&self, _height: u64) -> Result<Vec<u8>, NodeError> {
        Err(NodeError::Backend)
    }

    fn get_state(&self, _height: u64) -> Result<Block, NodeError> {
        Err(NodeError::Backend)
    }

    fn get_smt_branch(
        &self,
        _height: u64,
        _elem: Substate,
        _key: Hash256,
    ) -> Result<Vec<u8>, NodeError> {
        Err(NodeError::Backend)
    }

    fn get_stakers_raw(&self, _height: u64) -> Result<Vec<u8>, NodeError> {
        Err(NodeError::Backend)
    }
}

#[test]
fn backend_failures_propagate_verbatim() {
    let r = NodeResponder::new(DownServer);
    assert_eq!(r.respond(NodeRequest::GetSummary), Err(NodeError::Backend));
    assert_eq!(
        r.respond(NodeRequest::GetPartialBlock(1, vec![h(1)])),
        Err(NodeError::Backend)
    );
}

#[test]
fn partial_block_through_responder() {
    let r = NodeResponder::new(mock());
    let resp = r.respond(NodeRequest::GetPartialBlock(10, vec![h(3), h(1), h(42)]));
    match resp {
        Ok(NodeResponse::PartialBlock(pb)) => {
            assert_eq!(pb.header, vec![1, 2, 3]);
            let kept: Vec<Hash256> = pb.transactions.iter().map(|t| t.hash_nosigs).collect();
            assert_eq!(kept, vec![h(1), h(3)]);
            assert_eq!(pb.transactions[0].body, b"a".to_vec());
        }
        other => panic!("unexpected response: {:?}", other),
    }
}
