use vstd::prelude::*;

use crate::hash::Hash256;

verus! {

/// Identifier of a logical network; the trust store is partitioned by it.
/// `spec_byte` gives the one-byte wire and storage form of each variant.
#[derive(Clone, Copy, PartialEq, Eq, Structural, Debug)]
pub enum NetId {
    Testnet,
    Custom02,
    Custom03,
    Custom04,
    Custom05,
    Custom06,
    Custom07,
    Custom08,
    Mainnet,
}

impl NetId {
    /// The one-byte identifier of the network.
    pub open spec fn spec_byte(self) -> u8 {
        match self {
            NetId::Testnet => 1,
            NetId::Custom02 => 2,
            NetId::Custom03 => 3,
            NetId::Custom04 => 4,
            NetId::Custom05 => 5,
            NetId::Custom06 => 6,
            NetId::Custom07 => 7,
            NetId::Custom08 => 8,
            NetId::Mainnet => 255,
        }
    }

    pub fn byte(self) -> (r: u8)
        ensures
            r == self.spec_byte(),
    {
        match self {
            NetId::Testnet => 1,
            NetId::Custom02 => 2,
            NetId::Custom03 => 3,
            NetId::Custom04 => 4,
            NetId::Custom05 => 5,
            NetId::Custom06 => 6,
            NetId::Custom07 => 7,
            NetId::Custom08 => 8,
            NetId::Mainnet => 255,
        }
    }
}

/// Names the merkle partition of node state that a branch request addresses.
#[derive(Clone, Copy, PartialEq, Eq, Structural, Debug)]
pub enum Substate {
    History,
    Coins,
    Transactions,
    Pools,
    Stakes,
}

/// One full transaction of a block, addressed by its signature-stripped
/// hash.  `body` carries the transaction's serialized form unchanged; the
/// filtering logic reads only `hash_nosigs`.
#[derive(Clone, PartialEq, Eq, Debug)]
pub struct Tx {
    pub hash_nosigs: Hash256,
    pub body: Vec<u8>,
}

/// The signature-stripped hash of the transaction that `bytes` encode:
/// the chain state machine's digest, a function of the bytes alone.
/// `None` exactly where the bytes do not decode to a transaction.
pub uninterp spec fn nosigs_digest_of(bytes: Seq<u8>) -> Option<Hash256>;

/// Relies on `stdcode::deserialize` and `Transaction::hash_nosigs` of the
/// chain state machine: decodes the transaction and takes its
/// signature-stripped hash, a digest of the bytes alone.
#[verifier::external_body]
fn nosigs_digest(bytes: &Vec<u8>) -> (r: Option<Hash256>)
    ensures
        r == nosigs_digest_of(bytes@),
{
    let tx: themelio_stf::Transaction = match stdcode::deserialize(bytes) {
        Ok(tx) => tx,
        Err(_) => return None,
    };
    let h = tx.hash_nosigs().0 .0;
    Some(Hash256 {
        w0: u64::from_be_bytes(h[0..8].try_into().unwrap()),
        w1: u64::from_be_bytes(h[8..16].try_into().unwrap()),
        w2: u64::from_be_bytes(h[16..24].try_into().unwrap()),
        w3: u64::from_be_bytes(h[24..32].try_into().unwrap()),
    })
}

/// The model transaction for a serialized one: the bytes kept verbatim as
/// its body, beside the signature-stripped hash the chain state machine
/// gives them.  `None` exactly where the bytes are not a transaction.
pub fn tx_from_bytes(bytes: Vec<u8>) -> (r: Option<Tx>)
    ensures
        match r {
            Some(tx) => nosigs_digest_of(bytes@) == Some(tx.hash_nosigs) && tx.body@ == bytes@,
            None => nosigs_digest_of(bytes@) is None,
        },
{
    match nosigs_digest(&bytes) {
        Some(h) => Some(Tx { hash_nosigs: h, body: bytes }),
        None => None,
    }
}

/// A block: an opaque serialized header section plus the ordered sequence
/// of its full transactions.
#[derive(Clone, PartialEq, Eq, Debug)]
pub struct Block {
    pub header: Vec<u8>,
    pub transactions: Vec<Tx>,
}

/// The closed request vocabulary of the protocol.  Heights are plain block
/// heights; `SendTx` carries a serialized transaction.
#[derive(Clone, PartialEq, Eq, Debug)]
pub enum NodeRequest {
    SendTx(Vec<u8>),
    GetSummary,
    GetAbbrBlock(u64),
    GetSmtBranch(u64, Substate, Hash256),
    GetStakersRaw(u64),
    GetPartialBlock(u64, Vec<Hash256>),
}

/// A successful answer.  `Empty` answers `SendTx`; `Raw` carries an
/// already-serialized payload from the capability; `PartialBlock` carries
/// the filtered block, whose serialization is the transport's task.
#[derive(Clone, PartialEq, Eq, Debug)]
pub enum NodeResponse {
    Empty,
    Raw(Vec<u8>),
    PartialBlock(Block),
}

/// A failed answer from the capability, propagated verbatim.
#[derive(Clone, Copy, PartialEq, Eq, Structural, Debug)]
pub enum NodeError {
    /// The requested height or key does not exist in current state.
    NotFound,
    /// A submitted transaction was rejected as invalid.
    Validation,
    /// The capability failed for another reason.
    Backend,
}

} // verus!
