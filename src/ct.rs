//! Certificate Transparency data: the binary Merkle tree leaf format
//! (RFC 6962, section 3.4) and the records of the log-list and log-server
//! JSON APIs.

use vstd::prelude::*;

verus! {

/// Why a Merkle tree leaf could not be decoded.
#[derive(Clone, Copy, Debug, PartialEq, Eq, Structural)]
pub enum DecodeError {
    /// The input was too small to be a merkle tree leaf.
    InputTooSmall,
    /// The input is not a well-formed merkle tree leaf.
    InvalidMerkleLeaf,
    /// The text is not valid base64.
    InvalidBase64,
}

/// An ASN.1 certificate, `opaque ASN.1Cert<1..2^24-1>`.
#[derive(Clone, Debug)]
pub enum Cert {
    X509(Vec<u8>),
    PreCert(Vec<u8>),
}

impl View for Cert {
    /// Whether it is a precertificate, and its bytes.
    type V = (bool, Seq<u8>);

    open spec fn view(&self) -> (bool, Seq<u8>) {
        match self {
            Cert::X509(d) => (false, d@),
            Cert::PreCert(d) => (true, d@),
        }
    }
}

/// The one kind of leaf entry that protocol version 1 defines.
#[derive(Debug)]
pub enum MerkleTreeLeafEntry {
    TimestampedEntry {
        timestamp: u64,
        entry: Cert,
        /// Future extensions to this protocol version (v1).
        /// Currently there are none.
        extensions: u16,
    },
}

impl View for MerkleTreeLeafEntry {
    /// Timestamp, certificate, extensions.
    type V = (u64, (bool, Seq<u8>), u16);

    open spec fn view(&self) -> (u64, (bool, Seq<u8>), u16) {
        match self {
            MerkleTreeLeafEntry::TimestampedEntry { timestamp, entry, extensions } => (
                *timestamp,
                entry@,
                *extensions,
            ),
        }
    }
}

/// The protocol version of a leaf.
#[derive(Clone, Copy, Debug, PartialEq, Eq, Structural)]
pub enum Version {
    V1,
}

/// A decoded Merkle tree leaf.
#[derive(Debug)]
pub struct MerkleTreeLeaf {
    pub version: Version,
    pub leaf: MerkleTreeLeafEntry,
}

/// The unsigned number that the bytes spell, most significant first.
pub open spec fn be_value(s: Seq<u8>) -> nat
    decreases s.len(),
{
    if s.len() == 0 {
        0
    } else {
        be_value(s.drop_last()) * 256 + s.last() as nat
    }
}

/// 256 to the power `n`.
pub open spec fn pow256(n: nat) -> nat
    decreases n,
{
    if n == 0 {
        1
    } else {
        256 * pow256((n - 1) as nat)
    }
}

/// The decoded form of a timestamped leaf entry: 8 bytes of timestamp, a
/// 2-byte entry type, then for an X.509 entry a 3-byte length and that many
/// certificate bytes, and for a precertificate entry everything up to the
/// last 2 bytes; the last 2 bytes of the input are the extensions.
pub open spec fn spec_entry(buf: Seq<u8>) -> Result<(u64, (bool, Seq<u8>), u16), DecodeError> {
    if buf.len() < 13 {
        Err(DecodeError::InputTooSmall)
    } else {
        let n = buf.len() as int;
        let timestamp = be_value(buf.subrange(0, 8)) as u64;
        let entry_type = be_value(buf.subrange(8, 10));
        let extensions = be_value(buf.subrange(n - 2, n)) as u16;
        if entry_type == 0 {
            let cert_len = be_value(buf.subrange(10, 13)) as int;
            if 13 + cert_len <= n {
                Ok((timestamp, (false, buf.subrange(13, 13 + cert_len)), extensions))
            } else {
                Err(DecodeError::InvalidMerkleLeaf)
            }
        } else if entry_type == 1 {
            Ok((timestamp, (true, buf.subrange(10, n - 2)), extensions))
        } else {
            Err(DecodeError::InvalidMerkleLeaf)
        }
    }
}

/// The decoded form of a leaf: a version byte (only 0, version 1, is
/// known), a leaf-type byte (only 0, a timestamped entry, is known), then
/// the entry.
pub open spec fn spec_leaf(buf: Seq<u8>) -> Result<(u64, (bool, Seq<u8>), u16), DecodeError> {
    if buf.len() < 2 {
        Err(DecodeError::InputTooSmall)
    } else if buf[1] != 0 {
        Err(DecodeError::InvalidMerkleLeaf)
    } else {
        match spec_entry(buf.skip(2)) {
            Err(e) => Err(e),
            Ok(entry) => if buf[0] != 0 {
                Err(DecodeError::InvalidMerkleLeaf)
            } else {
                Ok(entry)
            },
        }
    }
}

proof fn lemma_be_bound(s: Seq<u8>)
    ensures
        be_value(s) < pow256(s.len()),
    decreases s.len(),
{
    if s.len() > 0 {
        let init = s.drop_last();
        lemma_be_bound(init);
        let a = be_value(init);
        let p = pow256(init.len());
        let b = s.last() as nat;
        assert(a * 256 + b < 256 * p) by (nonlinear_arith)
            requires
                a < p,
                b < 256,
        ;
    }
}

proof fn lemma_pow256_grows(i: nat, j: nat)
    requires
        i <= j,
    ensures
        pow256(i) <= pow256(j),
    decreases j - i,
{
    if i < j {
        lemma_pow256_grows(i, (j - 1) as nat);
    }
}

/// Reads `count` bytes from `start` as a big-endian number.
fn read_be(buf: &[u8], start: usize, count: usize) -> (r: u64)
    requires
        count <= 8,
        start + count <= buf@.len(),
    ensures
        r == be_value(buf@.subrange(start as int, start + count)),
{
    proof {
        reveal_with_fuel(pow256, 9);
        assert(pow256(8) == 0x1_0000_0000_0000_0000);
    }
    let n = buf.len();
    let mut acc: u64 = 0;
    let mut i: usize = 0;
    while i < count
        invariant
            n == buf@.len(),
            count <= 8,
            start + count <= buf@.len(),
            i <= count,
            acc == be_value(buf@.subrange(start as int, start + i)),
            pow256(8) == 0x1_0000_0000_0000_0000,
        decreases count - i,
    {
        let ghost prev = buf@.subrange(start as int, start + i);
        let ghost next = buf@.subrange(start as int, start + i + 1);
        proof {
            assert(next.drop_last() =~= prev);
            lemma_be_bound(next);
            lemma_pow256_grows((i + 1) as nat, 8);
            assert(next.len() == i + 1);
            assert(next.last() == buf@[start + i]);
            assert(be_value(next) == be_value(prev) * 256 + buf@[start + i] as nat);
            assert(acc * 256 + buf@[start + i] < 0x1_0000_0000_0000_0000);
            assert(acc * 256 < 0x1_0000_0000_0000_0000);
        }
        acc = acc * 256 + buf[start + i] as u64;
        i += 1;
    }
    acc
}

impl MerkleTreeLeafEntry {
    /// Decodes a timestamped entry, as `spec_entry` describes.
    pub fn timestamped_entry_from_slice(buf: &[u8]) -> (r: Result<MerkleTreeLeafEntry, DecodeError>)
        ensures
            match r {
                Ok(e) => spec_entry(buf@) == Ok::<_, DecodeError>(e@),
                Err(x) => spec_entry(buf@) == Err::<(u64, (bool, Seq<u8>), u16), _>(x),
            },
    {
        let n = buf.len();
        if n < 13 {
            return Err(DecodeError::InputTooSmall);
        }
        let timestamp = read_be(buf, 0, 8);
        let entry_type = read_be(buf, 8, 2);
        let entry = if entry_type == 0 {
            let cert_len = read_be(buf, 10, 3) as usize;
            proof {
                lemma_be_bound(buf@.subrange(10, 13));
                reveal_with_fuel(pow256, 4);
            }
            if cert_len > n - 13 {
                return Err(DecodeError::InvalidMerkleLeaf);
            }
            Cert::X509(vstd::slice::slice_to_vec(vstd::slice::slice_subrange(buf, 13, 13 + cert_len)))
        } else if entry_type == 1 {
            Cert::PreCert(vstd::slice::slice_to_vec(vstd::slice::slice_subrange(buf, 10, n - 2)))
        } else {
            return Err(DecodeError::InvalidMerkleLeaf);
        };
        let extensions = read_be(buf, n - 2, 2);
        proof {
            lemma_be_bound(buf@.subrange(n - 2, n as int));
            reveal_with_fuel(pow256, 3);
        }
        let extensions = extensions as u16;
        Ok(MerkleTreeLeafEntry::TimestampedEntry { timestamp, entry, extensions })
    }
}

impl MerkleTreeLeaf {
    /// Decodes a leaf, as `spec_leaf` describes.
    pub fn from_slice(buf: &[u8]) -> (r: Result<MerkleTreeLeaf, DecodeError>)
        ensures
            match r {
                Ok(leaf) => spec_leaf(buf@) == Ok::<_, DecodeError>(leaf.leaf@) && leaf.version == Version::V1,
                Err(x) => spec_leaf(buf@) == Err::<(u64, (bool, Seq<u8>), u16), _>(x),
            },
    {
        if buf.len() < 2 {
            return Err(DecodeError::InputTooSmall);
        }
        let version = buf[0];
        let leaf_type = buf[1];
        if leaf_type != 0 {
            return Err(DecodeError::InvalidMerkleLeaf);
        }
        let rest = vstd::slice::slice_subrange(buf, 2, buf.len());
        assert(rest@ =~= buf@.skip(2));
        let leaf = match MerkleTreeLeafEntry::timestamped_entry_from_slice(rest) {
            Ok(leaf) => leaf,
            Err(e) => return Err(e),
        };
        if version != 0 {
            return Err(DecodeError::InvalidMerkleLeaf);
        }
        Ok(MerkleTreeLeaf { version: Version::V1, leaf })
    }
}

/// What `base64::decode` makes of a text: its bytes, or `None` when the text
/// is not standard, padded base64.
pub uninterp spec fn base64_decoded(s: Seq<char>) -> Option<Seq<u8>>;

/// Relies on `base64::decode` (standard alphabet, padded): it decodes the
/// text, and its result depends on the text alone.
#[verifier::external_body]
fn decode_base64(text: &str) -> (r: Option<Vec<u8>>)
    ensures
        match r {
            Some(bytes) => base64_decoded(text@) == Some(bytes@),
            None => base64_decoded(text@) is None,
        },
{
    base64::decode(text).ok()
}

impl MerkleTreeLeaf {
    /// Decodes a leaf given as base64 text, the form in which the log
    /// servers' JSON carries it.
    pub fn from_base64(text: &str) -> (r: Result<MerkleTreeLeaf, DecodeError>)
        ensures
            match base64_decoded(text@) {
                None => r == Err::<MerkleTreeLeaf, _>(DecodeError::InvalidBase64),
                Some(bytes) => match r {
                    Ok(leaf) => spec_leaf(bytes) == Ok::<_, DecodeError>(leaf.leaf@),
                    Err(x) => spec_leaf(bytes) == Err::<(u64, (bool, Seq<u8>), u16), _>(x),
                },
            },
    {
        match decode_base64(text) {
            None => Err(DecodeError::InvalidBase64),
            Some(bytes) => MerkleTreeLeaf::from_slice(bytes.as_slice()),
        }
    }
}

/// A list of log entries, as `get-entries` returns it.
#[derive(Debug)]
pub struct EntryList {
    pub entries: Vec<Entry>,
}

/// One log entry.
#[derive(Debug)]
pub struct Entry {
    pub leaf_input: MerkleTreeLeaf,
    pub extra_data: String,
}

/// The signature over a tree head (its content is not decoded).
#[derive(Clone, Debug)]
pub struct TreeHeadSignature {}

/// A signed tree head, as `get-sth` returns it.
#[derive(Clone, Debug)]
pub struct SignedTreeHead {
    /// The size of the tree, in entries, in decimal
    pub tree_size: u64,
    /// The timestamp, in decimal
    pub timestamp: u64,
    /// The Merkle Tree Hash of the tree, in base64
    pub sha256_root_hash: String,
    /// A TreeHeadSignature for the above data
    pub tree_head_signature: String,
}

/// A point in time, in UTC: seconds since the Unix epoch and the
/// nanoseconds past that second.
#[derive(Clone, Copy, Debug, PartialEq, Eq, Structural)]
pub struct Timestamp {
    pub seconds: i64,
    pub nanos: u32,
}

/// The list of known logs, grouped by operator.
#[derive(Clone, Debug)]
pub struct LogList {
    pub operators: Vec<Operator>,
}

/// A log operator.
#[derive(Clone, Debug)]
pub struct Operator {
    /// Name of this log operator
    pub name: String,
    /// CT log operator email addresses
    pub email: Vec<String>,
    /// Details of Certificate Transparency logs run by this operator
    pub logs: Vec<Log>,
}

/// The expiry window of the certificates that a log accepts.
#[derive(Clone, Copy, Debug, PartialEq, Eq, Structural)]
pub struct TemporalInterval {
    /// All certificates must expire on this date or later
    pub start_inclusive: Timestamp,
    /// All certificates must expire before this date
    pub end_exclusive: Timestamp,
}

/// The purpose of a log.
#[derive(Clone, Copy, Debug, PartialEq, Eq, Structural)]
pub enum LogType {
    Prod,
    Test,
}

/// The tree head at which a log was frozen.
#[derive(Clone, Debug)]
pub struct FinalTreeHead {
    pub tree_size: u64,
    pub sha256_root_hash: String,
}

/// The state of a log from the log list distributor's perspective, with the
/// time at which the log entered it.
#[derive(Clone, Debug)]
pub enum State {
    Pending { timestamp: Timestamp },
    Qualified { timestamp: Timestamp },
    Usable { timestamp: Timestamp },
    ReadOnly {
        timestamp: Timestamp,
        /// The tree head (tree size and root hash) at which the log was made read-only
        final_tree_head: FinalTreeHead,
    },
    Retired { timestamp: Timestamp },
    Rejected { timestamp: Timestamp },
}

/// A Certificate Transparency log.
#[derive(Clone, Debug)]
pub struct Log {
    /// Description of the CT log
    pub description: String,
    /// The public key of the CT log
    pub key: String,
    /// The SHA-256 hash of the CT log's public key, base64-encoded
    pub log_id: String,
    /// The Maximum Merge Delay, in seconds
    pub mmd: u64,
    /// The base URL of the CT log's HTTP API
    pub url: String,
    /// The domain name of the CT log's DNS API
    pub dns: Option<String>,
    /// The log will only accept certificates that expire (have a NotAfter date) between these dates
    pub temporal_interval: Option<TemporalInterval>,
    /// The purpose of this log, e.g. test.
    pub log_type: Option<LogType>,
    /// The state of the log from the log list distributor's perspective
    pub state: Option<State>,
}

} // verus!
