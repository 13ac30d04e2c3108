use aceman::ct::{Cert, DecodeError, MerkleTreeLeaf, MerkleTreeLeafEntry, Version};

/// A leaf: version 0, leaf type 0, timestamp, entry type, body, extensions.
fn leaf_bytes(timestamp: u64, entry_type: u16, body: &[u8], extensions: u16) -> Vec<u8> {
    let mut b = vec![0u8, 0u8];
    b.extend_from_slice(&timestamp.to_be_bytes());
    b.extend_from_slice(&entry_type.to_be_bytes());
    b.extend_from_slice(body);
    b.extend_from_slice(&extensions.to_be_bytes());
    b
}

#[test]
fn decodes_x509_leaf() {
    // 3-byte length 4, then the certificate.
    let bytes = leaf_bytes(0x0102030405060708, 0, &[0, 0, 4, 0xde, 0xad, 0xbe, 0xef], 0x0a0b);
    let leaf = MerkleTreeLeaf::from_slice(&bytes).unwrap();
    assert_eq!(leaf.version, Version::V1);
    match leaf.leaf {
        MerkleTreeLeafEntry::TimestampedEntry { timestamp, entry, extensions } => {
            assert_eq!(timestamp, 0x0102030405060708);
            assert_eq!(extensions, 0x0a0b);
            match entry {
                Cert::X509(d) => assert_eq!(d, vec![0xde, 0xad, 0xbe, 0xef]),
                Cert::PreCert(_) => panic!("expected an X.509 entry"),
            }
        }
    }
}

#[test]
fn decodes_precert_leaf() {
    let bytes = leaf_bytes(1600000000000, 1, &[9, 8, 7, 6, 5], 0);
    let leaf = MerkleTreeLeaf::from_slice(&bytes).unwrap();
    match leaf.leaf {
        MerkleTreeLeafEntry::TimestampedEntry { timestamp, entry, extensions } => {
            assert_eq!(timestamp, 1600000000000);
            assert_eq!(extensions, 0);
            match entry {
                Cert::PreCert(d) => assert_eq!(d, vec![9, 8, 7, 6, 5]),
                Cert::X509(_) => panic!("expected a precertificate entry"),
            }
        }
    }
}

#[test]
fn short_inputs_are_too_small() {
    assert!(matches!(MerkleTreeLeaf::from_slice(&[0]), Err(DecodeError::InputTooSmall)));
    assert!(matches!(MerkleTreeLeaf::from_slice(&[0, 0, 1, 2, 3]), Err(DecodeError::InputTooSmall)));
    assert!(matches!(
        MerkleTreeLeafEntry::timestamped_entry_from_slice(&[0; 12]),
        Err(DecodeError::InputTooSmall)
    ));
}

#[test]
fn malformed_leaves_are_invalid() {
    // Certificate length runs past the end.
    let bytes = leaf_bytes(1, 0, &[0, 0, 200, 1], 0);
    assert!(matches!(MerkleTreeLeaf::from_slice(&bytes), Err(DecodeError::InvalidMerkleLeaf)));
    // Unknown entry type.
    let bytes = leaf_bytes(1, 2, &[0, 0, 0], 0);
    assert!(matches!(MerkleTreeLeaf::from_slice(&bytes), Err(DecodeError::InvalidMerkleLeaf)));
    // Unknown leaf type.
    let mut bytes = leaf_bytes(1, 1, &[0, 0, 0], 0);
    bytes[1] = 1;
    assert!(matches!(MerkleTreeLeaf::from_slice(&bytes), Err(DecodeError::InvalidMerkleLeaf)));
    // Unknown version.
    let mut bytes = leaf_bytes(1, 1, &[0, 0, 0], 0);
    bytes[0] = 1;
    assert!(matches!(MerkleTreeLeaf::from_slice(&bytes), Err(DecodeError::InvalidMerkleLeaf)));
}

#[test]
fn decodes_leaf_from_base64() {
    // version 0, leaf type 0, timestamp 1, precert entry [7], extensions 0.
    let text = "AAAAAAAAAAAAAQABBwAA";
    let leaf = MerkleTreeLeaf::from_base64(text).unwrap();
    match leaf.leaf {
        MerkleTreeLeafEntry::TimestampedEntry { timestamp, entry, .. } => {
            assert_eq!(timestamp, 1);
            match entry {
                Cert::PreCert(d) => assert_eq!(d, vec![7]),
                Cert::X509(_) => panic!("expected a precertificate entry"),
            }
        }
    }
    assert!(matches!(MerkleTreeLeaf::from_base64("not base64!"), Err(DecodeError::InvalidBase64)));
}
