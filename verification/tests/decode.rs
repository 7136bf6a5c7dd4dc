use ctclient::ct::v1::{
    DecodedEntry, DecodedEntryInner, Entry, LogEntryType, MerkleLeafType, MerkleTreeLeaf,
    TimestampedEntrySignedInner, Version, WrapTbsCertificate, WrapX509Certificate, decode_leaf,
    decode_extra_data,
};
use ctclient::{CTLogError, DecodeError};

fn be24(n: usize) -> [u8; 3] {
    [(n >> 16) as u8, (n >> 8) as u8, n as u8]
}

fn leaf_bytes_x509(timestamp: u64, cert: &[u8], exts: &[u8]) -> Vec<u8> {
    let mut b = vec![0u8, 0u8];
    b.extend_from_slice(&timestamp.to_be_bytes());
    b.extend_from_slice(&[0u8, 0u8]);
    b.extend_from_slice(&be24(cert.len()));
    b.extend_from_slice(cert);
    b.extend_from_slice(&(exts.len() as u16).to_be_bytes());
    b.extend_from_slice(exts);
    b
}

fn leaf_bytes_precert(timestamp: u64, key_hash: &[u8; 32], tbs: &[u8], exts: &[u8]) -> Vec<u8> {
    let mut b = vec![0u8, 0u8];
    b.extend_from_slice(&timestamp.to_be_bytes());
    b.extend_from_slice(&[0u8, 1u8]);
    b.extend_from_slice(key_hash);
    b.extend_from_slice(&be24(tbs.len()));
    b.extend_from_slice(tbs);
    b.extend_from_slice(&(exts.len() as u16).to_be_bytes());
    b.extend_from_slice(exts);
    b
}

fn chain_bytes(certs: &[&[u8]]) -> Vec<u8> {
    let mut body: Vec<u8> = Vec::new();
    for c in certs {
        body.extend_from_slice(&be24(c.len()));
        body.extend_from_slice(c);
    }
    let mut b = Vec::new();
    b.extend_from_slice(&be24(body.len()));
    b.extend_from_slice(&body);
    b
}

#[test]
fn example_literal_x509_leaf() {
    // 00 00 00000000000003E8 0000 000003 AA BB CC 0000
    let bytes = vec![
        0x00, 0x00, 0x00, 0x00, 0x00, 0x00, 0x00, 0x00, 0x03, 0xE8, 0x00, 0x00, 0x00, 0x00,
        0x03, 0xAA, 0xBB, 0xCC, 0x00, 0x00,
    ];
    let (leaf, trailing) = MerkleTreeLeaf::parse(&bytes).unwrap();
    assert_eq!(trailing, 0);
    assert!(matches!(leaf.version, Version::V1));
    assert!(matches!(leaf.leaf_type, MerkleLeafType::TimestampedEntry));
    assert_eq!(leaf.timestamped_entry.timestamp, 1000);
    assert_eq!(leaf.timestamped_entry.entry_type, LogEntryType::X509Entry);
    match &leaf.timestamped_entry.signed_entry {
        TimestampedEntrySignedInner::X509(c) => {
            assert_eq!(c.length, 3);
            assert_eq!(c.certificate.raw_bytes(), &vec![0xAA, 0xBB, 0xCC]);
        }
        other => panic!("wrong signed entry: {:?}", other),
    }
    assert_eq!(leaf.timestamped_entry.extensions.length, 0);
    assert!(leaf.timestamped_entry.extensions.extensions.is_empty());
    // The structural decode succeeded; the DER stage fails independently.
    let der = WrapX509Certificate::from_bytes(&[0xAA, 0xBB, 0xCC]);
    assert!(matches!(der, Err(DecodeError::CertificateParseError)));
}

#[test]
fn example_literal_via_base64() {
    let bytes = leaf_bytes_x509(1000, &[0xAA, 0xBB, 0xCC], &[]);
    let encoded = base64::encode(&bytes);
    let (leaf, trailing) = decode_leaf(&encoded).unwrap();
    assert_eq!(trailing, 0);
    assert_eq!(leaf.timestamped_entry.timestamp, 1000);
    assert_eq!(leaf.timestamped_entry.entry_type, LogEntryType::X509Entry);
}

#[test]
fn corrupted_der_fails_certificate_parse() {
    let garbage = vec![0xDE, 0xAD, 0xBE, 0xEF, 0x00, 0x01, 0x02];
    assert!(matches!(
        WrapX509Certificate::from_bytes(&garbage),
        Err(DecodeError::CertificateParseError)
    ));
    assert!(matches!(
        WrapTbsCertificate::from_bytes(&garbage),
        Err(DecodeError::CertificateParseError)
    ));
    // An empty buffer is malformed DER too.
    assert!(matches!(
        WrapX509Certificate::from_bytes(&[]),
        Err(DecodeError::CertificateParseError)
    ));
}

#[test]
fn empty_chain_round_trip() {
    let leaf = leaf_bytes_x509(7, &[0x30, 0x00], &[]);
    let extra = vec![0x00, 0x00, 0x00];
    let entry = Entry {
        leaf_input: base64::encode(&leaf),
        extra_data: base64::encode(&extra),
    };
    let decoded = DecodedEntry::try_from(&entry).unwrap();
    match &decoded.extra_data {
        DecodedEntryInner::X509(chain) => {
            assert_eq!(chain.length, 0);
            assert_eq!(chain.certificates.len(), 0);
        }
        other => panic!("wrong extra data: {:?}", other),
    }
}

#[test]
fn chain_short_supply_fails_truncated() {
    // The chain claims 10 bytes but supplies only 5.
    let mut extra = Vec::new();
    extra.extend_from_slice(&be24(10));
    extra.extend_from_slice(&[1, 2, 3, 4, 5]);
    let r = decode_extra_data(&base64::encode(&extra), LogEntryType::X509Entry);
    assert!(matches!(r, Err(DecodeError::Truncated)));
}

#[test]
fn chain_exact_boundary_decodes() {
    let extra = chain_bytes(&[&[0x01, 0x02, 0x03]]);
    let r = decode_extra_data(&base64::encode(&extra), LogEntryType::X509Entry).unwrap();
    match r {
        DecodedEntryInner::X509(chain) => {
            assert_eq!(chain.length, 6);
            assert_eq!(chain.certificates.len(), 1);
            assert_eq!(chain.certificates[0].length, 3);
            assert_eq!(
                chain.certificates[0].certificate.raw_bytes(),
                &vec![0x01, 0x02, 0x03]
            );
        }
        other => panic!("wrong extra data: {:?}", other),
    }
}

#[test]
fn chain_over_declared_fails_mismatch() {
    // One byte more than the certificates occupy: a 1-byte remainder
    // cannot hold another length prefix.
    let mut extra = Vec::new();
    extra.extend_from_slice(&be24(7));
    extra.extend_from_slice(&be24(3));
    extra.extend_from_slice(&[0x01, 0x02, 0x03, 0xFF]);
    let r = decode_extra_data(&base64::encode(&extra), LogEntryType::X509Entry);
    assert!(matches!(r, Err(DecodeError::ChainLengthMismatch)));
}

#[test]
fn chain_under_declared_fails_mismatch() {
    // One byte less than the certificate needs: the last certificate
    // overruns the declared region.
    let mut extra = Vec::new();
    extra.extend_from_slice(&be24(5));
    extra.extend_from_slice(&be24(3));
    extra.extend_from_slice(&[0x01, 0x02]);
    let r = decode_extra_data(&base64::encode(&extra), LogEntryType::X509Entry);
    assert!(matches!(r, Err(DecodeError::ChainLengthMismatch)));
}

#[test]
fn unsupported_version_rejected_first() {
    // The version byte alone decides, whatever follows it.
    let r = MerkleTreeLeaf::parse(&vec![0x01]);
    assert!(matches!(r, Err(DecodeError::UnsupportedVersion)));
    let mut full = leaf_bytes_x509(1000, &[0xAA], &[]);
    full[0] = 1;
    let r = MerkleTreeLeaf::parse(&full);
    assert!(matches!(r, Err(DecodeError::UnsupportedVersion)));
}

#[test]
fn unsupported_leaf_type_rejected() {
    let r = MerkleTreeLeaf::parse(&vec![0x00, 0x01]);
    assert!(matches!(r, Err(DecodeError::UnsupportedLeafType)));
}

#[test]
fn unknown_entry_type_rejected() {
    let mut b = vec![0u8, 0u8];
    b.extend_from_slice(&1000u64.to_be_bytes());
    b.extend_from_slice(&[0x00, 0x02]);
    let r = MerkleTreeLeaf::parse(&b);
    assert!(matches!(r, Err(DecodeError::UnknownEntryType)));
}

#[test]
fn truncated_leaf_rejected() {
    assert!(matches!(
        MerkleTreeLeaf::parse(&vec![]),
        Err(DecodeError::Truncated)
    ));
    assert!(matches!(
        MerkleTreeLeaf::parse(&vec![0x00]),
        Err(DecodeError::Truncated)
    ));
    // Header complete, certificate length promises more than remains.
    let mut b = vec![0u8, 0u8];
    b.extend_from_slice(&5u64.to_be_bytes());
    b.extend_from_slice(&[0x00, 0x00]);
    b.extend_from_slice(&be24(4));
    b.extend_from_slice(&[0x01]);
    assert!(matches!(
        MerkleTreeLeaf::parse(&b),
        Err(DecodeError::Truncated)
    ));
}

#[test]
fn base64_error_surfaces() {
    assert!(matches!(
        decode_leaf("this is not base64!!!"),
        Err(DecodeError::Base64Error)
    ));
    let entry = Entry {
        leaf_input: base64::encode(leaf_bytes_x509(1, &[0xAA], &[])),
        extra_data: String::from("%%%"),
    };
    assert!(matches!(
        DecodedEntry::try_from(&entry),
        Err(CTLogError::Decode(DecodeError::Base64Error))
    ));
}

#[test]
fn trailing_bytes_counted_not_rejected() {
    let mut b = leaf_bytes_x509(42, &[0x11, 0x22], &[]);
    b.extend_from_slice(&[0xFE, 0xFD, 0xFC]);
    let (leaf, trailing) = MerkleTreeLeaf::parse(&b).unwrap();
    assert_eq!(trailing, 3);
    assert_eq!(leaf.timestamped_entry.timestamp, 42);
}

#[test]
fn extensions_blob_decoded() {
    let b = leaf_bytes_x509(9, &[0x01], &[0xCA, 0xFE]);
    let (leaf, trailing) = MerkleTreeLeaf::parse(&b).unwrap();
    assert_eq!(trailing, 0);
    assert_eq!(leaf.timestamped_entry.extensions.length, 2);
    assert_eq!(leaf.timestamped_entry.extensions.extensions, vec![0xCA, 0xFE]);
}

#[test]
fn x509_entry_assembles_with_matching_tags() {
    let leaf = leaf_bytes_x509(123456789, &[0x0A, 0x0B], &[]);
    let extra = chain_bytes(&[&[0x0A, 0x0B], &[0x0C]]);
    let entry = Entry {
        leaf_input: base64::encode(&leaf),
        extra_data: base64::encode(&extra),
    };
    let decoded = DecodedEntry::try_from(&entry).unwrap();
    assert_eq!(
        decoded.leaf.timestamped_entry.entry_type,
        LogEntryType::X509Entry
    );
    match &decoded.extra_data {
        DecodedEntryInner::X509(chain) => {
            assert_eq!(chain.certificates.len(), 2);
            assert_eq!(chain.certificates[1].certificate.raw_bytes(), &vec![0x0C]);
        }
        other => panic!("entry types disagree: {:?}", other),
    }
}

#[test]
fn precert_entry_assembles_with_matching_tags() {
    let key_hash = [0x5Au8; 32];
    let tbs = [0x30, 0x03, 0x02, 0x01, 0x05];
    let leaf = leaf_bytes_precert(987654321, &key_hash, &tbs, &[0x01]);
    let mut extra = Vec::new();
    // The full precertificate, then its issuing chain.
    extra.extend_from_slice(&be24(4));
    extra.extend_from_slice(&[0xD0, 0xD1, 0xD2, 0xD3]);
    extra.extend_from_slice(&chain_bytes(&[&[0xE0, 0xE1]]));
    let entry = Entry {
        leaf_input: base64::encode(&leaf),
        extra_data: base64::encode(&extra),
    };
    let decoded = DecodedEntry::try_from(&entry).unwrap();
    assert_eq!(
        decoded.leaf.timestamped_entry.entry_type,
        LogEntryType::PrecertEntry
    );
    match &decoded.leaf.timestamped_entry.signed_entry {
        TimestampedEntrySignedInner::Precert(p) => {
            assert_eq!(p.issuer_key_hash.bytes(), &key_hash.to_vec());
            assert_eq!(p.length, 5);
            assert_eq!(p.tbs_certificate.raw_bytes(), &tbs.to_vec());
        }
        other => panic!("wrong signed entry: {:?}", other),
    }
    match &decoded.extra_data {
        DecodedEntryInner::Precert(p) => {
            assert_eq!(
                p.pre_certificate.certificate.raw_bytes(),
                &vec![0xD0, 0xD1, 0xD2, 0xD3]
            );
            assert_eq!(p.precertificate_chain.certificates.len(), 1);
            assert_eq!(
                p.precertificate_chain.certificates[0].certificate.raw_bytes(),
                &vec![0xE0, 0xE1]
            );
        }
        other => panic!("entry types disagree: {:?}", other),
    }
}

#[test]
fn precert_truncated_key_hash() {
    let mut b = vec![0u8, 0u8];
    b.extend_from_slice(&1u64.to_be_bytes());
    b.extend_from_slice(&[0x00, 0x01]);
    b.extend_from_slice(&[0x77; 16]);
    assert!(matches!(
        MerkleTreeLeaf::parse(&b),
        Err(DecodeError::Truncated)
    ));
}

#[test]
fn wrapped_certificate_equality_by_bytes() {
    let a = WrapX509Certificate::from_raw(vec![1, 2, 3]);
    let b = WrapX509Certificate::from_raw(vec![1, 2, 3]);
    let c = WrapX509Certificate::from_raw(vec![1, 2, 4]);
    assert!(a == b);
    assert!(a != c);
    let ta = WrapTbsCertificate::from_raw(vec![9]);
    let tb = WrapTbsCertificate::from_raw(vec![9]);
    assert!(ta == tb);
}

fn minimal_tbs_der() -> Vec<u8> {
    // TBSCertificate with default version, serial 1, empty issuer and
    // subject names, a fixed validity window, and a stub key bit string.
    let mut tbs_body: Vec<u8> = Vec::new();
    // serial INTEGER 1
    tbs_body.extend_from_slice(&[0x02, 0x01, 0x01]);
    // signature AlgorithmIdentifier: sha256WithRSAEncryption
    tbs_body.extend_from_slice(&[
        0x30, 0x0B, 0x06, 0x09, 0x2A, 0x86, 0x48, 0x86, 0xF7, 0x0D, 0x01, 0x01, 0x0B,
    ]);
    // issuer: empty RDNSequence
    tbs_body.extend_from_slice(&[0x30, 0x00]);
    // validity: two UTCTime values
    let mut validity: Vec<u8> = Vec::new();
    for t in ["220101000000Z", "230101000000Z"] {
        validity.push(0x17);
        validity.push(t.len() as u8);
        validity.extend_from_slice(t.as_bytes());
    }
    tbs_body.push(0x30);
    tbs_body.push(validity.len() as u8);
    tbs_body.extend_from_slice(&validity);
    // subject: empty RDNSequence
    tbs_body.extend_from_slice(&[0x30, 0x00]);
    // subjectPublicKeyInfo: rsaEncryption with a stub key
    tbs_body.extend_from_slice(&[
        0x30, 0x13, 0x30, 0x0D, 0x06, 0x09, 0x2A, 0x86, 0x48, 0x86, 0xF7, 0x0D, 0x01, 0x01,
        0x01, 0x05, 0x00, 0x03, 0x02, 0x00, 0x01,
    ]);
    let mut tbs = vec![0x30, tbs_body.len() as u8];
    tbs.extend_from_slice(&tbs_body);
    tbs
}

#[test]
fn wellformed_der_accepted() {
    let tbs = minimal_tbs_der();
    assert!(WrapTbsCertificate::from_bytes(&tbs).is_ok());
    // The certificate wraps the TBS with its signature algorithm and a
    // stub signature bit string.
    let mut cert_body = tbs.clone();
    cert_body.extend_from_slice(&[
        0x30, 0x0B, 0x06, 0x09, 0x2A, 0x86, 0x48, 0x86, 0xF7, 0x0D, 0x01, 0x01, 0x0B,
    ]);
    cert_body.extend_from_slice(&[0x03, 0x02, 0x00, 0x01]);
    let mut cert = vec![0x30, cert_body.len() as u8];
    cert.extend_from_slice(&cert_body);
    let wrapped = WrapX509Certificate::from_bytes(&cert).unwrap();
    assert_eq!(wrapped.raw_bytes(), &cert);
    assert!(wrapped.parses());
}
