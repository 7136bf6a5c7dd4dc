use ctclient::client::v1::{
    add_chain_path, add_pre_chain_path, get_entries_path, get_entry_and_proof_path,
    get_proof_by_hash_path, get_roots_path, get_sth_consistency_path, get_sth_path,
    next_entry_index, u64_to_dec,
};
use ctclient::ct::v1::{DecodedEntry, DecodedEntryInner, Entry};

#[test]
fn decimal_formatting_exact_values() {
    assert_eq!(u64_to_dec(0), "0");
    assert_eq!(u64_to_dec(7), "7");
    assert_eq!(u64_to_dec(10), "10");
    assert_eq!(u64_to_dec(1000), "1000");
    assert_eq!(u64_to_dec(18446744073709551615), "18446744073709551615");
}

#[test]
fn constant_paths() {
    assert_eq!(add_chain_path(), "ct/v1/add-chain");
    assert_eq!(add_pre_chain_path(), "ct/v1/add-pre-chain");
    assert_eq!(get_sth_path(), "ct/v1/get-sth");
    assert_eq!(get_roots_path(), "ct/v1/get-roots");
}

#[test]
fn query_paths() {
    assert_eq!(
        get_entries_path(0, 199),
        "ct/v1/get-entries?start=0&end=199"
    );
    assert_eq!(
        get_sth_consistency_path(12, 3400),
        "ct/v1/get-sth-consistency?first=12&second=3400"
    );
    assert_eq!(
        get_proof_by_hash_path("aGFzaA==", 77),
        "ct/v1/get-proof-by-hash?hash=aGFzaA==&tree_size=77"
    );
    assert_eq!(
        get_entry_and_proof_path(5, 99),
        "ct/v1/get-entry-and-proof?leaf_index=5&tree_size=99"
    );
}

#[test]
fn next_index_after_short_read() {
    // Asked for [0, 199], got 100 entries: continue at index 100.
    assert_eq!(next_entry_index(0, 199, 100), Some(100));
    // The whole range arrived: nothing remains.
    assert_eq!(next_entry_index(0, 199, 200), None);
    // A server that sent more than asked still ends the range.
    assert_eq!(next_entry_index(0, 199, 250), None);
    // Nothing arrived yet: start over at the start.
    assert_eq!(next_entry_index(0, 199, 0), Some(0));
    assert_eq!(next_entry_index(5, 5, 0), Some(5));
    assert_eq!(next_entry_index(5, 5, 1), None);
}

fn sample_entry() -> Entry {
    let mut leaf = vec![0u8, 0u8];
    leaf.extend_from_slice(&1000u64.to_be_bytes());
    leaf.extend_from_slice(&[0x00, 0x00]);
    leaf.extend_from_slice(&[0x00, 0x00, 0x03, 0xAA, 0xBB, 0xCC]);
    leaf.extend_from_slice(&[0x00, 0x00]);
    let extra = vec![0x00, 0x00, 0x00];
    Entry {
        leaf_input: base64::encode(&leaf),
        extra_data: base64::encode(&extra),
    }
}

#[test]
fn short_read_batch_decodes_and_reports_continuation() {
    // A fixture answer to get-entries(0, 199) holding only 100 entries:
    // all 100 decode, and the caller learns that more remain at 100.
    let answer: Vec<Entry> = (0..100).map(|_| sample_entry()).collect();
    let mut decoded: Vec<DecodedEntry> = Vec::new();
    for e in &answer {
        decoded.push(DecodedEntry::try_from(e).unwrap());
    }
    assert_eq!(decoded.len(), 100);
    for d in &decoded {
        assert!(matches!(d.extra_data, DecodedEntryInner::X509(_)));
    }
    assert_eq!(next_entry_index(0, 199, decoded.len()), Some(100));
}

#[test]
fn per_entry_failure_leaves_siblings_decoded() {
    // One bad entry in a batch is skipped; the others still decode.
    let mut batch = vec![sample_entry(), sample_entry(), sample_entry()];
    batch[1].extra_data = String::from("@@@");
    let mut ok = 0;
    let mut failed = 0;
    for e in &batch {
        match DecodedEntry::try_from(e) {
            Ok(_) => ok += 1,
            Err(_) => failed += 1,
        }
    }
    assert_eq!(ok, 2);
    assert_eq!(failed, 1);
}
