use ct_scraper::b64::b64_decode;
use ct_scraper::batch::{batch_certificates, entries_or_empty};
use ct_scraper::envelope::{decode_entries, decode_sth, RawEntry};
use ct_scraper::errors::DecodeError;
use ct_scraper::leaf::{
    decode_leaf, encode_leaf, select_certificate_bytes, EntryType, MerkleTreeLeaf,
    TimestampedEntry,
};

const B64_ALPHABET: &[u8] = b"ABCDEFGHIJKLMNOPQRSTUVWXYZabcdefghijklmnopqrstuvwxyz0123456789+/";

/// Standard base64 encoding, used to build envelope bodies for the tests.
fn b64e(data: &[u8]) -> String {
    let mut out = String::new();
    for chunk in data.chunks(3) {
        let b0 = chunk[0] as u32;
        let b1 = if chunk.len() > 1 { chunk[1] as u32 } else { 0 };
        let b2 = if chunk.len() > 2 { chunk[2] as u32 } else { 0 };
        let n = (b0 << 16) | (b1 << 8) | b2;
        out.push(B64_ALPHABET[(n >> 18) as usize & 63] as char);
        out.push(B64_ALPHABET[(n >> 12) as usize & 63] as char);
        if chunk.len() > 1 {
            out.push(B64_ALPHABET[(n >> 6) as usize & 63] as char);
        } else {
            out.push('=');
        }
        if chunk.len() > 2 {
            out.push(B64_ALPHABET[n as usize & 63] as char);
        } else {
            out.push('=');
        }
    }
    out
}

fn x509_leaf_bytes(timestamp: u64, cert: &[u8], exts: &[u8]) -> Vec<u8> {
    let mut v = vec![0u8, 0u8];
    v.extend_from_slice(&timestamp.to_be_bytes());
    v.extend_from_slice(&[0, 0]);
    let l = cert.len() as u32;
    v.extend_from_slice(&[(l >> 16) as u8, (l >> 8) as u8, l as u8]);
    v.extend_from_slice(cert);
    let e = exts.len() as u16;
    v.extend_from_slice(&[(e >> 8) as u8, e as u8]);
    v.extend_from_slice(exts);
    v
}

fn precert_leaf_bytes(timestamp: u64, hash: &[u8; 32], tbs: &[u8], exts: &[u8]) -> Vec<u8> {
    let mut v = vec![0u8, 0u8];
    v.extend_from_slice(&timestamp.to_be_bytes());
    v.extend_from_slice(&[0, 1]);
    v.extend_from_slice(hash);
    let l = tbs.len() as u32;
    v.extend_from_slice(&[(l >> 16) as u8, (l >> 8) as u8, l as u8]);
    v.extend_from_slice(tbs);
    let e = exts.len() as u16;
    v.extend_from_slice(&[(e >> 8) as u8, e as u8]);
    v.extend_from_slice(exts);
    v
}

#[test]
fn b64_decodes_known_vectors() {
    assert_eq!(b64_decode(&b"TWFu".to_vec()), Some(b"Man".to_vec()));
    assert_eq!(b64_decode(&b"TWE=".to_vec()), Some(b"Ma".to_vec()));
    assert_eq!(b64_decode(&b"TQ==".to_vec()), Some(b"M".to_vec()));
    assert_eq!(b64_decode(&b"".to_vec()), Some(vec![]));
    assert_eq!(b64_decode(&b"TWF".to_vec()), None);
    assert_eq!(b64_decode(&b"T!==".to_vec()), None);
    assert_eq!(b64_decode(&b"AAAA".to_vec()), Some(vec![0, 0, 0]));
}

#[test]
fn b64_round_trip_through_encoder() {
    let data: Vec<u8> = (0u8..=255).collect();
    let enc = b64e(&data).into_bytes();
    assert_eq!(b64_decode(&enc), Some(data));
}

#[test]
fn x509_leaf_round_trip() {
    let cert = b"certificate payload".to_vec();
    let leaf = MerkleTreeLeaf {
        version: 0,
        leaf_type: 0,
        entry: TimestampedEntry {
            timestamp: 1234567890123,
            entry_type: EntryType::X509Entry,
            issuer_key_hash: vec![],
            signed_entry: cert.clone(),
            extensions: vec![1, 2, 3],
        },
    };
    let wire = encode_leaf(&leaf);
    assert_eq!(wire, x509_leaf_bytes(1234567890123, &cert, &[1, 2, 3]));
    let back = decode_leaf(&wire).unwrap();
    assert_eq!(back.version, 0);
    assert_eq!(back.leaf_type, 0);
    assert_eq!(back.entry.timestamp, 1234567890123);
    assert_eq!(back.entry.entry_type, EntryType::X509Entry);
    assert_eq!(back.entry.signed_entry, cert);
    assert_eq!(back.entry.issuer_key_hash, Vec::<u8>::new());
    assert_eq!(back.entry.extensions, vec![1, 2, 3]);
}

#[test]
fn precert_leaf_round_trip() {
    let hash = [7u8; 32];
    let tbs = b"tbs bytes here".to_vec();
    let leaf = MerkleTreeLeaf {
        version: 0,
        leaf_type: 0,
        entry: TimestampedEntry {
            timestamp: 42,
            entry_type: EntryType::PrecertEntry,
            issuer_key_hash: hash.to_vec(),
            signed_entry: tbs.clone(),
            extensions: vec![],
        },
    };
    let wire = encode_leaf(&leaf);
    assert_eq!(wire, precert_leaf_bytes(42, &hash, &tbs, &[]));
    let back = decode_leaf(&wire).unwrap();
    assert_eq!(back.entry.entry_type, EntryType::PrecertEntry);
    assert_eq!(back.entry.issuer_key_hash, hash.to_vec());
    assert_eq!(back.entry.signed_entry, tbs);
    assert_eq!(back.entry.timestamp, 42);
}

#[test]
fn decode_leaf_truncated_inputs() {
    // Empty input.
    assert_eq!(decode_leaf(&vec![]), Err(DecodeError::Truncated));
    // Version only.
    assert_eq!(decode_leaf(&vec![0]), Err(DecodeError::Truncated));
    // Header cut before the timestamp ends.
    assert_eq!(decode_leaf(&vec![0, 0, 1, 2, 3]), Err(DecodeError::Truncated));
    // A declared certificate length larger than what remains.
    let mut wire = x509_leaf_bytes(5, b"abcdef", &[]);
    let cut = wire.len() - 10;
    wire.truncate(cut);
    assert_eq!(decode_leaf(&wire), Err(DecodeError::Truncated));
    // Extensions length prefix missing.
    let full = x509_leaf_bytes(5, b"abcdef", &[]);
    let without_exts = full[..full.len() - 2].to_vec();
    assert_eq!(decode_leaf(&without_exts), Err(DecodeError::Truncated));
}

#[test]
fn decode_leaf_unknown_discriminants() {
    let good = x509_leaf_bytes(5, b"abc", &[]);
    let mut bad_version = good.clone();
    bad_version[0] = 9;
    assert_eq!(decode_leaf(&bad_version), Err(DecodeError::UnknownVersion));
    let mut bad_leaf_type = good.clone();
    bad_leaf_type[1] = 5;
    assert_eq!(decode_leaf(&bad_leaf_type), Err(DecodeError::UnknownLeafType));
    let mut bad_entry_type = good.clone();
    bad_entry_type[11] = 7;
    assert_eq!(decode_leaf(&bad_entry_type), Err(DecodeError::UnknownEntryType));
}

#[test]
fn select_bytes_for_x509_is_signed_entry() {
    let cert = b"the end-entity certificate".to_vec();
    let leaf = decode_leaf(&x509_leaf_bytes(1, &cert, &[])).unwrap();
    let extra = b"chain data that must be ignored".to_vec();
    assert_eq!(select_certificate_bytes(&leaf, &extra).unwrap(), cert);
}

#[test]
fn select_bytes_for_precert_comes_from_extra_data() {
    let hash = [1u8; 32];
    let tbs = b"tbs, not a certificate".to_vec();
    let leaf = decode_leaf(&precert_leaf_bytes(1, &hash, &tbs, &[])).unwrap();
    let precert = b"the real pre-certificate".to_vec();
    let mut extra = Vec::new();
    let l = precert.len() as u32;
    extra.extend_from_slice(&[(l >> 16) as u8, (l >> 8) as u8, l as u8]);
    extra.extend_from_slice(&precert);
    extra.extend_from_slice(b"rest of the chain");
    let picked = select_certificate_bytes(&leaf, &extra).unwrap();
    assert_eq!(picked, precert);
    assert_ne!(picked, tbs);
    // A chain shorter than its length prefix declares is a truncation.
    let short = vec![0, 0, 9, 1, 2];
    assert_eq!(select_certificate_bytes(&leaf, &short), Err(DecodeError::Truncated));
}

#[test]
fn decode_sth_happy_path() {
    let body = format!(
        "{{\"tree_size\":250,\"timestamp\":1700000000000,\"sha256_root_hash\":\"{}\",\"tree_head_signature\":\"{}\"}}",
        b64e(&[9u8; 32]),
        b64e(b"sig"),
    )
    .into_bytes();
    let sth = decode_sth(&body).unwrap();
    assert_eq!(sth.tree_size, 250);
    assert_eq!(sth.timestamp, 1700000000000);
    assert_eq!(sth.root_hash, vec![9u8; 32]);
    assert_eq!(sth.signature, b"sig".to_vec());
}

#[test]
fn decode_sth_field_order_and_whitespace() {
    let body = format!(
        " {{ \"timestamp\" : 7 , \"tree_head_signature\" : \"{}\" , \"sha256_root_hash\" : \"{}\" , \"tree_size\" : 3 }} ",
        b64e(b"s"),
        b64e(b"r"),
    )
    .into_bytes();
    let sth = decode_sth(&body).unwrap();
    assert_eq!(sth.tree_size, 3);
    assert_eq!(sth.timestamp, 7);
}

#[test]
fn decode_sth_errors() {
    // Structurally wrong bodies.
    assert_eq!(decode_sth(&b"not json".to_vec()).unwrap_err(), DecodeError::Malformed);
    assert_eq!(decode_sth(&b"{}".to_vec()).unwrap_err(), DecodeError::Malformed);
    let missing = format!(
        "{{\"tree_size\":1,\"timestamp\":2,\"sha256_root_hash\":\"{}\"}}",
        b64e(b"r"),
    )
    .into_bytes();
    assert_eq!(decode_sth(&missing).unwrap_err(), DecodeError::Malformed);
    // Structure fine, base64 broken.
    let bad_b64 = b"{\"tree_size\":1,\"timestamp\":2,\"sha256_root_hash\":\"!!\",\"tree_head_signature\":\"AA==\"}"
        .to_vec();
    assert_eq!(decode_sth(&bad_b64).unwrap_err(), DecodeError::Encoding);
}

#[test]
fn decode_entries_happy_path() {
    let leaf = x509_leaf_bytes(1, b"cert-one", &[]);
    let body = format!(
        "{{\"entries\":[{{\"leaf_input\":\"{}\",\"extra_data\":\"{}\"}},{{\"leaf_input\":\"{}\",\"extra_data\":\"{}\"}}]}}",
        b64e(&leaf),
        b64e(b"extra-one"),
        b64e(&leaf),
        b64e(b"extra-two"),
    )
    .into_bytes();
    let entries = decode_entries(&body).unwrap();
    assert_eq!(entries.len(), 2);
    assert_eq!(entries[0].leaf_input, leaf);
    assert_eq!(entries[0].extra_data, b"extra-one".to_vec());
    assert_eq!(entries[1].extra_data, b"extra-two".to_vec());
}

#[test]
fn decode_entries_empty_array() {
    let entries = decode_entries(&b"{\"entries\":[]}".to_vec()).unwrap();
    assert_eq!(entries.len(), 0);
}

#[test]
fn decode_entries_errors_and_lenient_policy() {
    assert_eq!(decode_entries(&b"[]".to_vec()).unwrap_err(), DecodeError::Malformed);
    let bad_b64 = b"{\"entries\":[{\"leaf_input\":\"!\",\"extra_data\":\"AA==\"}]}".to_vec();
    assert_eq!(decode_entries(&bad_b64).unwrap_err(), DecodeError::Encoding);
    // The skip-and-continue policy treats a malformed batch as empty.
    assert_eq!(entries_or_empty(&bad_b64).len(), 0);
    assert_eq!(entries_or_empty(&b"garbage".to_vec()).len(), 0);
}

#[test]
fn batch_with_one_bad_entry_yields_nine() {
    let mut entries = Vec::new();
    for k in 0..9u8 {
        entries.push(RawEntry {
            leaf_input: x509_leaf_bytes(k as u64, &[b'c', k], &[]),
            extra_data: vec![],
        });
    }
    // One entry with an unrecognized leaf type among the nine good ones.
    let mut bad = x509_leaf_bytes(99, b"ignored", &[]);
    bad[1] = 5;
    entries.insert(4, RawEntry { leaf_input: bad, extra_data: vec![] });
    assert_eq!(entries.len(), 10);
    let certs = batch_certificates(&entries);
    assert_eq!(certs.len(), 9);
    for (k, c) in certs.iter().enumerate() {
        assert_eq!(c, &vec![b'c', k as u8]);
    }
}
