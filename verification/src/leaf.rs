//! Leaf decoder: the RFC 6962 `MerkleTreeLeaf` / `TimestampedEntry` binary
//! wire format, and the selection of the certificate bytes to hand to
//! domain extraction.

use vstd::prelude::*;
use crate::bytes::{be_bytes_val, be_bytes_of, pow256, read_be, copy_range, append_bytes, encode_be,
    lemma_be_roundtrip};
use crate::errors::DecodeError;

verus! {

/// Discriminates how `signed_entry` and the paired `extra_data` are read.
#[derive(Clone, Copy, Debug, PartialEq, Eq, Structural)]
pub enum EntryType {
    /// `signed_entry` is the DER-encoded end-entity certificate itself.
    X509Entry,
    /// `signed_entry` is a pre-certificate TBS; the real certificate bytes
    /// live in `extra_data`.
    PrecertEntry,
}

/// The timestamped body of a Merkle-tree leaf.
#[derive(Debug, PartialEq)]
pub struct TimestampedEntry {
    pub timestamp: u64,
    pub entry_type: EntryType,
    /// 32 bytes for a pre-certificate entry, empty for an X509 entry.
    pub issuer_key_hash: Vec<u8>,
    /// The DER certificate (X509) or the TBS blob (pre-certificate).
    pub signed_entry: Vec<u8>,
    pub extensions: Vec<u8>,
}

/// A decoded Merkle-tree leaf.
#[derive(Debug, PartialEq)]
pub struct MerkleTreeLeaf {
    pub version: u8,
    pub leaf_type: u8,
    pub entry: TimestampedEntry,
}

/// Mathematical model of a timestamped entry.
pub ghost struct TimestampedEntryModel {
    pub timestamp: u64,
    pub entry_type: EntryType,
    pub issuer_key_hash: Seq<u8>,
    pub signed_entry: Seq<u8>,
    pub extensions: Seq<u8>,
}

/// Mathematical model of a leaf.
pub ghost struct MerkleTreeLeafModel {
    pub version: u8,
    pub leaf_type: u8,
    pub entry: TimestampedEntryModel,
}

impl View for TimestampedEntry {
    type V = TimestampedEntryModel;

    open spec fn view(&self) -> TimestampedEntryModel {
        TimestampedEntryModel {
            timestamp: self.timestamp,
            entry_type: self.entry_type,
            issuer_key_hash: self.issuer_key_hash@,
            signed_entry: self.signed_entry@,
            extensions: self.extensions@,
        }
    }
}

impl View for MerkleTreeLeaf {
    type V = MerkleTreeLeafModel;

    open spec fn view(&self) -> MerkleTreeLeafModel {
        MerkleTreeLeafModel {
            version: self.version,
            leaf_type: self.leaf_type,
            entry: self.entry@,
        }
    }
}

/// The extensions blob declared at `off`: a 2-byte length prefix and that
/// many bytes.
pub open spec fn spec_decode_exts(s: Seq<u8>, off: int) -> Result<Seq<u8>, DecodeError> {
    if s.len() < off + 2 {
        Err(DecodeError::Truncated)
    } else {
        let e = be_bytes_val(s.subrange(off, off + 2));
        if s.len() < off + 2 + e {
            Err(DecodeError::Truncated)
        } else {
            Ok(s.subrange(off + 2, off + 2 + e))
        }
    }
}

/// What `decode_leaf` returns on a byte string: the RFC 6962 layout, field
/// by field — 1-byte version (v1 only), 1-byte leaf type (timestamped-entry
/// only), 8-byte big-endian timestamp, 2-byte entry-type discriminant, the
/// type-tagged payload, then a 2-byte length-prefixed extensions blob.
/// Trailing bytes beyond the declared structure are ignored.
pub open spec fn spec_decode_leaf(s: Seq<u8>) -> Result<MerkleTreeLeafModel, DecodeError> {
    if s.len() < 1 {
        Err(DecodeError::Truncated)
    } else if s[0] != 0 {
        Err(DecodeError::UnknownVersion)
    } else if s.len() < 2 {
        Err(DecodeError::Truncated)
    } else if s[1] != 0 {
        Err(DecodeError::UnknownLeafType)
    } else if s.len() < 12 {
        Err(DecodeError::Truncated)
    } else {
        let ts = be_bytes_val(s.subrange(2, 10));
        let et = be_bytes_val(s.subrange(10, 12));
        if et == 0 {
            if s.len() < 15 {
                Err(DecodeError::Truncated)
            } else {
                let l = be_bytes_val(s.subrange(12, 15));
                if s.len() < 15 + l {
                    Err(DecodeError::Truncated)
                } else {
                    match spec_decode_exts(s, 15 + l as int) {
                        Err(e) => Err(e),
                        Ok(exts) => Ok(MerkleTreeLeafModel {
                            version: 0,
                            leaf_type: 0,
                            entry: TimestampedEntryModel {
                                timestamp: ts as u64,
                                entry_type: EntryType::X509Entry,
                                issuer_key_hash: Seq::empty(),
                                signed_entry: s.subrange(15, 15 + l as int),
                                extensions: exts,
                            },
                        }),
                    }
                }
            }
        } else if et == 1 {
            if s.len() < 47 {
                Err(DecodeError::Truncated)
            } else {
                let l = be_bytes_val(s.subrange(44, 47));
                if s.len() < 47 + l {
                    Err(DecodeError::Truncated)
                } else {
                    match spec_decode_exts(s, 47 + l as int) {
                        Err(e) => Err(e),
                        Ok(exts) => Ok(MerkleTreeLeafModel {
                            version: 0,
                            leaf_type: 0,
                            entry: TimestampedEntryModel {
                                timestamp: ts as u64,
                                entry_type: EntryType::PrecertEntry,
                                issuer_key_hash: s.subrange(12, 44),
                                signed_entry: s.subrange(47, 47 + l as int),
                                extensions: exts,
                            },
                        }),
                    }
                }
            }
        } else {
            Err(DecodeError::UnknownEntryType)
        }
    }
}

/// The model of a decode result.
pub open spec fn decode_result_model(r: Result<MerkleTreeLeaf, DecodeError>)
    -> Result<MerkleTreeLeafModel, DecodeError> {
    match r {
        Ok(l) => Ok(l@),
        Err(e) => Err(e),
    }
}

/// Parses the binary Merkle-tree-leaf format out of `leaf_input`. Never
/// panics; fails with `Truncated` when fewer bytes remain than a field
/// declares, and with the matching `Unknown*` error for an unrecognized
/// discriminant, exactly as `spec_decode_leaf` lays out.
pub fn decode_leaf(input: &Vec<u8>) -> (r: Result<MerkleTreeLeaf, DecodeError>)
    ensures
        decode_result_model(r) == spec_decode_leaf(input@),
{
    if input.len() < 1 {
        return Err(DecodeError::Truncated);
    }
    if input[0] != 0 {
        return Err(DecodeError::UnknownVersion);
    }
    if input.len() < 2 {
        return Err(DecodeError::Truncated);
    }
    if input[1] != 0 {
        return Err(DecodeError::UnknownLeafType);
    }
    if input.len() < 12 {
        return Err(DecodeError::Truncated);
    }
    let ts = read_be(input, 2, 8);
    let et = read_be(input, 10, 2);
    proof {
        crate::bytes::lemma_be_bytes_val_bound(input@.subrange(2, 10));
        assert(pow256(8) == 0x10000000000000000) by {
            reveal_with_fuel(pow256, 9);
        }
    }
    if et == 0 {
        if input.len() < 15 {
            return Err(DecodeError::Truncated);
        }
        let l = read_be(input, 12, 3);
        proof {
            crate::bytes::lemma_be_bytes_val_bound(input@.subrange(12, 15));
            assert(pow256(3) == 0x1000000) by {
                reveal_with_fuel(pow256, 4);
            }
        }
        let l: usize = l as usize;
        if input.len() < 15 || input.len() - 15 < l {
            return Err(DecodeError::Truncated);
        }
        let signed_entry = copy_range(input, 15, 15 + l);
        let exts = match decode_exts(input, 15 + l) {
            Err(e) => {
                return Err(e);
            },
            Ok(x) => x,
        };
        Ok(MerkleTreeLeaf {
            version: 0,
            leaf_type: 0,
            entry: TimestampedEntry {
                timestamp: ts,
                entry_type: EntryType::X509Entry,
                issuer_key_hash: Vec::new(),
                signed_entry,
                extensions: exts,
            },
        })
    } else if et == 1 {
        if input.len() < 47 {
            return Err(DecodeError::Truncated);
        }
        let l = read_be(input, 44, 3);
        proof {
            crate::bytes::lemma_be_bytes_val_bound(input@.subrange(44, 47));
            assert(pow256(3) == 0x1000000) by {
                reveal_with_fuel(pow256, 4);
            }
        }
        let l: usize = l as usize;
        if input.len() - 47 < l {
            return Err(DecodeError::Truncated);
        }
        let issuer_key_hash = copy_range(input, 12, 44);
        let signed_entry = copy_range(input, 47, 47 + l);
        let exts = match decode_exts(input, 47 + l) {
            Err(e) => {
                return Err(e);
            },
            Ok(x) => x,
        };
        Ok(MerkleTreeLeaf {
            version: 0,
            leaf_type: 0,
            entry: TimestampedEntry {
                timestamp: ts,
                entry_type: EntryType::PrecertEntry,
                issuer_key_hash,
                signed_entry,
                extensions: exts,
            },
        })
    } else {
        Err(DecodeError::UnknownEntryType)
    }
}

/// Reads the 2-byte length-prefixed extensions blob at `off`.
fn decode_exts(input: &Vec<u8>, off: usize) -> (r: Result<Vec<u8>, DecodeError>)
    requires
        off <= input.len(),
    ensures
        (match r {
            Ok(v) => Ok(v@),
            Err(e) => Err::<Seq<u8>, DecodeError>(e),
        }) == spec_decode_exts(input@, off as int),
{
    if input.len() - off < 2 {
        return Err(DecodeError::Truncated);
    }
    let e = read_be(input, off, 2);
    proof {
        crate::bytes::lemma_be_bytes_val_bound(input@.subrange(off as int, off + 2));
        assert(pow256(2) == 0x10000) by {
            reveal_with_fuel(pow256, 3);
        }
    }
    let e: usize = e as usize;
    if input.len() - off - 2 < e {
        return Err(DecodeError::Truncated);
    }
    Ok(copy_range(input, off + 2, off + 2 + e))
}

/// A leaf the encoder accepts: v1, timestamped-entry, field widths within
/// their declared prefixes, and an issuer key hash present exactly for a
/// pre-certificate entry.
pub open spec fn wf_leaf(l: MerkleTreeLeafModel) -> bool {
    &&& l.version == 0
    &&& l.leaf_type == 0
    &&& (l.entry.entry_type == EntryType::X509Entry ==> l.entry.issuer_key_hash.len() == 0)
    &&& (l.entry.entry_type == EntryType::PrecertEntry ==> l.entry.issuer_key_hash.len() == 32)
    &&& l.entry.signed_entry.len() < 0x1000000
    &&& l.entry.extensions.len() < 0x10000
}

/// The canonical wire encoding of a well-formed leaf.
pub open spec fn spec_encode_leaf(l: MerkleTreeLeafModel) -> Seq<u8> {
    seq![l.version, l.leaf_type]
        + be_bytes_of(l.entry.timestamp as nat, 8)
        + be_bytes_of(
            if l.entry.entry_type == EntryType::X509Entry { 0 } else { 1 },
            2,
        )
        + l.entry.issuer_key_hash
        + be_bytes_of(l.entry.signed_entry.len(), 3)
        + l.entry.signed_entry
        + be_bytes_of(l.entry.extensions.len(), 2)
        + l.entry.extensions
}

/// Serializes a well-formed leaf into the RFC 6962 wire layout.
pub fn encode_leaf(leaf: &MerkleTreeLeaf) -> (r: Vec<u8>)
    requires
        wf_leaf(leaf@),
    ensures
        r@ == spec_encode_leaf(leaf@),
{
    let mut out: Vec<u8> = Vec::new();
    out.push(leaf.version);
    out.push(leaf.leaf_type);
    proof {
        assert(out@ =~= seq![leaf@.version, leaf@.leaf_type]);
        assert(pow256(8) == 0x10000000000000000) by {
            reveal_with_fuel(pow256, 9);
        }
        assert(pow256(2) == 0x10000) by {
            reveal_with_fuel(pow256, 3);
        }
        assert(pow256(3) == 0x1000000) by {
            reveal_with_fuel(pow256, 4);
        }
    }
    encode_be(&mut out, leaf.entry.timestamp, 8);
    let et: u64 = match leaf.entry.entry_type {
        EntryType::X509Entry => 0,
        EntryType::PrecertEntry => 1,
    };
    encode_be(&mut out, et, 2);
    append_bytes(&mut out, &leaf.entry.issuer_key_hash);
    encode_be(&mut out, leaf.entry.signed_entry.len() as u64, 3);
    append_bytes(&mut out, &leaf.entry.signed_entry);
    encode_be(&mut out, leaf.entry.extensions.len() as u64, 2);
    append_bytes(&mut out, &leaf.entry.extensions);
    proof {
        assert(out@ =~= spec_encode_leaf(leaf@));
    }
    out
}

/// Round-trip law: decoding the canonical encoding of any well-formed leaf
/// gives that leaf back, byte-identical in every field.
pub proof fn lemma_leaf_roundtrip(l: MerkleTreeLeafModel)
    requires
        wf_leaf(l),
    ensures
        spec_decode_leaf(spec_encode_leaf(l)) == Ok::<MerkleTreeLeafModel, DecodeError>(l),
{
    let s = spec_encode_leaf(l);
    let ikh_len = l.entry.issuer_key_hash.len() as int;
    let se_len = l.entry.signed_entry.len() as int;
    let ex_len = l.entry.extensions.len() as int;
    assert(pow256(8) == 0x10000000000000000) by {
        reveal_with_fuel(pow256, 9);
    }
    assert(pow256(2) == 0x10000) by {
        reveal_with_fuel(pow256, 3);
    }
    assert(pow256(3) == 0x1000000) by {
        reveal_with_fuel(pow256, 4);
    }
    lemma_be_roundtrip(l.entry.timestamp as nat, 8);
    let et_val: nat = if l.entry.entry_type == EntryType::X509Entry { 0 } else { 1 };
    lemma_be_roundtrip(et_val, 2);
    lemma_be_roundtrip(l.entry.signed_entry.len(), 3);
    lemma_be_roundtrip(l.entry.extensions.len(), 2);
    assert(s.len() == 2 + 8 + 2 + ikh_len + 3 + se_len + 2 + ex_len);
    assert(s[0] == 0 && s[1] == 0);
    assert(s.subrange(2, 10) =~= be_bytes_of(l.entry.timestamp as nat, 8));
    assert(s.subrange(10, 12) =~= be_bytes_of(et_val, 2));
    assert(be_bytes_val(s.subrange(2, 10)) == l.entry.timestamp as nat);
    assert(be_bytes_val(s.subrange(10, 12)) == et_val);
    if l.entry.entry_type == EntryType::X509Entry {
        assert(s.subrange(12, 15) =~= be_bytes_of(l.entry.signed_entry.len(), 3));
        assert(be_bytes_val(s.subrange(12, 15)) == se_len);
        assert(s.subrange(15, 15 + se_len) =~= l.entry.signed_entry);
        let off = 15 + se_len;
        assert(s.subrange(off, off + 2) =~= be_bytes_of(l.entry.extensions.len(), 2));
        assert(be_bytes_val(s.subrange(off, off + 2)) == ex_len);
        assert(s.subrange(off + 2, off + 2 + ex_len) =~= l.entry.extensions);
        assert(spec_decode_exts(s, off) == Ok::<Seq<u8>, DecodeError>(l.entry.extensions));
        assert(l.entry.issuer_key_hash =~= Seq::<u8>::empty());
        assert(spec_decode_leaf(s) == Ok::<MerkleTreeLeafModel, DecodeError>(l));
    } else {
        assert(s.subrange(12, 44) =~= l.entry.issuer_key_hash);
        assert(s.subrange(44, 47) =~= be_bytes_of(l.entry.signed_entry.len(), 3));
        assert(be_bytes_val(s.subrange(44, 47)) == se_len);
        assert(s.subrange(47, 47 + se_len) =~= l.entry.signed_entry);
        let off = 47 + se_len;
        assert(s.subrange(off, off + 2) =~= be_bytes_of(l.entry.extensions.len(), 2));
        assert(be_bytes_val(s.subrange(off, off + 2)) == ex_len);
        assert(s.subrange(off + 2, off + 2 + ex_len) =~= l.entry.extensions);
        assert(spec_decode_exts(s, off) == Ok::<Seq<u8>, DecodeError>(l.entry.extensions));
        assert(spec_decode_leaf(s) == Ok::<MerkleTreeLeafModel, DecodeError>(l));
    }
}

/// What `select_certificate_bytes` returns: the leaf's own `signed_entry`
/// for an X509 entry; for a pre-certificate entry, the leading 3-byte
/// length-prefixed certificate of the `extra_data` chain.
pub open spec fn spec_select_certificate(l: MerkleTreeLeafModel, extra: Seq<u8>)
    -> Result<Seq<u8>, DecodeError> {
    match l.entry.entry_type {
        EntryType::X509Entry => Ok(l.entry.signed_entry),
        EntryType::PrecertEntry => {
            if extra.len() < 3 {
                Err(DecodeError::Truncated)
            } else {
                let len = be_bytes_val(extra.subrange(0, 3));
                if extra.len() < 3 + len {
                    Err(DecodeError::Truncated)
                } else {
                    Ok(extra.subrange(3, 3 + len as int))
                }
            }
        },
    }
}

/// Picks the certificate bytes to hand to domain extraction: exactly
/// `leaf.entry.signed_entry` for an X509 entry, and for a pre-certificate
/// entry the leading certificate drawn from `extra_data`, never from
/// `signed_entry`.
pub fn select_certificate_bytes(leaf: &MerkleTreeLeaf, extra_data: &Vec<u8>)
    -> (r: Result<Vec<u8>, DecodeError>)
    ensures
        (match r {
            Ok(v) => Ok(v@),
            Err(e) => Err::<Seq<u8>, DecodeError>(e),
        }) == spec_select_certificate(leaf@, extra_data@),
{
    match leaf.entry.entry_type {
        EntryType::X509Entry => {
            let c = copy_range(&leaf.entry.signed_entry, 0, leaf.entry.signed_entry.len());
            proof {
                assert(c@ =~= leaf.entry.signed_entry@);
            }
            Ok(c)
        },
        EntryType::PrecertEntry => {
            if extra_data.len() < 3 {
                return Err(DecodeError::Truncated);
            }
            let len = read_be(extra_data, 0, 3);
            proof {
                crate::bytes::lemma_be_bytes_val_bound(extra_data@.subrange(0, 3));
                assert(pow256(3) == 0x1000000) by {
                    reveal_with_fuel(pow256, 4);
                }
            }
            let len: usize = len as usize;
            if extra_data.len() - 3 < len {
                return Err(DecodeError::Truncated);
            }
            proof {
                assert(leaf@.entry.signed_entry == leaf.entry.signed_entry@);
            }
            Ok(copy_range(extra_data, 3, 3 + len))
        },
    }
}

/// Selection law: an X509 leaf's certificate is its `signed_entry` exactly;
/// a pre-certificate leaf's certificate is a contiguous slice of
/// `extra_data`, so every byte of it comes from `extra_data`.
pub proof fn lemma_select_sources(l: MerkleTreeLeafModel, extra: Seq<u8>)
    ensures
        l.entry.entry_type == EntryType::X509Entry
            ==> spec_select_certificate(l, extra) == Ok::<Seq<u8>, DecodeError>(l.entry.signed_entry),
        ({
            let r = spec_select_certificate(l, extra);
            (l.entry.entry_type == EntryType::PrecertEntry && r is Ok)
                ==> extra.len() >= 3 && r->Ok_0 == extra.subrange(3, 3 + r->Ok_0.len() as int)
        }),
{
    if l.entry.entry_type == EntryType::PrecertEntry {
        let r = spec_select_certificate(l, extra);
        if r is Ok {
            let len = be_bytes_val(extra.subrange(0, 3));
            assert(r->Ok_0 == extra.subrange(3, 3 + len as int));
            assert(r->Ok_0.len() == len);
        }
    }
}

} // verus!
