//! Envelope codec: the JSON envelopes of the log's `get-sth` and
//! `get-entries` endpoints, and the base64 decoding of each entry's two
//! opaque fields.
//!
//! The grammar accepted is the shape these endpoints answer with: an object
//! whose members are the endpoint's known fields in any order, unsigned
//! integer and unescaped string values, and for `entries` an array of flat
//! two-field objects. A structurally different body is `Malformed`; a field
//! that does not base64-decode is `Encoding`.

use vstd::prelude::*;
use crate::b64::spec_b64_decode;
use crate::b64::b64_decode;
use crate::bytes::copy_range;
use crate::errors::DecodeError;

verus! {

/// The decoded `get-sth` envelope: a lower bound on how many entries exist.
#[derive(Debug, PartialEq)]
pub struct SignedTreeHead {
    pub tree_size: u64,
    pub timestamp: u64,
    pub root_hash: Vec<u8>,
    pub signature: Vec<u8>,
}

/// Mathematical model of an STH.
pub ghost struct SthModel {
    pub tree_size: u64,
    pub timestamp: u64,
    pub root_hash: Seq<u8>,
    pub signature: Seq<u8>,
}

impl View for SignedTreeHead {
    type V = SthModel;

    open spec fn view(&self) -> SthModel {
        SthModel {
            tree_size: self.tree_size,
            timestamp: self.timestamp,
            root_hash: self.root_hash@,
            signature: self.signature@,
        }
    }
}

/// One element of a `get-entries` response, both fields base64-decoded.
#[derive(Debug, PartialEq)]
pub struct RawEntry {
    pub leaf_input: Vec<u8>,
    pub extra_data: Vec<u8>,
}

/// Mathematical model of a raw entry.
pub ghost struct RawEntryModel {
    pub leaf_input: Seq<u8>,
    pub extra_data: Seq<u8>,
}

impl View for RawEntry {
    type V = RawEntryModel;

    open spec fn view(&self) -> RawEntryModel {
        RawEntryModel {
            leaf_input: self.leaf_input@,
            extra_data: self.extra_data@,
        }
    }
}

pub open spec fn is_json_ws(c: u8) -> bool {
    c == 32 || c == 9 || c == 10 || c == 13
}

/// The first position at or after `i` holding no JSON whitespace.
pub open spec fn spec_skip_ws(s: Seq<u8>, i: int) -> int
    decreases s.len() - i,
{
    if 0 <= i < s.len() && is_json_ws(s[i]) {
        spec_skip_ws(s, i + 1)
    } else {
        i
    }
}


fn skip_ws(s: &Vec<u8>, i: usize) -> (r: usize)
    requires
        i <= s.len(),
    ensures
        i <= r <= s.len(),
        r as int == spec_skip_ws(s@, i as int),
    decreases s.len() - i,
{
    if i < s.len() {
        let c = s[i];
        if c == 32 || c == 9 || c == 10 || c == 13 {
            return skip_ws(s, i + 1);
        }
    }
    i
}

/// The index of the closing quote of an unescaped string body starting at
/// `i`, or `None` where an escape, a control character, or the end of the
/// input intervenes.
pub open spec fn spec_str_end(s: Seq<u8>, i: int) -> Option<int>
    decreases s.len() - i,
{
    if i < 0 || i >= s.len() {
        None
    } else if s[i] == 34 {
        Some(i)
    } else if s[i] == 92 || s[i] < 32 {
        None
    } else {
        spec_str_end(s, i + 1)
    }
}


fn str_end(s: &Vec<u8>, i: usize) -> (r: Option<usize>)
    requires
        i <= s.len(),
    ensures
        (match r {
            Some(j) => spec_str_end(s@, i as int) == Some(j as int) && i <= j < s.len(),
            None => spec_str_end(s@, i as int) is None,
        }),
    decreases s.len() - i,
{
    if i >= s.len() {
        None
    } else {
        let c = s[i];
        if c == 34 {
            Some(i)
        } else if c == 92 || c < 32 {
            None
        } else {
            str_end(s, i + 1)
        }
    }
}

/// A JSON string at `i` with no escapes: its raw content bytes and the
/// position after the closing quote.
pub open spec fn spec_parse_string(s: Seq<u8>, i: int) -> Option<(Seq<u8>, int)> {
    if 0 <= i < s.len() && s[i] == 34 {
        match spec_str_end(s, i + 1) {
            None => None,
            Some(j) => Some((s.subrange(i + 1, j), j + 1)),
        }
    } else {
        None
    }
}

fn parse_string(s: &Vec<u8>, i: usize) -> (r: Option<(Vec<u8>, usize)>)
    requires
        i <= s.len(),
    ensures
        (match r {
            Some(p) => spec_parse_string(s@, i as int) == Some((p.0@, p.1 as int))
                && i < p.1 <= s.len(),
            None => spec_parse_string(s@, i as int) is None,
        }),
{
    if i < s.len() && s[i] == 34 {
        match str_end(s, i + 1) {
            None => None,
            Some(j) => {
                let content = copy_range(s, i + 1, j);
                Some((content, j + 1))
            },
        }
    } else {
        None
    }
}

/// An unsigned decimal number at `i`: its value and the position after the
/// last digit; `None` without a leading digit or past `u64::MAX`.
pub open spec fn spec_parse_u64_rec(s: Seq<u8>, i: int, acc: u64) -> Option<(u64, int)>
    decreases s.len() - i,
{
    if 0 <= i < s.len() && 48 <= s[i] <= 57 {
        let next = (acc as int) * 10 + (s[i] - 48);
        if next > u64::MAX {
            None
        } else {
            spec_parse_u64_rec(s, i + 1, next as u64)
        }
    } else {
        Some((acc, i))
    }
}

pub open spec fn spec_parse_u64(s: Seq<u8>, i: int) -> Option<(u64, int)> {
    if 0 <= i < s.len() && 48 <= s[i] <= 57 {
        spec_parse_u64_rec(s, i, 0)
    } else {
        None
    }
}


fn parse_u64_rec(s: &Vec<u8>, i: usize, acc: u64) -> (r: Option<(u64, usize)>)
    requires
        i <= s.len(),
    ensures
        (match r {
            Some(p) => spec_parse_u64_rec(s@, i as int, acc) == Some((p.0, p.1 as int))
                && i <= p.1 <= s.len(),
            None => spec_parse_u64_rec(s@, i as int, acc) is None,
        }),
    decreases s.len() - i,
{
    if i < s.len() {
        let c = s[i];
        if 48 <= c && c <= 57 {
            let wide: u128 = (acc as u128) * 10 + ((c - 48) as u128);
            if wide > u64::MAX as u128 {
                return None;
            }
            return parse_u64_rec(s, i + 1, wide as u64);
        }
    }
    Some((acc, i))
}

fn parse_u64(s: &Vec<u8>, i: usize) -> (r: Option<(u64, usize)>)
    requires
        i <= s.len(),
    ensures
        (match r {
            Some(p) => spec_parse_u64(s@, i as int) == Some((p.0, p.1 as int))
                && i <= p.1 <= s.len(),
            None => spec_parse_u64(s@, i as int) is None,
        }),
{
    if i < s.len() {
        let c = s[i];
        if 48 <= c && c <= 57 {
            return parse_u64_rec(s, i, 0);
        }
    }
    None
}

pub open spec fn key_tree_size() -> Seq<u8> {
    seq![116u8, 114, 101, 101, 95, 115, 105, 122, 101]
}

pub open spec fn key_timestamp() -> Seq<u8> {
    seq![116u8, 105, 109, 101, 115, 116, 97, 109, 112]
}

pub open spec fn key_root_hash() -> Seq<u8> {
    seq![115u8, 104, 97, 50, 53, 54, 95, 114, 111, 111, 116, 95, 104, 97, 115, 104]
}

pub open spec fn key_signature() -> Seq<u8> {
    seq![116u8, 114, 101, 101, 95, 104, 101, 97, 100, 95, 115, 105, 103, 110, 97, 116, 117, 114, 101]
}

pub open spec fn key_entries() -> Seq<u8> {
    seq![101u8, 110, 116, 114, 105, 101, 115]
}

pub open spec fn key_leaf_input() -> Seq<u8> {
    seq![108u8, 101, 97, 102, 95, 105, 110, 112, 117, 116]
}

pub open spec fn key_extra_data() -> Seq<u8> {
    seq![101u8, 120, 116, 114, 97, 95, 100, 97, 116, 97]
}

fn is_key_tree_size(k: &Vec<u8>) -> (r: bool)
    ensures
        r == (k@ == key_tree_size()),
{
    if k.len() != 9 {
        return false;
    }
    let r = k[0] == 116 && k[1] == 114 && k[2] == 101 && k[3] == 101 && k[4] == 95 && k[5] == 115
        && k[6] == 105 && k[7] == 122 && k[8] == 101;
    proof {
        if r {
            assert(k@ =~= key_tree_size());
        }
    }
    r
}

fn is_key_timestamp(k: &Vec<u8>) -> (r: bool)
    ensures
        r == (k@ == key_timestamp()),
{
    if k.len() != 9 {
        return false;
    }
    let r = k[0] == 116 && k[1] == 105 && k[2] == 109 && k[3] == 101 && k[4] == 115 && k[5] == 116
        && k[6] == 97 && k[7] == 109 && k[8] == 112;
    proof {
        if r {
            assert(k@ =~= key_timestamp());
        }
    }
    r
}

fn is_key_root_hash(k: &Vec<u8>) -> (r: bool)
    ensures
        r == (k@ == key_root_hash()),
{
    if k.len() != 16 {
        return false;
    }
    let r = k[0] == 115 && k[1] == 104 && k[2] == 97 && k[3] == 50 && k[4] == 53 && k[5] == 54
        && k[6] == 95 && k[7] == 114 && k[8] == 111 && k[9] == 111 && k[10] == 116 && k[11] == 95
        && k[12] == 104 && k[13] == 97 && k[14] == 115 && k[15] == 104;
    proof {
        if r {
            assert(k@ =~= key_root_hash());
        }
    }
    r
}

fn is_key_signature(k: &Vec<u8>) -> (r: bool)
    ensures
        r == (k@ == key_signature()),
{
    if k.len() != 19 {
        return false;
    }
    let r = k[0] == 116 && k[1] == 114 && k[2] == 101 && k[3] == 101 && k[4] == 95 && k[5] == 104
        && k[6] == 101 && k[7] == 97 && k[8] == 100 && k[9] == 95 && k[10] == 115 && k[11] == 105
        && k[12] == 103 && k[13] == 110 && k[14] == 97 && k[15] == 116 && k[16] == 117
        && k[17] == 114 && k[18] == 101;
    proof {
        if r {
            assert(k@ =~= key_signature());
        }
    }
    r
}

fn is_key_entries(k: &Vec<u8>) -> (r: bool)
    ensures
        r == (k@ == key_entries()),
{
    if k.len() != 7 {
        return false;
    }
    let r = k[0] == 101 && k[1] == 110 && k[2] == 116 && k[3] == 114 && k[4] == 105 && k[5] == 101
        && k[6] == 115;
    proof {
        if r {
            assert(k@ =~= key_entries());
        }
    }
    r
}

fn is_key_leaf_input(k: &Vec<u8>) -> (r: bool)
    ensures
        r == (k@ == key_leaf_input()),
{
    if k.len() != 10 {
        return false;
    }
    let r = k[0] == 108 && k[1] == 101 && k[2] == 97 && k[3] == 102 && k[4] == 95 && k[5] == 105
        && k[6] == 110 && k[7] == 112 && k[8] == 117 && k[9] == 116;
    proof {
        if r {
            assert(k@ =~= key_leaf_input());
        }
    }
    r
}

fn is_key_extra_data(k: &Vec<u8>) -> (r: bool)
    ensures
        r == (k@ == key_extra_data()),
{
    if k.len() != 10 {
        return false;
    }
    let r = k[0] == 101 && k[1] == 120 && k[2] == 116 && k[3] == 114 && k[4] == 97 && k[5] == 95
        && k[6] == 100 && k[7] == 97 && k[8] == 116 && k[9] == 97;
    proof {
        if r {
            assert(k@ =~= key_extra_data());
        }
    }
    r
}

/// The still-raw fields gathered while walking a `get-sth` object.
pub struct SthFields {
    pub tree_size: Option<u64>,
    pub timestamp: Option<u64>,
    pub root_hash: Option<Vec<u8>>,
    pub signature: Option<Vec<u8>>,
}

/// Model of the gathered fields.
pub ghost struct SthFieldsModel {
    pub tree_size: Option<u64>,
    pub timestamp: Option<u64>,
    pub root_hash: Option<Seq<u8>>,
    pub signature: Option<Seq<u8>>,
}

pub open spec fn opt_bytes_model(o: Option<Vec<u8>>) -> Option<Seq<u8>> {
    match o {
        Some(v) => Some(v@),
        None => None,
    }
}

impl View for SthFields {
    type V = SthFieldsModel;

    open spec fn view(&self) -> SthFieldsModel {
        SthFieldsModel {
            tree_size: self.tree_size,
            timestamp: self.timestamp,
            root_hash: opt_bytes_model(self.root_hash),
            signature: opt_bytes_model(self.signature),
        }
    }
}

/// The member list of a `get-sth` object from position `i` on: any order,
/// each key one of the endpoint's four, a later duplicate overwriting an
/// earlier value; ends at the closing brace.
pub open spec fn spec_sth_members(s: Seq<u8>, i: int, acc: SthFieldsModel, fuel: nat)
    -> Option<(SthFieldsModel, int)>
    decreases fuel,
{
    if fuel == 0 {
        None
    } else {
        let i1 = spec_skip_ws(s, i);
        match spec_parse_string(s, i1) {
            None => None,
            Some((key, i2)) => {
                let i3 = spec_skip_ws(s, i2);
                if !(i3 < s.len() && s[i3] == 58) {
                    None
                } else {
                    let i4 = spec_skip_ws(s, i3 + 1);
                    let step: Option<(SthFieldsModel, int)> = if key == key_tree_size() {
                        match spec_parse_u64(s, i4) {
                            None => None,
                            Some((v, i5)) => Some((SthFieldsModel { tree_size: Some(v), ..acc }, i5)),
                        }
                    } else if key == key_timestamp() {
                        match spec_parse_u64(s, i4) {
                            None => None,
                            Some((v, i5)) => Some((SthFieldsModel { timestamp: Some(v), ..acc }, i5)),
                        }
                    } else if key == key_root_hash() {
                        match spec_parse_string(s, i4) {
                            None => None,
                            Some((v, i5)) => Some((SthFieldsModel { root_hash: Some(v), ..acc }, i5)),
                        }
                    } else if key == key_signature() {
                        match spec_parse_string(s, i4) {
                            None => None,
                            Some((v, i5)) => Some((SthFieldsModel { signature: Some(v), ..acc }, i5)),
                        }
                    } else {
                        None
                    };
                    match step {
                        None => None,
                        Some((acc2, i5)) => {
                            let i6 = spec_skip_ws(s, i5);
                            if i6 < s.len() && s[i6] == 44 {
                                spec_sth_members(s, i6 + 1, acc2, (fuel - 1) as nat)
                            } else if i6 < s.len() && s[i6] == 125 {
                                Some((acc2, i6 + 1))
                            } else {
                                None
                            }
                        },
                    }
                }
            },
        }
    }
}

fn sth_members(s: &Vec<u8>, i: usize, acc: SthFields, fuel: usize) -> (r: Option<(SthFields, usize)>)
    requires
        i <= s.len(),
    ensures
        (match r {
            Some(p) => spec_sth_members(s@, i as int, acc@, fuel as nat) == Some((p.0@, p.1 as int))
                && p.1 <= s.len(),
            None => spec_sth_members(s@, i as int, acc@, fuel as nat) is None,
        }),
    decreases fuel,
{
    if fuel == 0 {
        return None;
    }
    let i1 = skip_ws(s, i);
    let (key, i2) = match parse_string(s, i1) {
        None => {
            return None;
        },
        Some(p) => p,
    };
    let i3 = skip_ws(s, i2);
    if !(i3 < s.len() && s[i3] == 58) {
        return None;
    }
    let i4 = skip_ws(s, i3 + 1);
    let mut acc = acc;
    let i5: usize;
    if is_key_tree_size(&key) {
        match parse_u64(s, i4) {
            None => {
                return None;
            },
            Some(p) => {
                acc.tree_size = Some(p.0);
                i5 = p.1;
            },
        }
    } else if is_key_timestamp(&key) {
        match parse_u64(s, i4) {
            None => {
                return None;
            },
            Some(p) => {
                acc.timestamp = Some(p.0);
                i5 = p.1;
            },
        }
    } else if is_key_root_hash(&key) {
        match parse_string(s, i4) {
            None => {
                return None;
            },
            Some(p) => {
                acc.root_hash = Some(p.0);
                i5 = p.1;
            },
        }
    } else if is_key_signature(&key) {
        match parse_string(s, i4) {
            None => {
                return None;
            },
            Some(p) => {
                acc.signature = Some(p.0);
                i5 = p.1;
            },
        }
    } else {
        return None;
    }
    let i6 = skip_ws(s, i5);
    if i6 < s.len() && s[i6] == 44 {
        sth_members(s, i6 + 1, acc, fuel - 1)
    } else if i6 < s.len() && s[i6] == 125 {
        Some((acc, i6 + 1))
    } else {
        None
    }
}

/// What `decode_sth` returns: the object parsed as above, no bytes but
/// whitespace around it, all four fields present, and the two opaque fields
/// base64-decoded — `Malformed` for a structural fault, `Encoding` for a
/// base64 fault.
pub open spec fn spec_decode_sth(s: Seq<u8>) -> Result<SthModel, DecodeError> {
    let i0 = spec_skip_ws(s, 0);
    if !(i0 < s.len() && s[i0] == 123) {
        Err(DecodeError::Malformed)
    } else {
        let start = SthFieldsModel {
            tree_size: None,
            timestamp: None,
            root_hash: None,
            signature: None,
        };
        match spec_sth_members(s, i0 + 1, start, s.len()) {
            None => Err(DecodeError::Malformed),
            Some((acc, j)) => {
                if spec_skip_ws(s, j) != s.len() {
                    Err(DecodeError::Malformed)
                } else {
                    match (acc.tree_size, acc.timestamp, acc.root_hash, acc.signature) {
                        (Some(ts), Some(tm), Some(rh), Some(sg)) => {
                            match (spec_b64_decode(rh), spec_b64_decode(sg)) {
                                (Some(rhb), Some(sgb)) => Ok(SthModel {
                                    tree_size: ts,
                                    timestamp: tm,
                                    root_hash: rhb,
                                    signature: sgb,
                                }),
                                _ => Err(DecodeError::Encoding),
                            }
                        },
                        _ => Err(DecodeError::Malformed),
                    }
                }
            },
        }
    }
}

/// Decodes a `get-sth` response body.
pub fn decode_sth(body: &Vec<u8>) -> (r: Result<SignedTreeHead, DecodeError>)
    ensures
        (match r {
            Ok(sth) => Ok(sth@),
            Err(e) => Err::<SthModel, DecodeError>(e),
        }) == spec_decode_sth(body@),
{
    let i0 = skip_ws(body, 0);
    if !(i0 < body.len() && body[i0] == 123) {
        return Err(DecodeError::Malformed);
    }
    let start = SthFields { tree_size: None, timestamp: None, root_hash: None, signature: None };
    let (acc, j) = match sth_members(body, i0 + 1, start, body.len()) {
        None => {
            return Err(DecodeError::Malformed);
        },
        Some(p) => p,
    };
    if skip_ws(body, j) != body.len() {
        return Err(DecodeError::Malformed);
    }
    match (acc.tree_size, acc.timestamp, acc.root_hash, acc.signature) {
        (Some(ts), Some(tm), Some(rh), Some(sg)) => {
            let rhb = b64_decode(&rh);
            let sgb = b64_decode(&sg);
            match (rhb, sgb) {
                (Some(rhb), Some(sgb)) => Ok(SignedTreeHead {
                    tree_size: ts,
                    timestamp: tm,
                    root_hash: rhb,
                    signature: sgb,
                }),
                _ => Err(DecodeError::Encoding),
            }
        },
        _ => Err(DecodeError::Malformed),
    }
}

/// The still-raw fields gathered while walking one entry object.
pub struct EntryFields {
    pub leaf_input: Option<Vec<u8>>,
    pub extra_data: Option<Vec<u8>>,
}

/// Model of the gathered entry fields.
pub ghost struct EntryFieldsModel {
    pub leaf_input: Option<Seq<u8>>,
    pub extra_data: Option<Seq<u8>>,
}

impl View for EntryFields {
    type V = EntryFieldsModel;

    open spec fn view(&self) -> EntryFieldsModel {
        EntryFieldsModel {
            leaf_input: opt_bytes_model(self.leaf_input),
            extra_data: opt_bytes_model(self.extra_data),
        }
    }
}

/// The member list of one entry object: `leaf_input` and `extra_data`
/// string values in either order.
pub open spec fn spec_entry_members(s: Seq<u8>, i: int, acc: EntryFieldsModel, fuel: nat)
    -> Option<(EntryFieldsModel, int)>
    decreases fuel,
{
    if fuel == 0 {
        None
    } else {
        let i1 = spec_skip_ws(s, i);
        match spec_parse_string(s, i1) {
            None => None,
            Some((key, i2)) => {
                let i3 = spec_skip_ws(s, i2);
                if !(i3 < s.len() && s[i3] == 58) {
                    None
                } else {
                    let i4 = spec_skip_ws(s, i3 + 1);
                    let step: Option<(EntryFieldsModel, int)> = if key == key_leaf_input() {
                        match spec_parse_string(s, i4) {
                            None => None,
                            Some((v, i5)) => Some((EntryFieldsModel { leaf_input: Some(v), ..acc }, i5)),
                        }
                    } else if key == key_extra_data() {
                        match spec_parse_string(s, i4) {
                            None => None,
                            Some((v, i5)) => Some((EntryFieldsModel { extra_data: Some(v), ..acc }, i5)),
                        }
                    } else {
                        None
                    };
                    match step {
                        None => None,
                        Some((acc2, i5)) => {
                            let i6 = spec_skip_ws(s, i5);
                            if i6 < s.len() && s[i6] == 44 {
                                spec_entry_members(s, i6 + 1, acc2, (fuel - 1) as nat)
                            } else if i6 < s.len() && s[i6] == 125 {
                                Some((acc2, i6 + 1))
                            } else {
                                None
                            }
                        },
                    }
                }
            },
        }
    }
}

fn entry_members(s: &Vec<u8>, i: usize, acc: EntryFields, fuel: usize)
    -> (r: Option<(EntryFields, usize)>)
    requires
        i <= s.len(),
    ensures
        (match r {
            Some(p) => spec_entry_members(s@, i as int, acc@, fuel as nat)
                == Some((p.0@, p.1 as int)) && p.1 <= s.len(),
            None => spec_entry_members(s@, i as int, acc@, fuel as nat) is None,
        }),
    decreases fuel,
{
    if fuel == 0 {
        return None;
    }
    let i1 = skip_ws(s, i);
    let (key, i2) = match parse_string(s, i1) {
        None => {
            return None;
        },
        Some(p) => p,
    };
    let i3 = skip_ws(s, i2);
    if !(i3 < s.len() && s[i3] == 58) {
        return None;
    }
    let i4 = skip_ws(s, i3 + 1);
    let mut acc = acc;
    let i5: usize;
    if is_key_leaf_input(&key) {
        match parse_string(s, i4) {
            None => {
                return None;
            },
            Some(p) => {
                acc.leaf_input = Some(p.0);
                i5 = p.1;
            },
        }
    } else if is_key_extra_data(&key) {
        match parse_string(s, i4) {
            None => {
                return None;
            },
            Some(p) => {
                acc.extra_data = Some(p.0);
                i5 = p.1;
            },
        }
    } else {
        return None;
    }
    let i6 = skip_ws(s, i5);
    if i6 < s.len() && s[i6] == 44 {
        entry_members(s, i6 + 1, acc, fuel - 1)
    } else if i6 < s.len() && s[i6] == 125 {
        Some((acc, i6 + 1))
    } else {
        None
    }
}

/// The `entries` array from position `i` (just after `[` or after a comma):
/// flat two-field objects, both fields required, gathered in order; ends at
/// the closing bracket.
pub open spec fn spec_entries_array(s: Seq<u8>, i: int, acc: Seq<RawEntryModel>, fuel: nat)
    -> Option<(Seq<RawEntryModel>, int)>
    decreases fuel,
{
    if fuel == 0 {
        None
    } else {
        let i1 = spec_skip_ws(s, i);
        if i1 < s.len() && s[i1] == 93 && acc.len() == 0 {
            Some((acc, i1 + 1))
        } else if i1 < s.len() && s[i1] == 123 {
            let start = EntryFieldsModel { leaf_input: None, extra_data: None };
            match spec_entry_members(s, i1 + 1, start, s.len()) {
                None => None,
                Some((fields, j)) => {
                    match (fields.leaf_input, fields.extra_data) {
                        (Some(li), Some(ed)) => {
                            let acc2 = acc.push(RawEntryModel { leaf_input: li, extra_data: ed });
                            let j1 = spec_skip_ws(s, j);
                            if j1 < s.len() && s[j1] == 44 {
                                spec_entries_array(s, j1 + 1, acc2, (fuel - 1) as nat)
                            } else if j1 < s.len() && s[j1] == 93 {
                                Some((acc2, j1 + 1))
                            } else {
                                None
                            }
                        },
                        _ => None,
                    }
                },
            }
        } else {
            None
        }
    }
}

fn entries_array(s: &Vec<u8>, i: usize, acc: Vec<RawEntry>, fuel: usize)
    -> (r: Option<(Vec<RawEntry>, usize)>)
    requires
        i <= s.len(),
    ensures
        (match r {
            Some(p) => spec_entries_array(
                s@, i as int, acc@.map_values(|e: RawEntry| e@), fuel as nat,
            ) == Some((p.0@.map_values(|e: RawEntry| e@), p.1 as int)) && p.1 <= s.len(),
            None => spec_entries_array(
                s@, i as int, acc@.map_values(|e: RawEntry| e@), fuel as nat,
            ) is None,
        }),
    decreases fuel,
{
    if fuel == 0 {
        return None;
    }
    let i1 = skip_ws(s, i);
    if i1 < s.len() && s[i1] == 93 && acc.len() == 0 {
        proof {
            assert(acc@.map_values(|e: RawEntry| e@).len() == 0);
        }
        return Some((acc, i1 + 1));
    }
    if i1 < s.len() && s[i1] == 123 {
        let start = EntryFields { leaf_input: None, extra_data: None };
        let (fields, j) = match entry_members(s, i1 + 1, start, s.len()) {
            None => {
                return None;
            },
            Some(p) => p,
        };
        match (fields.leaf_input, fields.extra_data) {
            (Some(li), Some(ed)) => {
                let mut acc = acc;
                let ghost acc_pre = acc@.map_values(|e: RawEntry| e@);
                acc.push(RawEntry { leaf_input: li, extra_data: ed });
                proof {
                    assert(acc@.map_values(|e: RawEntry| e@)
                        =~= acc_pre.push(acc@.last()@));
                }
                let j1 = skip_ws(s, j);
                if j1 < s.len() && s[j1] == 44 {
                    entries_array(s, j1 + 1, acc, fuel - 1)
                } else if j1 < s.len() && s[j1] == 93 {
                    Some((acc, j1 + 1))
                } else {
                    None
                }
            },
            _ => None,
        }
    } else {
        None
    }
}

/// Base64-decodes both fields of every gathered entry; the first field
/// that does not decode fails the whole batch with `Encoding`.
pub open spec fn spec_b64_entries(raw: Seq<RawEntryModel>) -> Result<Seq<RawEntryModel>, DecodeError>
    decreases raw.len(),
{
    if raw.len() == 0 {
        Ok(Seq::empty())
    } else {
        match (spec_b64_decode(raw[0].leaf_input), spec_b64_decode(raw[0].extra_data)) {
            (Some(li), Some(ed)) => {
                match spec_b64_entries(raw.drop_first()) {
                    Ok(rest) => Ok(seq![RawEntryModel { leaf_input: li, extra_data: ed }] + rest),
                    Err(e) => Err(e),
                }
            },
            _ => Err(DecodeError::Encoding),
        }
    }
}

/// What `decode_entries` returns: the one-member `entries` object parsed as
/// above with nothing but whitespace around it, and every entry's two
/// fields base64-decoded.
pub open spec fn spec_decode_entries(s: Seq<u8>) -> Result<Seq<RawEntryModel>, DecodeError> {
    let i0 = spec_skip_ws(s, 0);
    if !(i0 < s.len() && s[i0] == 123) {
        Err(DecodeError::Malformed)
    } else {
        let i1 = spec_skip_ws(s, i0 + 1);
        match spec_parse_string(s, i1) {
            None => Err(DecodeError::Malformed),
            Some((key, i2)) => {
                if key != key_entries() {
                    Err(DecodeError::Malformed)
                } else {
                    let i3 = spec_skip_ws(s, i2);
                    if !(i3 < s.len() && s[i3] == 58) {
                        Err(DecodeError::Malformed)
                    } else {
                        let i4 = spec_skip_ws(s, i3 + 1);
                        if !(i4 < s.len() && s[i4] == 91) {
                            Err(DecodeError::Malformed)
                        } else {
                            match spec_entries_array(s, i4 + 1, Seq::empty(), s.len()) {
                                None => Err(DecodeError::Malformed),
                                Some((raw, j)) => {
                                    let j1 = spec_skip_ws(s, j);
                                    if !(j1 < s.len() && s[j1] == 125) {
                                        Err(DecodeError::Malformed)
                                    } else if spec_skip_ws(s, j1 + 1) != s.len() {
                                        Err(DecodeError::Malformed)
                                    } else {
                                        spec_b64_entries(raw)
                                    }
                                },
                            }
                        }
                    }
                }
            },
        }
    }
}

/// Decodes a `get-entries` response body.
pub fn decode_entries(body: &Vec<u8>) -> (r: Result<Vec<RawEntry>, DecodeError>)
    ensures
        (match r {
            Ok(es) => Ok(es@.map_values(|e: RawEntry| e@)),
            Err(e) => Err::<Seq<RawEntryModel>, DecodeError>(e),
        }) == spec_decode_entries(body@),
{
    let i0 = skip_ws(body, 0);
    if !(i0 < body.len() && body[i0] == 123) {
        return Err(DecodeError::Malformed);
    }
    let i1 = skip_ws(body, i0 + 1);
    let (key, i2) = match parse_string(body, i1) {
        None => {
            return Err(DecodeError::Malformed);
        },
        Some(p) => p,
    };
    if !is_key_entries(&key) {
        return Err(DecodeError::Malformed);
    }
    let i3 = skip_ws(body, i2);
    if !(i3 < body.len() && body[i3] == 58) {
        return Err(DecodeError::Malformed);
    }
    let i4 = skip_ws(body, i3 + 1);
    if !(i4 < body.len() && body[i4] == 91) {
        return Err(DecodeError::Malformed);
    }
    let empty_acc: Vec<RawEntry> = Vec::new();
    proof {
        assert(empty_acc@.map_values(|e: RawEntry| e@) =~= Seq::<RawEntryModel>::empty());
    }
    let (raw, j) = match entries_array(body, i4 + 1, empty_acc, body.len()) {
        None => {
            return Err(DecodeError::Malformed);
        },
        Some(p) => p,
    };
    let j1 = skip_ws(body, j);
    if !(j1 < body.len() && body[j1] == 125) {
        return Err(DecodeError::Malformed);
    }
    if skip_ws(body, j1 + 1) != body.len() {
        return Err(DecodeError::Malformed);
    }
    b64_entries(&raw)
}

fn b64_entries(raw: &Vec<RawEntry>) -> (r: Result<Vec<RawEntry>, DecodeError>)
    ensures
        (match r {
            Ok(es) => Ok(es@.map_values(|e: RawEntry| e@)),
            Err(e) => Err::<Seq<RawEntryModel>, DecodeError>(e),
        }) == spec_b64_entries(raw@.map_values(|e: RawEntry| e@)),
{
    let ghost raw_model = raw@.map_values(|e: RawEntry| e@);
    let mut out: Vec<RawEntry> = Vec::new();
    let mut i: usize = 0;
    proof {
        assert(raw_model.skip(0) =~= raw_model);
    }
    while i < raw.len()
        invariant
            i <= raw.len(),
            raw_model == raw@.map_values(|e: RawEntry| e@),
            spec_b64_entries(raw_model) == (match spec_b64_entries(raw_model.skip(i as int)) {
                Ok(rest) => Ok(out@.map_values(|e: RawEntry| e@) + rest),
                Err(e) => Err::<Seq<RawEntryModel>, DecodeError>(e),
            }),
        decreases raw.len() - i,
    {
        let li = b64_decode(&raw[i].leaf_input);
        let ed = b64_decode(&raw[i].extra_data);
        proof {
            let rem = raw_model.skip(i as int);
            assert(rem.len() > 0);
            assert(rem[0] == raw_model[i as int]);
            assert(rem.drop_first() =~= raw_model.skip(i + 1));
        }
        match (li, ed) {
            (Some(li), Some(ed)) => {
                let ghost out_pre = out@.map_values(|e: RawEntry| e@);
                out.push(RawEntry { leaf_input: li, extra_data: ed });
                proof {
                    let decoded = RawEntryModel { leaf_input: li@, extra_data: ed@ };
                    assert(out@.map_values(|e: RawEntry| e@) =~= out_pre.push(decoded));
                    if spec_b64_entries(raw_model.skip(i + 1)) is Ok {
                        let rest = spec_b64_entries(raw_model.skip(i + 1))->Ok_0;
                        assert(out_pre + (seq![decoded] + rest)
                            =~= out_pre.push(decoded) + rest);
                    }
                }
            },
            _ => {
                return Err(DecodeError::Encoding);
            },
        }
        i = i + 1;
    }
    proof {
        assert(raw_model.skip(raw.len() as int) =~= Seq::<RawEntryModel>::empty());
        assert(out@.map_values(|e: RawEntry| e@) + Seq::<RawEntryModel>::empty()
            =~= out@.map_values(|e: RawEntry| e@));
    }
    Ok(out)
}

} // verus!
