//! Per-batch processing: leaf-decode each raw entry of a fetched batch,
//! select its certificate bytes, and skip — never abort on — entries that
//! fail to decode.

use vstd::prelude::*;
use crate::envelope::{RawEntry, RawEntryModel, spec_decode_entries, decode_entries};
use crate::errors::DecodeError;
use crate::leaf::{decode_leaf, select_certificate_bytes, spec_decode_leaf, spec_select_certificate};

verus! {

/// The certificate bytes a batch contributes: one element per entry whose
/// leaf decodes and whose certificate selection succeeds, in order; every
/// other entry is skipped.
pub open spec fn spec_batch_certificates(entries: Seq<RawEntryModel>) -> Seq<Seq<u8>>
    decreases entries.len(),
{
    if entries.len() == 0 {
        Seq::empty()
    } else {
        let head = entries[0];
        let rest = spec_batch_certificates(entries.drop_first());
        match spec_decode_leaf(head.leaf_input) {
            Err(_) => rest,
            Ok(l) => match spec_select_certificate(l, head.extra_data) {
                Err(_) => rest,
                Ok(c) => seq![c] + rest,
            },
        }
    }
}

/// Extracts the certificate bytes of every well-formed entry of a batch.
/// A per-entry decode failure removes only that entry's contribution.
pub fn batch_certificates(entries: &Vec<RawEntry>) -> (r: Vec<Vec<u8>>)
    ensures
        r@.map_values(|c: Vec<u8>| c@)
            == spec_batch_certificates(entries@.map_values(|e: RawEntry| e@)),
{
    let ghost entries_model = entries@.map_values(|e: RawEntry| e@);
    let mut out: Vec<Vec<u8>> = Vec::new();
    let mut i: usize = 0;
    proof {
        assert(entries_model.skip(0) =~= entries_model);
        assert(out@.map_values(|c: Vec<u8>| c@) + spec_batch_certificates(entries_model)
            =~= spec_batch_certificates(entries_model));
    }
    while i < entries.len()
        invariant
            i <= entries.len(),
            entries_model == entries@.map_values(|e: RawEntry| e@),
            spec_batch_certificates(entries_model)
                == out@.map_values(|c: Vec<u8>| c@)
                    + spec_batch_certificates(entries_model.skip(i as int)),
        decreases entries.len() - i,
    {
        proof {
            let rem = entries_model.skip(i as int);
            assert(rem.len() > 0);
            assert(rem[0] == entries_model[i as int]);
            assert(rem.drop_first() =~= entries_model.skip(i + 1));
        }
        match decode_leaf(&entries[i].leaf_input) {
            Err(_) => {},
            Ok(l) => {
                match select_certificate_bytes(&l, &entries[i].extra_data) {
                    Err(_) => {},
                    Ok(c) => {
                        let ghost out_pre = out@.map_values(|v: Vec<u8>| v@);
                        let ghost c_model = c@;
                        out.push(c);
                        proof {
                            assert(out@.map_values(|v: Vec<u8>| v@) =~= out_pre.push(c_model));
                            let rest = spec_batch_certificates(entries_model.skip(i + 1));
                            assert(out_pre + (seq![c_model] + rest)
                                =~= out_pre.push(c_model) + rest);
                        }
                    },
                }
            },
        }
        i = i + 1;
    }
    proof {
        assert(entries_model.skip(entries.len() as int) =~= Seq::<RawEntryModel>::empty());
        assert(out@.map_values(|c: Vec<u8>| c@) + Seq::<Seq<u8>>::empty()
            =~= out@.map_values(|c: Vec<u8>| c@));
    }
    out
}

/// A skipped entry contributes nothing and aborts nothing: the batch's
/// yield is the same with a failing entry removed.
pub proof fn lemma_failing_entry_skipped(entries: Seq<RawEntryModel>, k: int)
    requires
        0 <= k < entries.len(),
        (spec_decode_leaf(entries[k].leaf_input) is Err
            || (spec_decode_leaf(entries[k].leaf_input) matches Ok(l)
                && spec_select_certificate(l, entries[k].extra_data) is Err)),
    ensures
        spec_batch_certificates(entries) == spec_batch_certificates(entries.remove(k)),
    decreases entries.len(),
{
    if k == 0 {
        assert(entries.remove(0) =~= entries.drop_first());
    } else {
        lemma_failing_entry_skipped(entries.drop_first(), k - 1);
        assert(entries.remove(k).drop_first() =~= entries.drop_first().remove(k - 1));
        assert(entries.remove(k)[0] == entries[0]);
    }
}

/// Decodes a `get-entries` body under the skip-and-continue policy: a
/// malformed batch is treated as empty rather than failing the run.
pub fn entries_or_empty(body: &Vec<u8>) -> (r: Vec<RawEntry>)
    ensures
        (match spec_decode_entries(body@) {
            Ok(es) => r@.map_values(|e: RawEntry| e@) == es,
            Err(_) => r@.len() == 0,
        }),
{
    match decode_entries(body) {
        Ok(es) => es,
        Err(_) => Vec::new(),
    }
}

} // verus!
