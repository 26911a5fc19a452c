//! Encoded sizes of EDNS options and of the OPT pseudo-record.

use vstd::prelude::*;
use crate::rdata::basic::{Edns, EdnsOption, spec_payload_len};
use crate::wire::rdata::basic::{spec_encode_option, spec_encode_options, spec_encode_edns_record, spec_option_views};

verus! {

/// Encoded size of a list of options, each `[code:2][length:2][data]`.
pub open spec fn spec_options_len(os: Seq<EdnsOption>) -> int
    decreases os.len(),
{
    if os.len() == 0 {
        0
    } else {
        spec_options_len(os.drop_last()) + 4 + spec_payload_len(os.last())
    }
}

/// Encoded size of one EDNS option: `[code:2][length:2][data:N]`.
pub fn edns_option_len(option: &EdnsOption) -> (n: usize)
    requires
        4 + spec_payload_len(*option) <= usize::MAX,
    ensures
        n == 4 + spec_payload_len(*option),
{
    4 + option.payload_len()
}

/// An option list never takes a negative size.
pub proof fn lemma_options_len_nonneg(os: Seq<EdnsOption>)
    ensures
        spec_options_len(os) >= 0,
    decreases os.len(),
{
    if os.len() > 0 {
        lemma_options_len_nonneg(os.drop_last());
    }
}

/// Encoded size of a list of options.
pub fn options_len(options: &Vec<EdnsOption>) -> (n: usize)
    requires
        spec_options_len(options@) <= usize::MAX,
    ensures
        n == spec_options_len(options@),
{
    let mut total: usize = 0;
    let mut i: usize = 0;
    while i < options.len()
        invariant
            i <= options@.len(),
            spec_options_len(options@) <= usize::MAX,
            total == spec_options_len(options@.take(i as int)),
        decreases options.len() - i,
    {
        proof {
            assert(options@.take(i + 1).drop_last() =~= options@.take(i as int));
            lemma_options_len_prefix(options@, i + 1);
            lemma_options_len_nonneg(options@.take(i as int));
        }
        total = total + edns_option_len(&options[i]);
        i = i + 1;
    }
    proof {
        assert(options@.take(options@.len() as int) =~= options@);
    }
    total
}

/// Encoded size of the OPT pseudo-record carrying `edns`: owner, type,
/// class, TTL and RDLENGTH (eleven bytes) plus the options.
pub fn edns_record_len(edns: &Edns) -> (n: usize)
    requires
        11 + spec_options_len(edns.options@) <= usize::MAX,
    ensures
        n == 11 + spec_options_len(edns.options@),
{
    11 + options_len(&edns.options)
}

/// A prefix of an option list takes no more than the whole list.
pub proof fn lemma_options_len_prefix(os: Seq<EdnsOption>, k: int)
    requires
        0 <= k <= os.len(),
    ensures
        spec_options_len(os.take(k)) <= spec_options_len(os),
    decreases os.len() - k,
{
    if k < os.len() {
        lemma_options_len_prefix(os, k + 1);
        assert(os.take(k + 1).drop_last() =~= os.take(k));
        lemma_options_len_nonneg(os.take(k));
        assert(spec_payload_len(os.take(k + 1).last()) >= 0);
    } else {
        assert(os.take(k) =~= os);
    }
}

/// The size an option reports is the size its encoding takes: four header
/// bytes plus the payload length.
pub proof fn lemma_option_len_matches_encoding(o: EdnsOption)
    ensures
        spec_encode_option(o@) matches Some(b) ==> b.len() == 4 + spec_payload_len(o),
{
    match o {
        EdnsOption::Subnet(x) => {
            match x.addr {
                crate::rdata::basic::IpAddr::V4(a) => assert(a@.len() == 4),
                crate::rdata::basic::IpAddr::V6(a) => assert(a@.len() == 16),
            }
        },
        _ => {},
    }
}

/// An option list encodes to as many bytes as its sizes add up to.
pub proof fn lemma_options_encoding_len(os: Seq<EdnsOption>)
    ensures
        spec_encode_options(spec_option_views(os)) matches Some(b) ==> b.len() == spec_options_len(os),
    decreases os.len(),
{
    if os.len() > 0 {
        lemma_options_encoding_len(os.drop_last());
        assert(spec_option_views(os).drop_last() =~= spec_option_views(os.drop_last()));
        lemma_option_len_matches_encoding(os.last());
    }
}

/// The size reported for the OPT pseudo-record is the size of its
/// encoding.
pub proof fn lemma_record_len_matches_encoding(edns: Edns, ext_rcode: u8)
    ensures
        spec_encode_edns_record(edns@, ext_rcode) matches Some(b) ==> b.len() == 11
            + spec_options_len(edns.options@),
{
    lemma_options_encoding_len(edns.options@);
}

} // verus!
