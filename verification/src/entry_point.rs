//! What the entry point's answers mean: how a bundle is handed to it, and
//! how the data of a revert names what failed.

use crate::bundle_proposer::HandleOpsOut;
use crate::events::{event_topic, topic_of};
use crate::primitives::{zero_address, Address};
use crate::proposal::UserOpsPerAggregator;
use crate::uint::U256;
use vstd::prelude::*;
use vstd::slice::slice_subrange;

verus! {

/// The index and the reason that the ABI encoding `data` holds, read as a
/// `uint256` followed by a `string`; `None` where `data` is no such encoding.
pub uninterp spec fn failed_op_fields(data: Seq<u8>) -> Option<(U256, Seq<char>)>;

/// `ethers::abi::decode` for the types `uint256` and `string`: the two
/// values that the data encodes, or nothing where it encodes no such pair.
#[verifier::external_body]
fn abi_decode_failed_op(data: &[u8]) -> (r: Option<(U256, String)>)
    ensures
        match r {
            Some((index, reason)) => failed_op_fields(data@) == Some((index, reason@)),
            None => failed_op_fields(data@) is None,
        },
{
    let types = [ethers::abi::ParamType::Uint(256), ethers::abi::ParamType::String];
    let mut tokens = ethers::abi::decode(&types, data).ok()?.into_iter();
    match (tokens.next(), tokens.next()) {
        (Some(ethers::abi::Token::Uint(index)), Some(ethers::abi::Token::String(reason))) => Some(
            (U256 { limbs: index.0 }, reason),
        ),
        _ => None,
    }
}

/// The signature of the error by which the entry point blames an operation.
pub fn failed_op_signature() -> (s: &'static str)
    ensures
        s@ == "FailedOp(uint256,string)"@,
{
    "FailedOp(uint256,string)"
}

/// The signature of the error by which the entry point blames an aggregator.
pub fn signature_validation_failed_signature() -> (s: &'static str)
    ensures
        s@ == "SignatureValidationFailed(address)"@,
{
    "SignatureValidationFailed(address)"
}

/// True when `data` begins with the selector of the error with this
/// signature: the first four bytes of the signature's digest.
pub open spec fn has_selector(data: Seq<u8>, signature: Seq<char>) -> bool {
    data.len() >= 4 && data.subrange(0, 4) == topic_of(signature).subrange(0, 4)
}

/// Whether `data` begins with the selector of the error with this signature.
pub fn starts_with_selector(data: &Vec<u8>, signature: &str) -> (r: bool)
    ensures
        r == has_selector(data@, signature@),
{
    if data.len() < 4 {
        return false;
    }
    let digest = event_topic(signature);
    let mut i: usize = 0;
    while i < 4
        invariant
            i <= 4,
            data@.len() >= 4,
            digest.bytes@ == topic_of(signature@),
            forall|k: int| 0 <= k < i ==> data@[k] == digest.bytes@[k],
        decreases 4 - i,
    {
        if data[i] != digest.bytes[i] {
            assert(data@.subrange(0, 4)[i as int] != topic_of(signature@).subrange(0, 4)[i as int]);
            return false;
        }
        i += 1;
    }
    assert(data@.subrange(0, 4) =~= topic_of(signature@).subrange(0, 4));
    true
}

/// The address in the 32-byte word that follows the selector: the last 20
/// bytes of the word.
pub open spec fn address_argument(data: Seq<u8>) -> Address {
    Address {
        bytes: [
            data[16],
            data[17],
            data[18],
            data[19],
            data[20],
            data[21],
            data[22],
            data[23],
            data[24],
            data[25],
            data[26],
            data[27],
            data[28],
            data[29],
            data[30],
            data[31],
            data[32],
            data[33],
            data[34],
            data[35],
        ],
    }
}

/// What the data of a revert of `handleOps` says. A `FailedOp` error names
/// the place of an operation and a reason; a `SignatureValidationFailed`
/// error names an aggregator. Any other data says nothing, and neither does
/// a `FailedOp` whose place is past what a `usize` holds.
pub open spec fn revert_names(data: Seq<u8>, out: Option<HandleOpsOut>) -> bool {
    if has_selector(data, "FailedOp(uint256,string)"@) {
        match failed_op_fields(data.subrange(4, data.len() as int)) {
            Some((index, reason)) => if index.value() <= usize::MAX {
                out matches Some(HandleOpsOut::FailedOp(i, r)) && i == index.value() && r@ == reason
            } else {
                out is None
            },
            None => out is None,
        }
    } else if has_selector(data, "SignatureValidationFailed(address)"@) && data.len() >= 36 {
        out == Some(HandleOpsOut::SignatureValidationFailed(address_argument(data)))
    } else {
        out is None
    }
}

/// Reads the data of a revert of `handleOps`.
pub fn decode_handle_ops_revert(revert_data: &Vec<u8>) -> (out: Option<HandleOpsOut>)
    ensures
        revert_names(revert_data@, out),
{
    if starts_with_selector(revert_data, failed_op_signature()) {
        let arguments = slice_subrange(revert_data.as_slice(), 4, revert_data.len());
        return match abi_decode_failed_op(arguments) {
            Some((index, reason)) => match index.to_u64() {
                Some(i) => if i <= usize::MAX as u64 {
                    Some(HandleOpsOut::FailedOp(i as usize, reason))
                } else {
                    None
                },
                None => None,
            },
            None => None,
        };
    }
    if starts_with_selector(revert_data, signature_validation_failed_signature())
        && revert_data.len() >= 36 {
        let mut bytes = [0u8;20];
        let mut i: usize = 0;
        while i < 20
            invariant
                i <= 20,
                revert_data@.len() >= 36,
                forall|k: int| 0 <= k < i ==> bytes@[k] == revert_data@[k + 16],
            decreases 20 - i,
        {
            bytes[i] = revert_data[i + 16];
            i += 1;
        }
        let aggregator = Address { bytes };
        assert(aggregator.bytes =~= address_argument(revert_data@).bytes);
        return Some(HandleOpsOut::SignatureValidationFailed(aggregator));
    }
    None
}

/// Whether the bundle goes to the entry point by its plain `handleOps`
/// call: it does where it has a single group, and that without an
/// aggregator. Otherwise it goes by `handleAggregatedOps`.
pub fn uses_plain_handle_ops(ops_per_aggregator: &Vec<UserOpsPerAggregator>) -> (r: bool)
    ensures
        r == (ops_per_aggregator@.len() == 1 && ops_per_aggregator@[0].aggregator
            == zero_address()),
{
    ops_per_aggregator.len() == 1 && ops_per_aggregator[0].aggregator == Address::zero()
}

} // verus!
