//! The batch query for the value that pools hold in the reference asset.
//!
//! One request names a group of pools, the exchanges they may come from and
//! the reference asset. The node answers with an ABI-encoded array of 256-bit
//! unsigned integers: one value for each pool of the group, in the group's
//! order. A pool whose tokens cannot be priced is valued at zero.

use vstd::prelude::*;
use crate::errors::FilterError;
use crate::pool::{Dex, Pool};
use crate::primitives::{Address, U256};

verus! {

/// What one request carries, in the order of the query's arguments.
#[derive(Debug)]
pub struct BatchRequest {
    /// The address of each pool of the group.
    pub amms: Vec<Address>,
    /// The factory address of each exchange.
    pub factories: Vec<Address>,
    /// For each exchange, whether its pools hold concentrated liquidity.
    pub factory_is_uni_v3: Vec<bool>,
    /// The reference asset.
    pub weth: Address,
    /// The least reference-asset reserve at which a pool is trusted as a
    /// price source.
    pub weth_value_in_token_to_weth_pool_threshold: U256,
}

/// A decoded array element: the integer it holds, or `None` where it is not
/// an unsigned integer.
pub type DecodedElement = Option<U256>;

/// A decoded top-level token: its elements, or `None` where it is not an
/// array.
pub type DecodedToken = Option<Vec<DecodedElement>>;

/// A decoded token with its elements as a sequence.
pub open spec fn token_view(token: DecodedToken) -> Option<Seq<DecodedElement>> {
    match token {
        Some(elements) => Some(elements@),
        None => None,
    }
}

/// Decoded tokens with the elements of each as a sequence.
pub open spec fn tokens_view(tokens: Seq<DecodedToken>) -> Seq<Option<Seq<DecodedElement>>> {
    tokens.map_values(|token: DecodedToken| token_view(token))
}

/// The unsigned integers among `elements`, in order.
pub open spec fn uints_among(elements: Seq<DecodedElement>) -> Seq<U256>
    decreases elements.len(),
{
    if elements.len() == 0 {
        Seq::empty()
    } else {
        let before = uints_among(elements.drop_last());
        match elements.last() {
            Some(value) => before.push(value),
            None => before,
        }
    }
}

/// The unsigned integers inside the arrays among `tokens`, in order.
pub open spec fn uint_values(tokens: Seq<Option<Seq<DecodedElement>>>) -> Seq<U256>
    decreases tokens.len(),
{
    if tokens.len() == 0 {
        Seq::empty()
    } else {
        let before = uint_values(tokens.drop_last());
        match tokens.last() {
            Some(elements) => before + uints_among(elements),
            None => before,
        }
    }
}

/// What `ethers::abi::decode` makes of `return_data` when asked for one array
/// of 256-bit unsigned integers: `None` where it fails, else its tokens.
pub uninterp spec fn abi_decoded_uint_array(return_data: Seq<u8>) -> Option<Seq<Option<Seq<DecodedElement>>>>;

/// The values of a group of `expected` pools, given what the response decoded
/// to: the integers of the decoded arrays, if the response decoded and they
/// are `expected` in number.
pub open spec fn spec_batch_values(
    decoded: Option<Seq<Option<Seq<DecodedElement>>>>,
    expected: nat,
) -> Result<Seq<U256>, FilterError> {
    match decoded {
        Some(tokens) => if uint_values(tokens).len() == expected {
            Ok(uint_values(tokens))
        } else {
            Err(FilterError::ProtocolDecodeError)
        },
        None => Err(FilterError::ProtocolDecodeError),
    }
}

/// Calls `ethers::abi::decode` on `return_data` with the one parameter type
/// "array of `uint256`", then `Token::into_array` on each token that comes
/// back and `Token::into_uint` on each element. The decoder reads nothing but
/// its arguments, so its result is a function of `return_data`: the contract
/// gives that function a name and claims no more.
#[verifier::external_body]
fn decode_uint_array(return_data: &[u8]) -> (r: Option<Vec<DecodedToken>>)
    ensures
        match r {
            Some(tokens) => abi_decoded_uint_array(return_data@) == Some(tokens_view(tokens@)),
            None => abi_decoded_uint_array(return_data@) is None,
        },
{
    let kinds = [ethers::abi::ParamType::Array(Box::new(ethers::abi::ParamType::Uint(256)))];
    let tokens = ethers::abi::decode(&kinds, return_data).ok()?;
    Some(tokens.into_iter().map(|token| token.into_array().map(|elements|
        elements.into_iter().map(|element| element.into_uint().map(|value|
            U256 { w0: value.0[0], w1: value.0[1], w2: value.0[2], w3: value.0[3] }
        )).collect()
    )).collect())
}

/// What one request carries for the group `amms`: the pools' addresses in the
/// group's order, and for each exchange its factory address and whether its
/// pools hold concentrated liquidity, in the order of `factories`.
pub fn batch_request(
    amms: &[Pool],
    factories: &[Dex],
    weth: Address,
    weth_value_in_token_to_weth_pool_threshold: U256,
) -> (request: BatchRequest)
    ensures
        request.amms.len() == amms.len(),
        forall|i: int| 0 <= i < amms.len() ==> request.amms[i] == (#[trigger] amms[i]).spec_address(),
        request.factories.len() == factories.len(),
        request.factory_is_uni_v3.len() == factories.len(),
        forall|i: int|
            0 <= i < factories.len() ==> {
                &&& request.factories[i] == (#[trigger] factories[i]).factory_address
                &&& request.factory_is_uni_v3[i] == factories[i].spec_is_concentrated()
            },
        request.weth == weth,
        request.weth_value_in_token_to_weth_pool_threshold
            == weth_value_in_token_to_weth_pool_threshold,
{
    let mut addresses: Vec<Address> = Vec::new();
    let mut i: usize = 0;
    while i < amms.len()
        invariant
            i <= amms.len(),
            addresses.len() == i,
            forall|k: int| 0 <= k < i ==> addresses[k] == (#[trigger] amms[k]).spec_address(),
        decreases amms.len() - i,
    {
        addresses.push(amms[i].address());
        i += 1;
    }
    let mut factory_addresses: Vec<Address> = Vec::new();
    let mut factory_is_uni_v3: Vec<bool> = Vec::new();
    let mut j: usize = 0;
    while j < factories.len()
        invariant
            j <= factories.len(),
            factory_addresses.len() == j,
            factory_is_uni_v3.len() == j,
            forall|k: int|
                0 <= k < j ==> {
                    &&& factory_addresses[k] == (#[trigger] factories[k]).factory_address
                    &&& factory_is_uni_v3[k] == factories[k].spec_is_concentrated()
                },
        decreases factories.len() - j,
    {
        factory_addresses.push(factories[j].factory_address());
        factory_is_uni_v3.push(factories[j].is_concentrated());
        j += 1;
    }
    BatchRequest {
        amms: addresses,
        factories: factory_addresses,
        factory_is_uni_v3,
        weth,
        weth_value_in_token_to_weth_pool_threshold,
    }
}

/// The unsigned integers among `elements`, in order.
fn collect_uints(elements: &Vec<DecodedElement>, values: &mut Vec<U256>)
    ensures
        final(values)@ == old(values)@ + uints_among(elements@),
{
    let ghost start = values@;
    let mut i: usize = 0;
    while i < elements.len()
        invariant
            i <= elements.len(),
            values@ == start + uints_among(elements@.take(i as int)),
        decreases elements.len() - i,
    {
        proof {
            assert(elements@.take(i as int + 1).drop_last() =~= elements@.take(i as int));
            assert(elements@.take(i as int + 1).last() == elements[i as int]);
        }
        if let Some(value) = elements[i] {
            values.push(value);
            assert(values@ =~= start + uints_among(elements@.take(i as int + 1)));
        }
        i += 1;
    }
    assert(elements@.take(i as int) =~= elements@);
}

/// The values that decoded tokens hold: the unsigned integers inside the
/// arrays among them, in order. A token that is no array, and an element that
/// is no unsigned integer, is passed over.
pub fn weth_values_from_tokens(tokens: &Vec<DecodedToken>) -> (values: Vec<U256>)
    ensures
        values@ == uint_values(tokens_view(tokens@)),
{
    let mut values: Vec<U256> = Vec::new();
    let ghost viewed = tokens_view(tokens@);
    let mut i: usize = 0;
    while i < tokens.len()
        invariant
            i <= tokens.len(),
            viewed == tokens_view(tokens@),
            values@ == uint_values(viewed.take(i as int)),
        decreases tokens.len() - i,
    {
        proof {
            assert(viewed.take(i as int + 1).drop_last() =~= viewed.take(i as int));
            assert(viewed.take(i as int + 1).last() == token_view(tokens[i as int]));
        }
        match &tokens[i] {
            Some(elements) => {
                collect_uints(elements, &mut values);
            },
            None => {},
        }
        i += 1;
    }
    assert(viewed.take(i as int) =~= viewed);
    values
}

/// The values of a group of `expected` pools, given what the response decoded
/// to (`None` where it did not decode): the integers of the decoded arrays. A
/// response that did not decode, or that holds another number of values than
/// the group has pools, is a protocol error.
pub fn batch_values_from_decoded(
    decoded: Option<Vec<DecodedToken>>,
    expected: usize,
) -> (r: Result<Vec<U256>, FilterError>)
    ensures
        match r {
            Ok(values) => decoded.is_some() && values@ == uint_values(
                tokens_view(decoded.unwrap()@),
            ) && values.len() == expected,
            Err(e) => e == FilterError::ProtocolDecodeError && (decoded.is_none() || uint_values(
                tokens_view(decoded.unwrap()@),
            ).len() != expected),
        },
{
    match decoded {
        Some(tokens) => {
            let values = weth_values_from_tokens(&tokens);
            if values.len() == expected {
                Ok(values)
            } else {
                Err(FilterError::ProtocolDecodeError)
            }
        },
        None => Err(FilterError::ProtocolDecodeError),
    }
}

/// Reads the node's answer to a request for a group of `expected` pools:
/// one value for each pool, in the group's order.
///
/// The result is `Ok` exactly when `return_data` decodes as an array of
/// 256-bit unsigned integers that holds `expected` values; anything else is a
/// protocol error.
pub fn decode_batch_values(
    return_data: &[u8],
    expected: usize,
) -> (r: Result<Vec<U256>, FilterError>)
    ensures
        match r {
            Ok(values) => spec_batch_values(abi_decoded_uint_array(return_data@), expected as nat)
                == Ok::<Seq<U256>, FilterError>(values@),
            Err(e) => spec_batch_values(abi_decoded_uint_array(return_data@), expected as nat)
                == Err::<Seq<U256>, FilterError>(e),
        },
{
    batch_values_from_decoded(decode_uint_array(return_data), expected)
}

/// Reads the node's answer to the request for the group `amms`: one value for
/// each pool, in the group's order.
///
/// The result is `Ok` exactly when `return_data` decodes as an array of
/// 256-bit unsigned integers that holds as many values as the group has pools;
/// anything else is a protocol error.
pub fn get_weth_value_in_amm_batch_request(
    amms: &[Pool],
    return_data: &[u8],
) -> (r: Result<Vec<U256>, FilterError>)
    ensures
        match r {
            Ok(values) => spec_batch_values(abi_decoded_uint_array(return_data@), amms@.len())
                == Ok::<Seq<U256>, FilterError>(values@),
            Err(e) => spec_batch_values(abi_decoded_uint_array(return_data@), amms@.len())
                == Err::<Seq<U256>, FilterError>(e),
        },
        r matches Ok(values) ==> values.len() == amms.len(),
{
    decode_batch_values(return_data, amms.len())
}

} // verus!
