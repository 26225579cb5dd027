use vstd::prelude::*;
use vstd::bytes::{lemma_auto_spec_u64_to_from_le_bytes, spec_u64_to_le_bytes, u64_to_le_bytes};
use vstd::string::StrSliceExecFns;
use vstd::utf8::{encode_utf8, encode_utf8_decode_utf8};
use crate::bytes::bytes_clone;

verus! {

/// What an asset descriptor is: its tag and its payload.
pub struct AssetSpec {
    /// `true` for a fungible-token contract, `false` for the native currency.
    pub token: bool,
    /// The contract's canonical address, or the denomination's bytes.
    pub payload: Seq<u8>,
}

/// A canonical asset descriptor: the chain's native currency, by its
/// denomination, or a fungible-token contract, by its canonical address.
#[derive(Clone, Debug, PartialEq, Eq)]
pub enum AssetInfo {
    Token { contract_addr: Vec<u8> },
    NativeToken { denom: Vec<u8> },
}

impl View for AssetInfo {
    type V = AssetSpec;

    open spec fn view(&self) -> AssetSpec {
        match self {
            AssetInfo::Token { contract_addr } => AssetSpec {
                token: true,
                payload: contract_addr@,
            },
            AssetInfo::NativeToken { denom } => AssetSpec { token: false, payload: denom@ },
        }
    }
}

/// The descriptors of a pair, in the order in which they were supplied.
pub open spec fn pair_view(asset_infos: [AssetInfo; 2]) -> (AssetSpec, AssetSpec) {
    (asset_infos[0]@, asset_infos[1]@)
}

/// A payload whose length fits the encoding's length field. Every payload
/// held in memory does.
pub open spec fn encodable(a: AssetSpec) -> bool {
    a.payload.len() <= u64::MAX
}

/// The tag byte of a descriptor's encoding.
pub open spec fn tag_byte(a: AssetSpec) -> u8 {
    if a.token {
        1u8
    } else {
        0u8
    }
}

/// A descriptor's canonical encoding: the tag byte, the payload's length in
/// eight little-endian bytes, then the payload. The header has a fixed
/// width and gives the payload's, so no encoding is the start of another
/// descriptor's.
pub open spec fn encode(a: AssetSpec) -> Seq<u8> {
    seq![tag_byte(a)] + spec_u64_to_le_bytes(a.payload.len() as u64) + a.payload
}

/// The key of an ordered pair: the two encodings, one after the other.
pub open spec fn spec_pair_key(pair: (AssetSpec, AssetSpec)) -> Seq<u8> {
    encode(pair.0) + encode(pair.1)
}

/// An encoding followed by anything determines the descriptor and what
/// follows it.
pub proof fn lemma_encode_prefix_free(a: AssetSpec, ra: Seq<u8>, c: AssetSpec, rc: Seq<u8>)
    requires
        encodable(a),
        encodable(c),
        encode(a) + ra == encode(c) + rc,
    ensures
        a == c,
        ra == rc,
{
    lemma_auto_spec_u64_to_from_le_bytes();
    let ka = encode(a) + ra;
    let kc = encode(c) + rc;
    let la = spec_u64_to_le_bytes(a.payload.len() as u64);
    let lc = spec_u64_to_le_bytes(c.payload.len() as u64);
    assert(ka[0] == tag_byte(a));
    assert(kc[0] == tag_byte(c));
    assert(ka.subrange(1, 9) =~= la);
    assert(kc.subrange(1, 9) =~= lc);
    assert(a.payload.len() as u64 == c.payload.len() as u64);
    let n = a.payload.len() as int;
    assert(ka.subrange(9, 9 + n) =~= a.payload);
    assert(kc.subrange(9, 9 + n) =~= c.payload);
    assert(ka.skip(9 + n) =~= ra);
    assert(kc.skip(9 + n) =~= rc);
}

/// Different ordered pairs have different keys.
pub proof fn lemma_pair_key_injective(p: (AssetSpec, AssetSpec), q: (AssetSpec, AssetSpec))
    requires
        encodable(p.0),
        encodable(p.1),
        encodable(q.0),
        encodable(q.1),
        spec_pair_key(p) == spec_pair_key(q),
    ensures
        p == q,
{
    lemma_encode_prefix_free(p.0, encode(p.1), q.0, encode(q.1));
    assert(encode(p.1) + Seq::<u8>::empty() =~= encode(p.1));
    assert(encode(q.1) + Seq::<u8>::empty() =~= encode(q.1));
    lemma_encode_prefix_free(p.1, Seq::<u8>::empty(), q.1, Seq::<u8>::empty());
}

/// Every descriptor held in memory can be encoded.
pub proof fn lemma_descriptor_encodable(a: AssetInfo)
    ensures
        encodable(a@),
{
    match a {
        AssetInfo::Token { contract_addr } => {
            vstd::std_specs::vec::axiom_spec_len(&contract_addr);
        },
        AssetInfo::NativeToken { denom } => {
            vstd::std_specs::vec::axiom_spec_len(&denom);
        },
    }
}

/// Two ordered pairs of descriptors with the same key are the same pair:
/// the same descriptors, in the same order.
pub proof fn lemma_same_key_same_pair(p: [AssetInfo; 2], q: [AssetInfo; 2])
    requires
        spec_pair_key(pair_view(p)) == spec_pair_key(pair_view(q)),
    ensures
        pair_view(p) == pair_view(q),
{
    lemma_descriptor_encodable(p[0]);
    lemma_descriptor_encodable(p[1]);
    lemma_descriptor_encodable(q[0]);
    lemma_descriptor_encodable(q[1]);
    lemma_pair_key_injective(pair_view(p), pair_view(q));
}

/// The key keeps the order of the descriptors: a pair of two different
/// descriptors and the pair with the two exchanged have different keys.
pub proof fn lemma_pair_key_order_sensitive(a: AssetSpec, b: AssetSpec)
    requires
        encodable(a),
        encodable(b),
        a != b,
    ensures
        spec_pair_key((a, b)) != spec_pair_key((b, a)),
{
    if spec_pair_key((a, b)) == spec_pair_key((b, a)) {
        lemma_pair_key_injective((a, b), (b, a));
    }
}

/// Different denominations have different payloads.
pub proof fn lemma_denominations_apart(a: Seq<char>, b: Seq<char>)
    requires
        encode_utf8(a) == encode_utf8(b),
    ensures
        a == b,
{
    encode_utf8_decode_utf8(a);
    encode_utf8_decode_utf8(b);
}

impl AssetInfo {
    /// The native currency of the denomination `denom`. The descriptor
    /// holds the denomination's UTF-8 bytes.
    pub fn native(denom: &str) -> (r: AssetInfo)
        ensures
            r@ == (AssetSpec { token: false, payload: encode_utf8(denom@) }),
    {
        AssetInfo::NativeToken { denom: denom.as_bytes_vec() }
    }

    /// A copy of this descriptor.
    pub fn duplicate(&self) -> (r: AssetInfo)
        ensures
            r@ == self@,
    {
        match self {
            AssetInfo::Token { contract_addr } => AssetInfo::Token {
                contract_addr: bytes_clone(contract_addr),
            },
            AssetInfo::NativeToken { denom } => AssetInfo::NativeToken {
                denom: bytes_clone(denom),
            },
        }
    }

    /// Appends this descriptor's encoding to `out`.
    fn encode_into(&self, out: &mut Vec<u8>)
        ensures
            final(out)@ == old(out)@ + encode(self@),
            encodable(self@),
    {
        let (tag, payload): (u8, &Vec<u8>) = match self {
            AssetInfo::Token { contract_addr } => (1u8, contract_addr),
            AssetInfo::NativeToken { denom } => (0u8, denom),
        };
        out.push(tag);
        let mut width = u64_to_le_bytes(payload.len() as u64);
        out.append(&mut width);
        let mut i: usize = 0;
        while i < payload.len()
            invariant
                i <= payload.len(),
                payload@ == self@.payload,
                out@ == old(out)@ + seq![tag_byte(self@)] + spec_u64_to_le_bytes(
                    payload.len() as u64,
                ) + payload@.take(i as int),
            decreases payload.len() - i,
        {
            out.push(payload[i]);
            i += 1;
            assert(payload@.take(i as int) =~= payload@.take(i - 1).push(payload@[i - 1]));
            assert(out@ =~= old(out)@ + seq![tag_byte(self@)] + spec_u64_to_le_bytes(
                payload.len() as u64,
            ) + payload@.take(i as int));
        }
        assert(payload@.take(payload.len() as int) =~= payload@);
        assert(out@ =~= old(out)@ + encode(self@));
    }
}

/// Copies both descriptors of a pair.
pub fn duplicate_pair(asset_infos: &[AssetInfo; 2]) -> (r: [AssetInfo; 2])
    ensures
        pair_view(r) == pair_view(*asset_infos),
{
    [asset_infos[0].duplicate(), asset_infos[1].duplicate()]
}

/// Derives the registry key of an ordered pair of descriptors.
pub fn pair_key(asset_infos: &[AssetInfo; 2]) -> (key: Vec<u8>)
    ensures
        key@ == spec_pair_key(pair_view(*asset_infos)),
        encodable(asset_infos[0]@),
        encodable(asset_infos[1]@),
{
    let mut key: Vec<u8> = Vec::new();
    asset_infos[0].encode_into(&mut key);
    asset_infos[1].encode_into(&mut key);
    assert(key@ =~= spec_pair_key(pair_view(*asset_infos)));
    key
}

} // verus!
