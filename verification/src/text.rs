//! Text that the engine orders, joins and prints.
//!
//! The asset index orders texts by their UTF-8 bytes. Amounts and instants
//! are printed, and the asset transfer is encoded, by the outside crates;
//! what those calls return is stated here and believed.

use crate::time::{Expiration, NANOS_PER_SECOND};
use vstd::prelude::*;
use vstd::utf8::{encode_utf8, encode_utf8_decode_utf8};

verus! {

/// Whether `a` comes strictly before `b` byte by byte, a proper prefix before
/// what it is a prefix of.
pub open spec fn bytes_lt(a: Seq<u8>, b: Seq<u8>) -> bool
    decreases a.len(),
{
    if b.len() == 0 {
        false
    } else if a.len() == 0 {
        true
    } else if a[0] != b[0] {
        a[0] < b[0]
    } else {
        bytes_lt(a.skip(1), b.skip(1))
    }
}

/// The order of texts in the asset index: that of their UTF-8 bytes.
pub open spec fn key_lt(a: Seq<char>, b: Seq<char>) -> bool {
    bytes_lt(encode_utf8(a), encode_utf8(b))
}

pub proof fn lemma_bytes_lt_irreflexive(a: Seq<u8>)
    ensures
        !bytes_lt(a, a),
    decreases a.len(),
{
    if a.len() > 0 {
        lemma_bytes_lt_irreflexive(a.skip(1));
    }
}

pub proof fn lemma_bytes_lt_transitive(a: Seq<u8>, b: Seq<u8>, c: Seq<u8>)
    requires
        bytes_lt(a, b),
        bytes_lt(b, c),
    ensures
        bytes_lt(a, c),
    decreases a.len(),
{
    if a.len() > 0 && a[0] == b[0] && b[0] == c[0] {
        lemma_bytes_lt_transitive(a.skip(1), b.skip(1), c.skip(1));
    }
}

pub proof fn lemma_bytes_lt_total(a: Seq<u8>, b: Seq<u8>)
    ensures
        bytes_lt(a, b) || bytes_lt(b, a) || a == b,
    decreases a.len(),
{
    if a.len() > 0 && b.len() > 0 && a[0] == b[0] {
        lemma_bytes_lt_total(a.skip(1), b.skip(1));
        if a.skip(1) == b.skip(1) {
            assert forall|i: int| 0 <= i < a.len() implies a[i] == b[i] by {
                if i > 0 {
                    assert(a[i] == a.skip(1)[i - 1]);
                    assert(b[i] == b.skip(1)[i - 1]);
                }
            }
            assert(a.len() == a.skip(1).len() + 1);
            assert(b.len() == b.skip(1).len() + 1);
            assert(a =~= b);
        }
    } else if a.len() == 0 && b.len() == 0 {
        assert(a =~= b);
    }
}

/// No text comes before itself.
pub proof fn lemma_key_lt_irreflexive(a: Seq<char>)
    ensures
        !key_lt(a, a),
{
    lemma_bytes_lt_irreflexive(encode_utf8(a));
}

pub proof fn lemma_key_lt_transitive(a: Seq<char>, b: Seq<char>, c: Seq<char>)
    requires
        key_lt(a, b),
        key_lt(b, c),
    ensures
        key_lt(a, c),
{
    lemma_bytes_lt_transitive(encode_utf8(a), encode_utf8(b), encode_utf8(c));
}

/// Of two different texts one comes before the other.
pub proof fn lemma_key_lt_total(a: Seq<char>, b: Seq<char>)
    ensures
        key_lt(a, b) || key_lt(b, a) || a == b,
{
    lemma_bytes_lt_total(encode_utf8(a), encode_utf8(b));
    encode_utf8_decode_utf8(a);
    encode_utf8_decode_utf8(b);
}

/// Of two texts at most one comes before the other.
pub proof fn lemma_key_lt_asymmetric(a: Seq<char>, b: Seq<char>)
    requires
        key_lt(a, b),
    ensures
        !key_lt(b, a),
        a != b,
{
    lemma_key_lt_irreflexive(a);
    if key_lt(b, a) {
        lemma_key_lt_transitive(a, b, a);
    }
}

/// Compares two texts by their bytes.
pub fn str_lt(a: &str, b: &str) -> (less: bool)
    ensures
        less == key_lt(a@, b@),
{
    let x = a.as_bytes();
    let y = b.as_bytes();
    let mut i: usize = 0;
    proof {
        assert(x@.skip(0) =~= x@);
        assert(y@.skip(0) =~= y@);
    }
    while i < x.len() && i < y.len()
        invariant
            x@ == encode_utf8(a@),
            y@ == encode_utf8(b@),
            i <= x@.len(),
            i <= y@.len(),
            bytes_lt(x@, y@) == bytes_lt(x@.skip(i as int), y@.skip(i as int)),
        decreases x@.len() - i,
    {
        proof {
            assert(x@.skip(i as int)[0] == x@[i as int]);
            assert(y@.skip(i as int)[0] == y@[i as int]);
            assert(x@.skip(i as int).skip(1) =~= x@.skip(i + 1));
            assert(y@.skip(i as int).skip(1) =~= y@.skip(i + 1));
        }
        if x[i] != y[i] {
            return x[i] < y[i];
        }
        i += 1;
    }
    i < y.len()
}

/// Tells whether two texts are the same.
pub fn str_eq(a: &str, b: &str) -> (same: bool)
    ensures
        same == (a@ == b@),
{
    proof {
        lemma_key_lt_total(a@, b@);
        lemma_key_lt_irreflexive(a@);
    }
    !str_lt(a, b) && !str_lt(b, a)
}

/// The text by which the asset index orders a token, and against which a
/// listing holds its cursor: the token's id followed by the address of its
/// collection. Two tokens can have one such text; the index tells them
/// apart by their two names.
pub open spec fn asset_key(token_id: Seq<char>, token_address: Seq<char>) -> Seq<char> {
    token_id + token_address
}

/// Two tokens with one id and one joined text are of one collection.
pub proof fn lemma_asset_key_cancels(token_id: Seq<char>, a: Seq<char>, b: Seq<char>)
    requires
        asset_key(token_id, a) == asset_key(token_id, b),
    ensures
        a == b,
{
    assert(a =~= (token_id + a).skip(token_id.len() as int));
    assert(b =~= (token_id + b).skip(token_id.len() as int));
}

pub fn make_asset_key(token_id: &str, token_address: &str) -> (key: String)
    ensures
        key@ == asset_key(token_id@, token_address@),
{
    String::from_str(token_id).concat(token_address)
}

/// The ten decimal digits.
pub open spec fn digit(d: nat) -> char {
    seq!['0', '1', '2', '3', '4', '5', '6', '7', '8', '9'][d as int]
}

/// `n` in decimal, without leading zeros.
pub open spec fn decimal(n: nat) -> Seq<char>
    decreases n,
{
    if n < 10 {
        seq![digit(n)]
    } else {
        decimal(n / 10).push(digit(n % 10))
    }
}

/// The last `width` decimal digits of `n`, zeros included.
pub open spec fn decimal_fixed(n: nat, width: nat) -> Seq<char>
    decreases width,
{
    if width == 0 {
        Seq::empty()
    } else {
        decimal_fixed(n / 10, (width - 1) as nat).push(digit(n % 10))
    }
}

/// How an instant is printed: a height as a number, a time as its seconds,
/// a point and nine digits of nanoseconds.
pub open spec fn expiration_text(e: Expiration) -> Seq<char> {
    match e {
        Expiration::AtHeight(height) => "expiration height: "@ + decimal(height as nat),
        Expiration::AtTime(time) => "expiration time: "@ + decimal(
            (time.0 / NANOS_PER_SECOND) as nat,
        ) + seq!['.'] + decimal_fixed((time.0 % NANOS_PER_SECOND) as nat, 9),
        Expiration::Never {  } => "expiration: never"@,
    }
}

/// Prints an instant with `Display` of `cw721::Expiration`, which writes
/// `expiration height: ` and the height, `expiration time: ` and the time as
/// `cosmwasm_std::Timestamp` prints it (whole seconds, a point, the
/// nanoseconds padded with zeros to nine digits), or `expiration: never`.
#[verifier::external_body]
pub(crate) fn expiration_to_string(e: &Expiration) -> (text: String)
    ensures
        text@ == expiration_text(*e),
{
    let outside = match *e {
        Expiration::AtHeight(height) => cw721::Expiration::AtHeight(height),
        Expiration::AtTime(time) => cw721::Expiration::AtTime(
            cosmwasm_std::Timestamp::from_nanos(time.0),
        ),
        Expiration::Never {  } => cw721::Expiration::Never {  },
    };
    outside.to_string()
}

/// Prints an amount with `Display` of `cosmwasm_std::Uint128`, which is that
/// of the `u128` inside: the decimal digits.
#[verifier::external_body]
pub(crate) fn amount_to_string(amount: u128) -> (text: String)
    ensures
        text@ == decimal(amount as nat),
{
    cosmwasm_std::Uint128::new(amount).to_string()
}

/// The bytes that the outside serialiser gives for the message that asks a
/// collection to hand `token_id` to `recipient`, or `None` where it fails.
pub uninterp spec fn transfer_nft_json(recipient: Seq<char>, token_id: Seq<char>) -> Option<
    Seq<u8>,
>;

/// Encodes `cw721::Cw721ExecuteMsg::TransferNft` with
/// `cosmwasm_std::to_binary`. The bytes depend on the two strings alone; what
/// they are is not stated.
#[verifier::external_body]
#[allow(deprecated)]
pub(crate) fn encode_transfer_nft(recipient: &str, token_id: &str) -> (r: Result<
    Vec<u8>,
    cosmwasm_std::StdError,
>)
    ensures
        match r {
            Ok(bytes) => transfer_nft_json(recipient@, token_id@) == Some(bytes@),
            Err(_) => transfer_nft_json(recipient@, token_id@) is None,
        },
{
    let msg = cw721::Cw721ExecuteMsg::TransferNft {
        recipient: recipient.to_string(),
        token_id: token_id.to_string(),
    };
    cosmwasm_std::to_binary(&msg).map(|binary| binary.0)
}

} // verus!
