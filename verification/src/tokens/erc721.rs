//! ASTRA ERC-721 style collectibles.
use vstd::prelude::*;
use vstd::string::StringSliceAdditionalSpecFns;
use vstd::utf8::valid_utf8;
use crate::codec::{u64_le_bytes, decimal_digits, u64_to_decimal, u64_to_le_vec};
use crate::error::ContractError;
use crate::host::{spec_load, spec_text, spec_u64_or_zero, load_bytes, load_text, load_u64_or_zero, save_u64, key_with, reply_view, reply_byte};
use crate::store::{KvStore, bytes_equal, prefix_up_to};
use crate::wire::{spec_string_field, lemma_read_string_field, lemma_read_u64_field, spec_read_u8, spec_read_u64, spec_read_string, read_u8, read_u64, read_string, NO_LIMIT};

verus! {

pub const OP_MINT: u8 = 1;
pub const OP_TRANSFER: u8 = 2;
pub const OP_OWNER_OF: u8 = 3;
pub const OP_SET_TOKEN_URI: u8 = 4;
pub const OP_TOKEN_URI: u8 = 5;
pub const OP_TOTAL_SUPPLY: u8 = 6;

pub open spec fn owner_key(token_id: u64) -> Seq<u8> {
    "astra:erc721:owner:".spec_bytes() + decimal_digits(token_id as nat)
}

pub open spec fn uri_key(token_id: u64) -> Seq<u8> {
    "astra:erc721:uri:".spec_bytes() + decimal_digits(token_id as nat)
}

pub open spec fn total_supply_key() -> Seq<u8> {
    "astra:erc721:total_supply".spec_bytes()
}

/// The owner of a token, as read back from storage.
pub open spec fn owner_of(m: Map<Seq<u8>, Seq<u8>>, token_id: u64) -> Result<Seq<u8>, ContractError> {
    spec_text(m, owner_key(token_id), 256)
}

/// Whether a token has an owner record.
pub open spec fn owner_exists(m: Map<Seq<u8>, Seq<u8>>, token_id: u64) -> bool {
    spec_load(m, owner_key(token_id), 256) is Ok
}

pub open spec fn total_supply(m: Map<Seq<u8>, Seq<u8>>) -> u64 {
    spec_u64_or_zero(m, total_supply_key())
}

pub open spec fn spec_mint(m: Map<Seq<u8>, Seq<u8>>, token_id: u64, owner: Seq<u8>) -> (Map<Seq<u8>, Seq<u8>>, Result<Seq<u8>, ContractError>) {
    if owner.len() == 0 || owner_exists(m, token_id) {
        (m, Err(ContractError::InvalidInput))
    } else {
        let m1 = m.insert(owner_key(token_id), owner);
        if total_supply(m1) + 1 > u64::MAX {
            (m1, Err(ContractError::InvalidInput))
        } else {
            (m1.insert(total_supply_key(), u64_le_bytes((total_supply(m1) + 1) as u64)), Ok(seq![1u8]))
        }
    }
}

pub open spec fn spec_transfer(m: Map<Seq<u8>, Seq<u8>>, token_id: u64, from: Seq<u8>, to: Seq<u8>) -> (Map<Seq<u8>, Seq<u8>>, Result<Seq<u8>, ContractError>) {
    if from.len() == 0 || to.len() == 0 {
        (m, Err(ContractError::InvalidInput))
    } else {
        match owner_of(m, token_id) {
            Err(e) => (m, Err(e)),
            Ok(current) => if current != from {
                (m, Err(ContractError::InvalidInput))
            } else {
                (m.insert(owner_key(token_id), to), Ok(seq![1u8]))
            },
        }
    }
}

pub open spec fn spec_set_token_uri(m: Map<Seq<u8>, Seq<u8>>, token_id: u64, uri: Seq<u8>) -> (Map<Seq<u8>, Seq<u8>>, Result<Seq<u8>, ContractError>) {
    if !owner_exists(m, token_id) {
        (m, Err(ContractError::InvalidInput))
    } else {
        (m.insert(uri_key(token_id), uri), Ok(seq![1u8]))
    }
}

pub open spec fn spec_handle(m: Map<Seq<u8>, Seq<u8>>, input: Seq<u8>) -> (Map<Seq<u8>, Seq<u8>>, Result<Seq<u8>, ContractError>) {
    match spec_read_u8(input, 0) {
        None => (m, Err(ContractError::InvalidInput)),
        Some((op, p)) => if op == OP_MINT {
            match spec_read_u64(input, p) {
                None => (m, Err(ContractError::InvalidInput)),
                Some((id, p2)) => match spec_read_string(input, p2, NO_LIMIT as int) {
                    None => (m, Err(ContractError::InvalidInput)),
                    Some((owner, _)) => spec_mint(m, id, owner),
                },
            }
        } else if op == OP_TRANSFER {
            match spec_read_u64(input, p) {
                None => (m, Err(ContractError::InvalidInput)),
                Some((id, p2)) => match spec_read_string(input, p2, NO_LIMIT as int) {
                    None => (m, Err(ContractError::InvalidInput)),
                    Some((from, p3)) => match spec_read_string(input, p3, NO_LIMIT as int) {
                        None => (m, Err(ContractError::InvalidInput)),
                        Some((to, _)) => spec_transfer(m, id, from, to),
                    },
                },
            }
        } else if op == OP_OWNER_OF {
            match spec_read_u64(input, p) {
                None => (m, Err(ContractError::InvalidInput)),
                Some((id, _)) => (m, owner_of(m, id)),
            }
        } else if op == OP_SET_TOKEN_URI {
            match spec_read_u64(input, p) {
                None => (m, Err(ContractError::InvalidInput)),
                Some((id, p2)) => match spec_read_string(input, p2, NO_LIMIT as int) {
                    None => (m, Err(ContractError::InvalidInput)),
                    Some((uri, _)) => spec_set_token_uri(m, id, uri),
                },
            }
        } else if op == OP_TOKEN_URI {
            match spec_read_u64(input, p) {
                None => (m, Err(ContractError::InvalidInput)),
                Some((id, _)) => (m, spec_text(m, uri_key(id), 512)),
            }
        } else if op == OP_TOTAL_SUPPLY {
            (m, Ok(u64_le_bytes(total_supply(m))))
        } else {
            (m, Err(ContractError::InvalidInput))
        }
    }
}

fn owner_key_of(token_id: u64) -> (r: Vec<u8>)
    ensures
        r@ == owner_key(token_id),
{
    let d = u64_to_decimal(token_id);
    key_with("astra:erc721:owner:", d.as_slice())
}

fn uri_key_of(token_id: u64) -> (r: Vec<u8>)
    ensures
        r@ == uri_key(token_id),
{
    let d = u64_to_decimal(token_id);
    key_with("astra:erc721:uri:", d.as_slice())
}

fn total_supply_key_bytes() -> (r: Vec<u8>)
    ensures
        r@ == total_supply_key(),
{
    key_with("astra:erc721:total_supply", &[])
}

fn token_owner_exists(store: &KvStore, token_id: u64) -> (r: bool)
    requires
        store.wf(),
    ensures
        r == owner_exists(store@, token_id),
{
    let k = owner_key_of(token_id);
    load_bytes(store, k.as_slice(), 256).is_ok()
}

fn get_owner(store: &KvStore, token_id: u64) -> (r: Result<Vec<u8>, ContractError>)
    requires
        store.wf(),
    ensures
        reply_view(r) == owner_of(store@, token_id),
{
    let k = owner_key_of(token_id);
    load_text(store, k.as_slice(), 256)
}

fn get_total_supply(store: &KvStore) -> (r: u64)
    requires
        store.wf(),
    ensures
        r == total_supply(store@),
{
    let k = total_supply_key_bytes();
    load_u64_or_zero(store, k.as_slice())
}

fn increment_total_supply(store: &mut KvStore) -> (r: Result<(), ContractError>)
    requires
        old(store).wf(),
    ensures
        final(store).wf(),
        total_supply(old(store)@) + 1 > u64::MAX ==> r == Err::<(), ContractError>(ContractError::InvalidInput) && final(store)@ == old(store)@,
        total_supply(old(store)@) + 1 <= u64::MAX ==> r is Ok && final(store)@ == old(store)@.insert(
            total_supply_key(), u64_le_bytes((total_supply(old(store)@) + 1) as u64)),
{
    let current = get_total_supply(store);
    let next = match current.checked_add(1) {
        Some(n) => n,
        None => return Err(ContractError::InvalidInput),
    };
    let k = total_supply_key_bytes();
    save_u64(store, k.as_slice(), next);
    Ok(())
}

fn mint(store: &mut KvStore, token_id: u64, owner: &[u8]) -> (r: Result<Vec<u8>, ContractError>)
    requires
        old(store).wf(),
    ensures
        final(store).wf(),
        (final(store)@, reply_view(r)) == spec_mint(old(store)@, token_id, owner@),
{
    if owner.len() == 0 {
        return Err(ContractError::InvalidInput);
    }
    if token_owner_exists(store, token_id) {
        return Err(ContractError::InvalidInput);
    }
    let k = owner_key_of(token_id);
    store.save(k.as_slice(), owner);
    increment_total_supply(store)?;
    Ok(reply_byte(1))
}

fn transfer(store: &mut KvStore, token_id: u64, from: &[u8], to: &[u8]) -> (r: Result<Vec<u8>, ContractError>)
    requires
        old(store).wf(),
    ensures
        final(store).wf(),
        (final(store)@, reply_view(r)) == spec_transfer(old(store)@, token_id, from@, to@),
{
    if from.len() == 0 || to.len() == 0 {
        return Err(ContractError::InvalidInput);
    }
    let current = get_owner(store, token_id)?;
    if !bytes_equal(current.as_slice(), from) {
        return Err(ContractError::InvalidInput);
    }
    let k = owner_key_of(token_id);
    store.save(k.as_slice(), to);
    Ok(reply_byte(1))
}

fn set_token_uri(store: &mut KvStore, token_id: u64, uri: &[u8]) -> (r: Result<Vec<u8>, ContractError>)
    requires
        old(store).wf(),
    ensures
        final(store).wf(),
        (final(store)@, reply_view(r)) == spec_set_token_uri(old(store)@, token_id, uri@),
{
    if !token_owner_exists(store, token_id) {
        return Err(ContractError::InvalidInput);
    }
    let k = uri_key_of(token_id);
    store.save(k.as_slice(), uri);
    Ok(reply_byte(1))
}

/// Runs one call of the ERC-721 contract on `input` against `store`.
pub fn handle(store: &mut KvStore, input: &[u8]) -> (r: Result<Vec<u8>, ContractError>)
    requires
        old(store).wf(),
    ensures
        final(store).wf(),
        (final(store)@, reply_view(r)) == spec_handle(old(store)@, input@),
{
    let mut cursor: usize = 0;
    let op = read_u8(input, &mut cursor)?;
    if op == OP_MINT {
        let id = read_u64(input, &mut cursor)?;
        let owner = read_string(input, &mut cursor, NO_LIMIT)?;
        mint(store, id, owner.as_slice())
    } else if op == OP_TRANSFER {
        let id = read_u64(input, &mut cursor)?;
        let from = read_string(input, &mut cursor, NO_LIMIT)?;
        let to = read_string(input, &mut cursor, NO_LIMIT)?;
        transfer(store, id, from.as_slice(), to.as_slice())
    } else if op == OP_OWNER_OF {
        let id = read_u64(input, &mut cursor)?;
        get_owner(store, id)
    } else if op == OP_SET_TOKEN_URI {
        let id = read_u64(input, &mut cursor)?;
        let uri = read_string(input, &mut cursor, NO_LIMIT)?;
        set_token_uri(store, id, uri.as_slice())
    } else if op == OP_TOKEN_URI {
        let id = read_u64(input, &mut cursor)?;
        let k = uri_key_of(id);
        load_text(store, k.as_slice(), 512)
    } else if op == OP_TOTAL_SUPPLY {
        let s = get_total_supply(store);
        Ok(u64_to_le_vec(s))
    } else {
        Err(ContractError::InvalidInput)
    }
}

/// After a successful mint the token's owner reads back as the minted
/// owner (for an owner of at most 256 bytes of UTF-8), and the supply grew
/// by one.
pub proof fn law_mint_then_owner_of(m: Map<Seq<u8>, Seq<u8>>, token_id: u64, owner: Seq<u8>)
    requires
        spec_mint(m, token_id, owner).1 is Ok,
        owner.len() <= 256,
        valid_utf8(owner),
    ensures
        owner_of(spec_mint(m, token_id, owner).0, token_id) == Ok::<Seq<u8>, ContractError>(owner),
        total_supply(spec_mint(m, token_id, owner).0) == total_supply(m) + 1,
{
    lemma_keys_distinct(token_id);
    crate::host::lemma_u64_saved(m.insert(owner_key(token_id), owner), total_supply_key(),
        (total_supply(m.insert(owner_key(token_id), owner)) + 1) as u64);
}

/// After a successful transfer the token's owner reads back as the
/// recipient (for a recipient of at most 256 bytes of UTF-8).
pub proof fn law_transfer_moves_ownership(m: Map<Seq<u8>, Seq<u8>>, token_id: u64, from: Seq<u8>, to: Seq<u8>)
    requires
        spec_transfer(m, token_id, from, to).1 is Ok,
        to.len() <= 256,
        valid_utf8(to),
    ensures
        owner_of(spec_transfer(m, token_id, from, to).0, token_id) == Ok::<Seq<u8>, ContractError>(to),
        owner_of(m, token_id) == Ok::<Seq<u8>, ContractError>(from),
{
}

proof fn lemma_keys_distinct(token_id: u64)
    ensures
        owner_key(token_id) != total_supply_key(),
{
    reveal_strlit("astra:erc721:owner:");
    reveal_strlit("astra:erc721:total_supply");
    vstd::string::is_ascii_spec_bytes("astra:erc721:owner:");
    vstd::string::is_ascii_spec_bytes("astra:erc721:total_supply");
    assert(owner_key(token_id)[13] != total_supply_key()[13]);
}

/// The call `[op][token_id]` followed by `tail`.
pub open spec fn token_call(op: u8, token_id: u64, tail: Seq<u8>) -> Seq<u8> {
    seq![op] + u64_le_bytes(token_id) + tail
}

proof fn lemma_set_uri_parts(m: Map<Seq<u8>, Seq<u8>>, c: Seq<u8>, token_id: u64, uri: Seq<u8>)
    requires
        spec_read_u8(c, 0) == Some((OP_SET_TOKEN_URI, 1int)),
        spec_read_u64(c, 1) == Some((token_id, 9int)),
        spec_read_string(c, 9, NO_LIMIT as int) == Some((uri, 11 + uri.len() as int)),
    ensures
        spec_handle(m, c) == spec_set_token_uri(m, token_id, uri),
{
}

proof fn lemma_token_string_parses(op: u8, token_id: u64, text: Seq<u8>, rest: Seq<u8>)
    requires
        text.len() <= NO_LIMIT,
        valid_utf8(text),
    ensures
        spec_read_u8(token_call(op, token_id, spec_string_field(text) + rest), 0) == Some((op, 1int)),
        spec_read_u64(token_call(op, token_id, spec_string_field(text) + rest), 1) == Some((token_id, 9int)),
        spec_read_string(token_call(op, token_id, spec_string_field(text) + rest), 9, NO_LIMIT as int)
            == Some((text, 11 + text.len() as int)),
{
    let c = token_call(op, token_id, spec_string_field(text) + rest);
    let pre = seq![op] + u64_le_bytes(token_id);
    assert(spec_read_u64(c, 1) == Some((token_id, 9int))) by {
        lemma_read_u64_field(seq![op], token_id, spec_string_field(text) + rest);
    }
    assert(spec_read_string(c, 9, NO_LIMIT as int) == Some((text, 11 + text.len() as int))) by {
        assert(pre.len() == 9);
        assert(pre + spec_string_field(text) + rest =~= c);
        lemma_read_string_field(pre, text, rest, NO_LIMIT as int);
    }
}

proof fn lemma_set_uri_call(m: Map<Seq<u8>, Seq<u8>>, token_id: u64, uri: Seq<u8>)
    requires
        uri.len() <= NO_LIMIT,
        valid_utf8(uri),
    ensures
        spec_handle(m, token_call(OP_SET_TOKEN_URI, token_id, spec_string_field(uri))) == spec_set_token_uri(m, token_id, uri),
{
    lemma_token_string_parses(OP_SET_TOKEN_URI, token_id, uri, Seq::<u8>::empty());
    assert(spec_string_field(uri) + Seq::<u8>::empty() =~= spec_string_field(uri));
    lemma_set_uri_parts(m, token_call(OP_SET_TOKEN_URI, token_id, spec_string_field(uri)), token_id, uri);
}

proof fn lemma_token_uri_call(m: Map<Seq<u8>, Seq<u8>>, token_id: u64)
    ensures
        spec_handle(m, token_call(OP_TOKEN_URI, token_id, Seq::<u8>::empty())) == (m, spec_text(m, uri_key(token_id), 512)),
{
    lemma_read_u64_field(seq![OP_TOKEN_URI], token_id, Seq::<u8>::empty());
}

/// SET_TOKEN_URI succeeds exactly for a token that has an owner, and then
/// TOKEN_URI answers the URI that was set, whatever it held before (for a
/// non-empty URI of at most 512 bytes of UTF-8).
pub proof fn law_set_token_uri_then_token_uri(m: Map<Seq<u8>, Seq<u8>>, token_id: u64, uri: Seq<u8>)
    requires
        0 < uri.len() <= 512,
        valid_utf8(uri),
    ensures
        spec_handle(m, token_call(OP_SET_TOKEN_URI, token_id, spec_string_field(uri))).1 == (if owner_exists(m, token_id) {
            Ok::<Seq<u8>, ContractError>(seq![1u8])
        } else {
            Err::<Seq<u8>, ContractError>(ContractError::InvalidInput)
        }),
        owner_exists(m, token_id) ==> spec_handle(
            spec_handle(m, token_call(OP_SET_TOKEN_URI, token_id, spec_string_field(uri))).0,
            token_call(OP_TOKEN_URI, token_id, Seq::<u8>::empty()),
        ).1 == Ok::<Seq<u8>, ContractError>(uri),
{
    lemma_set_uri_call(m, token_id, uri);
    let m1 = m.insert(uri_key(token_id), uri);
    lemma_token_uri_call(m1, token_id);
    assert(prefix_up_to(uri, 512) =~= uri);
}

proof fn lemma_mint_parts(m: Map<Seq<u8>, Seq<u8>>, c: Seq<u8>, token_id: u64, owner: Seq<u8>)
    requires
        spec_read_u8(c, 0) == Some((OP_MINT, 1int)),
        spec_read_u64(c, 1) == Some((token_id, 9int)),
        spec_read_string(c, 9, NO_LIMIT as int) == Some((owner, 11 + owner.len() as int)),
    ensures
        spec_handle(m, c) == spec_mint(m, token_id, owner),
{
}

proof fn lemma_transfer_parts(m: Map<Seq<u8>, Seq<u8>>, c: Seq<u8>, token_id: u64, from: Seq<u8>, to: Seq<u8>)
    requires
        spec_read_u8(c, 0) == Some((OP_TRANSFER, 1int)),
        spec_read_u64(c, 1) == Some((token_id, 9int)),
        spec_read_string(c, 9, NO_LIMIT as int) == Some((from, 11 + from.len() as int)),
        spec_read_string(c, 11 + from.len() as int, NO_LIMIT as int) == Some((to, 13 + from.len() + to.len() as int)),
    ensures
        spec_handle(m, c) == spec_transfer(m, token_id, from, to),
{
}

proof fn lemma_owner_of_call(m: Map<Seq<u8>, Seq<u8>>, token_id: u64)
    ensures
        spec_handle(m, token_call(OP_OWNER_OF, token_id, Seq::<u8>::empty())) == (m, owner_of(m, token_id)),
{
    lemma_read_u64_field(seq![OP_OWNER_OF], token_id, Seq::<u8>::empty());
}

proof fn lemma_mint_call(m: Map<Seq<u8>, Seq<u8>>, token_id: u64, owner: Seq<u8>)
    requires
        owner.len() <= NO_LIMIT,
        valid_utf8(owner),
    ensures
        spec_handle(m, token_call(OP_MINT, token_id, spec_string_field(owner))) == spec_mint(m, token_id, owner),
{
    lemma_token_string_parses(OP_MINT, token_id, owner, Seq::<u8>::empty());
    assert(spec_string_field(owner) + Seq::<u8>::empty() =~= spec_string_field(owner));
    lemma_mint_parts(m, token_call(OP_MINT, token_id, spec_string_field(owner)), token_id, owner);
}

proof fn lemma_transfer_parses(token_id: u64, from: Seq<u8>, to: Seq<u8>)
    requires
        from.len() <= NO_LIMIT,
        valid_utf8(from),
        to.len() <= NO_LIMIT,
        valid_utf8(to),
    ensures
        spec_read_string(token_call(OP_TRANSFER, token_id, spec_string_field(from) + spec_string_field(to)), 11 + from.len() as int, NO_LIMIT as int)
            == Some((to, 13 + from.len() + to.len() as int)),
{
    let c = token_call(OP_TRANSFER, token_id, spec_string_field(from) + spec_string_field(to));
    let pre = seq![OP_TRANSFER] + u64_le_bytes(token_id) + spec_string_field(from);
    assert(pre.len() == 11 + from.len());
    assert(pre + spec_string_field(to) + Seq::<u8>::empty() =~= c);
    lemma_read_string_field(pre, to, Seq::<u8>::empty(), NO_LIMIT as int);
}

proof fn lemma_transfer_call(m: Map<Seq<u8>, Seq<u8>>, token_id: u64, from: Seq<u8>, to: Seq<u8>)
    requires
        from.len() <= NO_LIMIT,
        valid_utf8(from),
        to.len() <= NO_LIMIT,
        valid_utf8(to),
    ensures
        spec_handle(m, token_call(OP_TRANSFER, token_id, spec_string_field(from) + spec_string_field(to)))
            == spec_transfer(m, token_id, from, to),
{
    lemma_token_string_parses(OP_TRANSFER, token_id, from, spec_string_field(to));
    lemma_transfer_parses(token_id, from, to);
    lemma_transfer_parts(m, token_call(OP_TRANSFER, token_id, spec_string_field(from) + spec_string_field(to)), token_id, from, to);
}

/// MINT of a token that has no owner yet succeeds (while the supply can
/// grow), and OWNER_OF then answers the minted owner, for an owner of at
/// most 256 bytes of UTF-8; minting a token that has an owner fails and
/// changes nothing.
pub proof fn law_mint_call_then_owner_of(m: Map<Seq<u8>, Seq<u8>>, token_id: u64, owner: Seq<u8>)
    requires
        0 < owner.len() <= 256,
        valid_utf8(owner),
    ensures
        owner_exists(m, token_id) ==> spec_handle(m, token_call(OP_MINT, token_id, spec_string_field(owner)))
            == (m, Err::<Seq<u8>, ContractError>(ContractError::InvalidInput)),
        !owner_exists(m, token_id) && total_supply(m) < u64::MAX ==> {
            let m1 = spec_handle(m, token_call(OP_MINT, token_id, spec_string_field(owner))).0;
            &&& spec_handle(m, token_call(OP_MINT, token_id, spec_string_field(owner))).1 == Ok::<Seq<u8>, ContractError>(seq![1u8])
            &&& spec_handle(m1, token_call(OP_OWNER_OF, token_id, Seq::<u8>::empty())).1 == Ok::<Seq<u8>, ContractError>(owner)
        },
{
    lemma_mint_call(m, token_id, owner);
    if !owner_exists(m, token_id) && total_supply(m) < u64::MAX {
        lemma_keys_distinct(token_id);
        let m0 = m.insert(owner_key(token_id), owner);
        assert(total_supply(m0) == total_supply(m));
        assert(spec_mint(m, token_id, owner).1 is Ok);
        law_mint_then_owner_of(m, token_id, owner);
        lemma_owner_of_call(spec_mint(m, token_id, owner).0, token_id);
    }
}

/// TRANSFER of a token by its current owner moves it: OWNER_OF then
/// answers the recipient (of at most 256 bytes of UTF-8). A transfer named
/// from anyone but the current owner fails and changes nothing.
pub proof fn law_transfer_call_then_owner_of(m: Map<Seq<u8>, Seq<u8>>, token_id: u64, from: Seq<u8>, to: Seq<u8>)
    requires
        0 < from.len() <= NO_LIMIT,
        valid_utf8(from),
        0 < to.len() <= 256,
        valid_utf8(to),
    ensures
        owner_of(m, token_id) == Ok::<Seq<u8>, ContractError>(from) ==> {
            let m1 = spec_handle(m, token_call(OP_TRANSFER, token_id, spec_string_field(from) + spec_string_field(to))).0;
            &&& spec_handle(m, token_call(OP_TRANSFER, token_id, spec_string_field(from) + spec_string_field(to))).1
                == Ok::<Seq<u8>, ContractError>(seq![1u8])
            &&& spec_handle(m1, token_call(OP_OWNER_OF, token_id, Seq::<u8>::empty())).1 == Ok::<Seq<u8>, ContractError>(to)
        },
        (owner_of(m, token_id) matches Ok(o) && o != from) ==>
            spec_handle(m, token_call(OP_TRANSFER, token_id, spec_string_field(from) + spec_string_field(to)))
                == (m, Err::<Seq<u8>, ContractError>(ContractError::InvalidInput)),
{
    lemma_transfer_call(m, token_id, from, to);
    if owner_of(m, token_id) == Ok::<Seq<u8>, ContractError>(from) {
        law_transfer_moves_ownership(m, token_id, from, to);
        lemma_owner_of_call(spec_transfer(m, token_id, from, to).0, token_id);
    }
}

} // verus!
