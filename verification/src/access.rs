//! Access control: role membership flags and role admins.
use vstd::prelude::*;
use vstd::string::StringSliceAdditionalSpecFns;
use crate::codec::append_bytes;
use crate::error::ContractError;
use crate::host::{spec_load, spec_text, load_bytes, load_text, key_with, reply_view, reply_byte};
use crate::store::{KvStore, prefix_up_to};
use vstd::utf8::valid_utf8;
use crate::wire::{lemma_read_string_field, spec_read_u8, spec_read_string, read_u8, read_string, spec_string_field, write_string_wrapping, NO_LIMIT};
use crate::codec::{u16_le_bytes, lemma_u16_roundtrip};

verus! {

pub const OP_GRANT_ROLE: u8 = 1;
pub const OP_REVOKE_ROLE: u8 = 2;
pub const OP_HAS_ROLE: u8 = 3;
pub const OP_SET_ADMIN: u8 = 4;
pub const OP_GET_ADMIN: u8 = 5;

/// The key of a membership flag: the role as a length-prefixed field, then
/// the account, so that no two (role, account) pairs share a key.
pub open spec fn member_key(role: Seq<u8>, account: Seq<u8>) -> Seq<u8> {
    "access:role:".spec_bytes() + spec_string_field(role) + account
}

pub open spec fn admin_key(role: Seq<u8>) -> Seq<u8> {
    "access:admin:".spec_bytes() + role
}

/// The membership byte of `account` in `role`: the first stored byte, 0
/// when nothing is stored.
pub open spec fn has_role(m: Map<Seq<u8>, Seq<u8>>, role: Seq<u8>, account: Seq<u8>) -> u8 {
    match spec_load(m, member_key(role, account), 1) {
        Ok(d) => if d.len() > 0 { d[0] } else { 0 },
        Err(_) => 0,
    }
}

pub open spec fn spec_handle(m: Map<Seq<u8>, Seq<u8>>, input: Seq<u8>) -> (Map<Seq<u8>, Seq<u8>>, Result<Seq<u8>, ContractError>) {
    let bad = (m, Err(ContractError::InvalidInput));
    match spec_read_u8(input, 0) {
        None => bad,
        Some((op, p)) => if op == OP_GRANT_ROLE || op == OP_REVOKE_ROLE || op == OP_HAS_ROLE || op == OP_SET_ADMIN {
            match spec_read_string(input, p, NO_LIMIT as int) {
                None => bad,
                Some((role, p1)) => match spec_read_string(input, p1, NO_LIMIT as int) {
                    None => bad,
                    Some((other, _)) => if op == OP_GRANT_ROLE {
                        (m.insert(member_key(role, other), seq![1u8]), Ok(seq![1u8]))
                    } else if op == OP_REVOKE_ROLE {
                        (m.insert(member_key(role, other), seq![0u8]), Ok(seq![1u8]))
                    } else if op == OP_HAS_ROLE {
                        (m, Ok(seq![1u8, has_role(m, role, other)]))
                    } else {
                        (m.insert(admin_key(role), other), Ok(seq![1u8]))
                    },
                },
            }
        } else if op == OP_GET_ADMIN {
            match spec_read_string(input, p, NO_LIMIT as int) {
                None => bad,
                Some((role, _)) => match spec_text(m, admin_key(role), 256) {
                    Err(e) => (m, Err(e)),
                    Ok(admin) => (m, Ok(seq![1u8] + admin)),
                },
            }
        } else {
            bad
        }
    }
}

/// The key of `account`'s membership flag in `role`.
pub fn role_member_key(role: &[u8], account: &[u8]) -> (r: Vec<u8>)
    ensures
        r@ == member_key(role@, account@),
{
    let mut k = key_with("access:role:", &[]);
    write_string_wrapping(&mut k, role);
    append_bytes(&mut k, account);
    proof {
        assert("access:role:".spec_bytes() + Seq::<u8>::empty() == "access:role:".spec_bytes());
    }
    k
}

/// The key of `role`'s admin.
pub fn role_admin_key(role: &[u8]) -> (r: Vec<u8>)
    ensures
        r@ == admin_key(role@),
{
    key_with("access:admin:", role)
}

fn role_has(store: &KvStore, role: &[u8], account: &[u8]) -> (r: u8)
    requires
        store.wf(),
    ensures
        r == has_role(store@, role@, account@),
{
    let k = role_member_key(role, account);
    match load_bytes(store, k.as_slice(), 1) {
        Ok(d) => if d.len() > 0 { d[0] } else { 0 },
        Err(_) => 0,
    }
}

/// Runs one call of the access-control contract on `input` against `store`.
pub fn handle(store: &mut KvStore, input: &[u8]) -> (r: Result<Vec<u8>, ContractError>)
    requires
        old(store).wf(),
    ensures
        final(store).wf(),
        (final(store)@, reply_view(r)) == spec_handle(old(store)@, input@),
{
    let mut cursor: usize = 0;
    let op = read_u8(input, &mut cursor)?;
    if op == OP_GRANT_ROLE || op == OP_REVOKE_ROLE || op == OP_HAS_ROLE || op == OP_SET_ADMIN {
        let role = read_string(input, &mut cursor, NO_LIMIT)?;
        let other = read_string(input, &mut cursor, NO_LIMIT)?;
        if op == OP_GRANT_ROLE || op == OP_REVOKE_ROLE {
            let k = role_member_key(role.as_slice(), other.as_slice());
            let flag = if op == OP_GRANT_ROLE { reply_byte(1) } else { reply_byte(0) };
            store.save(k.as_slice(), flag.as_slice());
            Ok(reply_byte(1))
        } else if op == OP_HAS_ROLE {
            let has = role_has(store, role.as_slice(), other.as_slice());
            let mut out: Vec<u8> = Vec::new();
            out.push(1u8);
            out.push(has);
            assert(out@ =~= seq![1u8, has]);
            Ok(out)
        } else {
            let k = role_admin_key(role.as_slice());
            store.save(k.as_slice(), other.as_slice());
            Ok(reply_byte(1))
        }
    } else if op == OP_GET_ADMIN {
        let role = read_string(input, &mut cursor, NO_LIMIT)?;
        let k = role_admin_key(role.as_slice());
        let admin = load_text(store, k.as_slice(), 256)?;
        let mut out: Vec<u8> = Vec::new();
        out.push(1u8);
        append_bytes(&mut out, admin.as_slice());
        Ok(out)
    } else {
        Err(ContractError::InvalidInput)
    }
}

/// After a grant the account has the role; after a revoke it has not.
pub proof fn law_grant_then_revoke(m: Map<Seq<u8>, Seq<u8>>, role: Seq<u8>, account: Seq<u8>)
    ensures
        has_role(m.insert(member_key(role, account), seq![1u8]), role, account) == 1,
        has_role(m.insert(member_key(role, account), seq![0u8]), role, account) == 0,
{
    assert(prefix_up_to(seq![1u8], 1) =~= seq![1u8]);
    assert(prefix_up_to(seq![0u8], 1) =~= seq![0u8]);
}

/// Distinct (role, account) pairs have distinct membership keys (for roles
/// that fit a length-prefixed field, as every role read from a call does).
pub proof fn lemma_member_key_injective(r1: Seq<u8>, a1: Seq<u8>, r2: Seq<u8>, a2: Seq<u8>)
    requires
        r1.len() <= 65535,
        r2.len() <= 65535,
        member_key(r1, a1) == member_key(r2, a2),
    ensures
        r1 == r2,
        a1 == a2,
{
    let p = "access:role:".spec_bytes();
    let t1 = spec_string_field(r1) + a1;
    let t2 = spec_string_field(r2) + a2;
    assert(p + t1 == member_key(r1, a1));
    assert(p + t2 == member_key(r2, a2));
    crate::host::lemma_prefix_injective(p, t1, t2);
    let l1 = (r1.len() % 65536) as u16;
    let l2 = (r2.len() % 65536) as u16;
    assert(t1[0] == u16_le_bytes(l1)[0] && t1[1] == u16_le_bytes(l1)[1]);
    assert(t2[0] == u16_le_bytes(l2)[0] && t2[1] == u16_le_bytes(l2)[1]);
    lemma_u16_roundtrip(l1);
    lemma_u16_roundtrip(l2);
    assert(l1 == l2);
    assert(r1.len() == r2.len());
    assert(r1 =~= t1.subrange(2, 2 + r1.len() as int));
    assert(r2 =~= t2.subrange(2, 2 + r2.len() as int));
    assert(a1 =~= t1.subrange(2 + r1.len() as int, t1.len() as int));
    assert(a2 =~= t2.subrange(2 + r2.len() as int, t2.len() as int));
}

/// Granting or revoking a role for one account leaves the membership of
/// every other (role, account) pair as it was.
pub proof fn law_other_pairs_unchanged(m: Map<Seq<u8>, Seq<u8>>, role: Seq<u8>, account: Seq<u8>, flag: u8, r2: Seq<u8>, a2: Seq<u8>)
    requires
        role.len() <= 65535,
        r2.len() <= 65535,
        role != r2 || account != a2,
    ensures
        has_role(m.insert(member_key(role, account), seq![flag]), r2, a2) == has_role(m, r2, a2),
{
    if member_key(role, account) == member_key(r2, a2) {
        lemma_member_key_injective(role, account, r2, a2);
    }
}

/// A call `[op][role][other]` on a role and an account (or admin).
pub open spec fn pair_call(op: u8, role: Seq<u8>, other: Seq<u8>) -> Seq<u8> {
    seq![op] + spec_string_field(role) + spec_string_field(other)
}

/// A call `[op][role]` on a role alone.
pub open spec fn role_call(op: u8, role: Seq<u8>) -> Seq<u8> {
    seq![op] + spec_string_field(role)
}

/// Text that a call can carry: UTF-8 of at most `NO_LIMIT` bytes.
pub open spec fn text_ok(s: Seq<u8>) -> bool {
    s.len() <= NO_LIMIT && valid_utf8(s)
}

proof fn lemma_pair_parses(op: u8, role: Seq<u8>, other: Seq<u8>)
    requires
        text_ok(role),
        text_ok(other),
    ensures
        spec_read_u8(pair_call(op, role, other), 0) == Some((op, 1int)),
        spec_read_string(pair_call(op, role, other), 1, NO_LIMIT as int) == Some((role, 3 + role.len() as int)),
        spec_read_string(pair_call(op, role, other), 3 + role.len() as int, NO_LIMIT as int)
            == Some((other, 5 + role.len() + other.len() as int)),
{
    let c = pair_call(op, role, other);
    assert(spec_read_string(c, 1, NO_LIMIT as int) == Some((role, 3 + role.len() as int))) by {
        lemma_read_string_field(seq![op], role, spec_string_field(other), NO_LIMIT as int);
    }
    let pre = seq![op] + spec_string_field(role);
    assert(pre.len() == 3 + role.len());
    assert(spec_read_string(c, 3 + role.len() as int, NO_LIMIT as int) == Some((other, 5 + role.len() + other.len() as int))) by {
        assert(pre + spec_string_field(other) + Seq::<u8>::empty() =~= c);
        lemma_read_string_field(pre, other, Seq::<u8>::empty(), NO_LIMIT as int);
    }
}

proof fn lemma_pair_parts(m: Map<Seq<u8>, Seq<u8>>, c: Seq<u8>, op: u8, role: Seq<u8>, other: Seq<u8>, p1: int)
    requires
        op == OP_GRANT_ROLE || op == OP_REVOKE_ROLE || op == OP_HAS_ROLE || op == OP_SET_ADMIN,
        spec_read_u8(c, 0) == Some((op, 1int)),
        spec_read_string(c, 1, NO_LIMIT as int) == Some((role, p1)),
        spec_read_string(c, p1, NO_LIMIT as int) matches Some((o, _)) && o == other,
    ensures
        op == OP_GRANT_ROLE ==> spec_handle(m, c) == (m.insert(member_key(role, other), seq![1u8]), Ok::<Seq<u8>, ContractError>(seq![1u8])),
        op == OP_REVOKE_ROLE ==> spec_handle(m, c) == (m.insert(member_key(role, other), seq![0u8]), Ok::<Seq<u8>, ContractError>(seq![1u8])),
        op == OP_HAS_ROLE ==> spec_handle(m, c) == (m, Ok::<Seq<u8>, ContractError>(seq![1u8, has_role(m, role, other)])),
        op == OP_SET_ADMIN ==> spec_handle(m, c) == (m.insert(admin_key(role), other), Ok::<Seq<u8>, ContractError>(seq![1u8])),
{
}

proof fn lemma_pair_call(m: Map<Seq<u8>, Seq<u8>>, op: u8, role: Seq<u8>, other: Seq<u8>)
    requires
        op == OP_GRANT_ROLE || op == OP_REVOKE_ROLE || op == OP_HAS_ROLE || op == OP_SET_ADMIN,
        text_ok(role),
        text_ok(other),
    ensures
        op == OP_GRANT_ROLE ==> spec_handle(m, pair_call(op, role, other))
            == (m.insert(member_key(role, other), seq![1u8]), Ok::<Seq<u8>, ContractError>(seq![1u8])),
        op == OP_REVOKE_ROLE ==> spec_handle(m, pair_call(op, role, other))
            == (m.insert(member_key(role, other), seq![0u8]), Ok::<Seq<u8>, ContractError>(seq![1u8])),
        op == OP_HAS_ROLE ==> spec_handle(m, pair_call(op, role, other))
            == (m, Ok::<Seq<u8>, ContractError>(seq![1u8, has_role(m, role, other)])),
        op == OP_SET_ADMIN ==> spec_handle(m, pair_call(op, role, other))
            == (m.insert(admin_key(role), other), Ok::<Seq<u8>, ContractError>(seq![1u8])),
{
    lemma_pair_parses(op, role, other);
    lemma_pair_parts(m, pair_call(op, role, other), op, role, other, 3 + role.len() as int);
}

/// Through the contract's calls: GRANT_ROLE answers `[1]`, and HAS_ROLE
/// of the same pair then answers `[1, 1]`; REVOKE_ROLE answers `[1]`, and
/// HAS_ROLE then answers `[1, 0]`. Either leaves the HAS_ROLE answer of
/// every other (role, account) pair as it was.
pub proof fn law_role_calls(m: Map<Seq<u8>, Seq<u8>>, role: Seq<u8>, account: Seq<u8>, r2: Seq<u8>, a2: Seq<u8>)
    requires
        text_ok(role),
        text_ok(account),
        text_ok(r2),
        text_ok(a2),
        role != r2 || account != a2,
    ensures
        spec_handle(m, pair_call(OP_GRANT_ROLE, role, account)).1 == Ok::<Seq<u8>, ContractError>(seq![1u8]),
        spec_handle(spec_handle(m, pair_call(OP_GRANT_ROLE, role, account)).0, pair_call(OP_HAS_ROLE, role, account)).1
            == Ok::<Seq<u8>, ContractError>(seq![1u8, 1u8]),
        spec_handle(m, pair_call(OP_REVOKE_ROLE, role, account)).1 == Ok::<Seq<u8>, ContractError>(seq![1u8]),
        spec_handle(spec_handle(m, pair_call(OP_REVOKE_ROLE, role, account)).0, pair_call(OP_HAS_ROLE, role, account)).1
            == Ok::<Seq<u8>, ContractError>(seq![1u8, 0u8]),
        spec_handle(spec_handle(m, pair_call(OP_GRANT_ROLE, role, account)).0, pair_call(OP_HAS_ROLE, r2, a2)).1
            == spec_handle(m, pair_call(OP_HAS_ROLE, r2, a2)).1,
        spec_handle(spec_handle(m, pair_call(OP_REVOKE_ROLE, role, account)).0, pair_call(OP_HAS_ROLE, r2, a2)).1
            == spec_handle(m, pair_call(OP_HAS_ROLE, r2, a2)).1,
{
    let mg = m.insert(member_key(role, account), seq![1u8]);
    let mr = m.insert(member_key(role, account), seq![0u8]);
    lemma_pair_call(m, OP_GRANT_ROLE, role, account);
    lemma_pair_call(m, OP_REVOKE_ROLE, role, account);
    lemma_pair_call(mg, OP_HAS_ROLE, role, account);
    lemma_pair_call(mr, OP_HAS_ROLE, role, account);
    lemma_pair_call(m, OP_HAS_ROLE, r2, a2);
    lemma_pair_call(mg, OP_HAS_ROLE, r2, a2);
    lemma_pair_call(mr, OP_HAS_ROLE, r2, a2);
    law_grant_then_revoke(m, role, account);
    law_other_pairs_unchanged(m, role, account, 1u8, r2, a2);
    law_other_pairs_unchanged(m, role, account, 0u8, r2, a2);
}

proof fn lemma_get_admin_call(m: Map<Seq<u8>, Seq<u8>>, role: Seq<u8>)
    requires
        text_ok(role),
    ensures
        spec_handle(m, role_call(OP_GET_ADMIN, role)) == match spec_text(m, admin_key(role), 256) {
            Err(e) => (m, Err(e)),
            Ok(admin) => (m, Ok::<Seq<u8>, ContractError>(seq![1u8] + admin)),
        },
{
    lemma_read_string_field(seq![OP_GET_ADMIN], role, Seq::<u8>::empty(), NO_LIMIT as int);
    assert(seq![OP_GET_ADMIN] + spec_string_field(role) + Seq::<u8>::empty() =~= role_call(OP_GET_ADMIN, role));
}

/// SET_ADMIN answers `[1]`, and GET_ADMIN of the role then answers `[1]`
/// and the admin that was set, whatever was set before (for an admin of
/// 1 to 256 bytes of UTF-8).
pub proof fn law_set_admin_then_get(m: Map<Seq<u8>, Seq<u8>>, role: Seq<u8>, admin: Seq<u8>)
    requires
        text_ok(role),
        0 < admin.len() <= 256,
        valid_utf8(admin),
    ensures
        spec_handle(m, pair_call(OP_SET_ADMIN, role, admin)).1 == Ok::<Seq<u8>, ContractError>(seq![1u8]),
        spec_handle(spec_handle(m, pair_call(OP_SET_ADMIN, role, admin)).0, role_call(OP_GET_ADMIN, role)).1
            == Ok::<Seq<u8>, ContractError>(seq![1u8] + admin),
{
    lemma_pair_call(m, OP_SET_ADMIN, role, admin);
    let m1 = m.insert(admin_key(role), admin);
    lemma_get_admin_call(m1, role);
    assert(prefix_up_to(admin, 256) =~= admin);
}

} // verus!
