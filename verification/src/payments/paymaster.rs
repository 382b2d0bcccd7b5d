//! Paymaster: sponsors deposit credit and set a policy saying whom they
//! sponsor, for which operations and up to which limits; sponsored
//! charges are taken from their balance.
use vstd::prelude::*;
use vstd::string::StringSliceAdditionalSpecFns;
use vstd::utf8::{valid_utf8, decode_utf8};
use crate::codec::{u64_le_bytes, decimal_digits, u64_to_decimal, push_u64_le, append_bytes, u64_to_le_vec};
use crate::error::ContractError;
use crate::host::{HostEnv, spec_caller, get_caller, spec_load, load_bytes, spec_u64_or_zero, load_u64_or_zero, save_u64, key_with, reply_view, reply_byte, lemma_u64_saved, Event, event_log, emit};
use crate::spacetime::env::is_white_space;
use crate::store::{KvStore, prefix_up_to};
use crate::text::{find_from, run_end, is_ascii_digit, digits_value, contains_text, find_chars, skip_whitespace, skip_char, skip_digits, digits_to_u64, lemma_find_from_bounds, lemma_run_end_bounds};
use crate::utf8::{chars_of, decode_chars};
use crate::wire::{spec_read_u8, spec_read_u64, spec_read_string, read_u8, read_u64, read_string, spec_string_field, lemma_read_string_field, lemma_read_u64_field};

verus! {

pub const OP_DEPOSIT: u8 = 1;
pub const OP_WITHDRAW: u8 = 2;
pub const OP_SET_POLICY: u8 = 3;
pub const OP_SPONSOR_CHARGE: u8 = 4;
pub const OP_GET_BUDGET: u8 = 5;
pub const OP_GET_POLICY: u8 = 6;

pub const MAX_STRING_LEN: usize = 512;
pub const POLICY_MAX: usize = 4096;
pub const SECONDS_PER_DAY: u64 = 86400;

pub open spec fn balance_key(did: Seq<u8>) -> Seq<u8> {
    "bal:".spec_bytes() + did
}

pub open spec fn policy_key(did: Seq<u8>) -> Seq<u8> {
    "pol:".spec_bytes() + did
}

/// The key of a sponsor's spending on one day: `spent:<did>:<day>`.
pub open spec fn daily_spend_key(did: Seq<u8>, day: u64) -> Seq<u8> {
    "spent:".spec_bytes() + did + seq![58u8] + decimal_digits(day as nat)
}

/// The text after the first occurrence of `field` in `json`.
pub open spec fn after_field(json: Seq<char>, field: Seq<char>) -> Option<Seq<char>> {
    match find_from(json, field, 0) {
        None => None,
        Some(idx) => Some(json.subrange(idx + field.len(), json.len() as int)),
    }
}

/// A number field of the policy: after the field's name and the next
/// colon, leading whitespace and quotes are skipped and the ASCII digits
/// that follow are read. Anything else (no field, no colon, no digits, a
/// number too large for a `u64`) gives 0.
pub open spec fn spec_parse_u64_field(json: Seq<char>, field: Seq<char>) -> u64 {
    match after_field(json, field) {
        None => 0,
        Some(rest) => match find_from(rest, seq![':'], 0) {
            None => 0,
            Some(colon) => {
                let a = rest.subrange(colon + 1, rest.len() as int);
                let s1 = run_end(a, 0, |c: char| is_white_space(c));
                let s2 = run_end(a, s1, |c: char| c == '"');
                let e = run_end(a, s2, |c: char| is_ascii_digit(c));
                if e > s2 && digits_value(a.subrange(s2, e)) <= u64::MAX {
                    digits_value(a.subrange(s2, e)) as u64
                } else {
                    0
                }
            },
        },
    }
}

/// A list field of the policy: from the first `[` after the field's name
/// through the next `]`; empty when there is no field or no `[`.
pub open spec fn spec_parse_string_field(json: Seq<char>, field: Seq<char>) -> Seq<char> {
    match after_field(json, field) {
        None => Seq::empty(),
        Some(rest) => match find_from(rest, seq!['['], 0) {
            None => Seq::empty(),
            Some(b) => match find_from(rest.subrange(b, rest.len() as int), seq![']'], 0) {
                Some(end) => rest.subrange(b, b + end + 1),
                None => Seq::empty(),
            },
        },
    }
}

/// A list field whose `[` is never closed: reading it runs past the end of
/// the text.
pub open spec fn string_field_unclosed(json: Seq<char>, field: Seq<char>) -> bool {
    match after_field(json, field) {
        None => false,
        Some(rest) => match find_from(rest, seq!['['], 0) {
            None => false,
            Some(b) => find_from(rest.subrange(b, rest.len() as int), seq![']'], 0) is None,
        },
    }
}

pub open spec fn per_call_field() -> Seq<char> {
    "per_call_max"@
}

pub open spec fn daily_field() -> Seq<char> {
    "daily_max"@
}

pub open spec fn expires_field() -> Seq<char> {
    "expires_at"@
}

pub open spec fn ops_field() -> Seq<char> {
    "allowed_ops"@
}

pub open spec fn dids_field() -> Seq<char> {
    "allowed_dids"@
}

/// Whether a policy text can be read without running past its end.
pub open spec fn policy_readable(json: Seq<char>) -> bool {
    !string_field_unclosed(json, ops_field()) && !string_field_unclosed(json, dids_field())
}

/// What an allow-list admits: everything when it is empty or holds
/// `"*"`, else exactly the entries it lists (each written in quotes).
pub open spec fn list_allows(allowed: Seq<char>, item: Seq<char>) -> bool {
    allowed.len() == 0 || contains_text(allowed, seq!['"', '*', '"']) || contains_text(allowed, quoted(item))
}

/// An entry of a list as it is written: in double quotes.
pub open spec fn quoted(item: Seq<char>) -> Seq<char> {
    seq!['"'] + item + seq!['"']
}

/// The fields of a sponsor's policy that the paymaster enforces. The full
/// text is stored as it was set.
pub struct Policy {
    pub per_call_max: u64,
    pub daily_max: u64,
    pub expires_at: u64,
    pub allowed_ops_raw: Vec<char>,
    pub allowed_dids_raw: Vec<char>,
}

/// The characters `s[from..to]`.
fn slice_chars(s: &[char], from: usize, to: usize) -> (r: Vec<char>)
    requires
        from <= to <= s@.len(),
    ensures
        r@ == s@.subrange(from as int, to as int),
{
    let mut out: Vec<char> = Vec::new();
    let mut i = from;
    while i < to
        invariant
            from <= i <= to <= s@.len(),
            out@ == s@.subrange(from as int, i as int),
        decreases to - i,
    {
        out.push(s[i]);
        i = i + 1;
        proof {
            assert(out@ =~= s@.subrange(from as int, i as int));
        }
    }
    out
}

/// The text after the first occurrence of `field`.
fn find_after_field(json: &[char], field: &[char]) -> (r: Option<Vec<char>>)
    ensures
        match r {
            Some(v) => after_field(json@, field@) == Some(v@),
            None => after_field(json@, field@) is None,
        },
{
    match find_chars(json, field, 0) {
        None => None,
        Some(idx) => {
            let n = json.len();
            proof {
                lemma_find_from_bounds(json@, field@, 0);
            }
            Some(slice_chars(json, idx + field.len(), n))
        },
    }
}

/// Reads a number field of a policy.
pub fn parse_u64_field(json: &[char], field: &[char]) -> (r: u64)
    ensures
        r == spec_parse_u64_field(json@, field@),
{
    let rest = match find_after_field(json, field) {
        None => {
            return 0;
        },
        Some(rest) => rest,
    };
    let colon_pat = vec![':'];
    assert(colon_pat@ =~= seq![':']);
    let colon = match find_chars(rest.as_slice(), colon_pat.as_slice(), 0) {
        None => {
            return 0;
        },
        Some(c) => c,
    };
    let n = rest.len();
    proof {
        lemma_find_from_bounds(rest@, seq![':'], 0);
    }
    let a = slice_chars(rest.as_slice(), colon + 1, n);
    let s1 = skip_whitespace(a.as_slice(), 0);
    proof {
        lemma_run_end_bounds(a@, 0, |c: char| is_white_space(c));
    }
    let s2 = skip_char(a.as_slice(), s1, '"');
    proof {
        lemma_run_end_bounds(a@, s1 as int, |c: char| c == '"');
    }
    let e = skip_digits(a.as_slice(), s2);
    proof {
        let digit = |c: char| is_ascii_digit(c);
        lemma_run_end_bounds(a@, s2 as int, digit);
        assert forall|k: int| s2 <= k < e implies is_ascii_digit(#[trigger] a@[k]) by {
            assert(digit(a@[k]));
        }
    }
    if e > s2 {
        match digits_to_u64(a.as_slice(), s2, e) {
            Some(v) => v,
            None => 0,
        }
    } else {
        0
    }
}

/// Reads a list field of a policy.
pub fn parse_string_field(json: &[char], field: &[char]) -> (r: Vec<char>)
    requires
        !string_field_unclosed(json@, field@),
    ensures
        r@ == spec_parse_string_field(json@, field@),
{
    let rest = match find_after_field(json, field) {
        None => {
            return Vec::new();
        },
        Some(rest) => rest,
    };
    let open_pat = vec!['['];
    assert(open_pat@ =~= seq!['[']);
    let bracket = match find_chars(rest.as_slice(), open_pat.as_slice(), 0) {
        None => {
            return Vec::new();
        },
        Some(b) => b,
    };
    let n = rest.len();
    proof {
        lemma_find_from_bounds(rest@, seq!['['], 0);
    }
    let tail = slice_chars(rest.as_slice(), bracket, n);
    let close_pat = vec![']'];
    assert(close_pat@ =~= seq![']']);
    match find_chars(tail.as_slice(), close_pat.as_slice(), 0) {
        Some(end) => {
            proof {
                lemma_find_from_bounds(tail@, seq![']'], 0);
            }
            slice_chars(rest.as_slice(), bracket, bracket + end + 1)
        },
        None => Vec::new(),
    }
}

/// Reads the enforced fields of a policy text.
pub fn parse_policy(json: &[char]) -> (r: Policy)
    requires
        policy_readable(json@),
    ensures
        r.per_call_max == spec_parse_u64_field(json@, per_call_field()),
        r.daily_max == spec_parse_u64_field(json@, daily_field()),
        r.expires_at == spec_parse_u64_field(json@, expires_field()),
        r.allowed_ops_raw@ == spec_parse_string_field(json@, ops_field()),
        r.allowed_dids_raw@ == spec_parse_string_field(json@, dids_field()),
{
    let per_call = chars_of("per_call_max");
    let daily = chars_of("daily_max");
    let expires = chars_of("expires_at");
    let ops = chars_of("allowed_ops");
    let dids = chars_of("allowed_dids");
    Policy {
        per_call_max: parse_u64_field(json, per_call.as_slice()),
        daily_max: parse_u64_field(json, daily.as_slice()),
        expires_at: parse_u64_field(json, expires.as_slice()),
        allowed_ops_raw: parse_string_field(json, ops.as_slice()),
        allowed_dids_raw: parse_string_field(json, dids.as_slice()),
    }
}

/// Whether an allow-list admits `item`.
fn list_admits(allowed_raw: &[char], item: &[char]) -> (r: bool)
    ensures
        r == list_allows(allowed_raw@, item@),
{
    if allowed_raw.len() == 0 {
        return true;
    }
    let star = vec!['"', '*', '"'];
    assert(star@ =~= seq!['"', '*', '"']);
    if find_chars(allowed_raw, star.as_slice(), 0).is_some() {
        return true;
    }
    let mut entry: Vec<char> = Vec::new();
    entry.push('"');
    let mut i: usize = 0;
    while i < item.len()
        invariant
            i <= item@.len(),
            entry@ == seq!['"'] + item@.subrange(0, i as int),
        decreases item@.len() - i,
    {
        entry.push(item[i]);
        i = i + 1;
        assert(entry@ =~= seq!['"'] + item@.subrange(0, i as int));
    }
    entry.push('"');
    assert(entry@ =~= quoted(item@));
    find_chars(allowed_raw, entry.as_slice(), 0).is_some()
}

/// Whether the policy's DID list admits `did`.
pub fn policy_allows_did(allowed_raw: &[char], did: &[char]) -> (r: bool)
    ensures
        r == list_allows(allowed_raw@, did@),
{
    list_admits(allowed_raw, did)
}

/// Whether the policy's operation list admits `op`.
pub fn policy_allows_op(allowed_raw: &[char], op: &[char]) -> (r: bool)
    ensures
        r == list_allows(allowed_raw@, op@),
{
    list_admits(allowed_raw, op)
}

/// A sponsored charge once the caller (`beneficiary`) and the sponsor's
/// policy text are known, at block time `now`.
pub open spec fn spec_charge_under(
    m: Map<Seq<u8>, Seq<u8>>,
    now: u64,
    sponsor: Seq<u8>,
    amount: u64,
    beneficiary: Seq<char>,
    operation: Seq<char>,
    policy: Seq<char>,
) -> (Map<Seq<u8>, Seq<u8>>, Result<Seq<u8>, ContractError>) {
    let per_call_max = spec_parse_u64_field(policy, per_call_field());
    let daily_max = spec_parse_u64_field(policy, daily_field());
    let expires_at = spec_parse_u64_field(policy, expires_field());
    if expires_at > 0 && now > expires_at {
        (m, Err(ContractError::Unauthorized))
    } else if !list_allows(spec_parse_string_field(policy, dids_field()), beneficiary) {
        (m, Err(ContractError::Unauthorized))
    } else if !list_allows(spec_parse_string_field(policy, ops_field()), operation) {
        (m, Err(ContractError::Unauthorized))
    } else if per_call_max > 0 && amount > per_call_max {
        (m, Err(ContractError::InsufficientPayment))
    } else {
        let day_key = daily_spend_key(sponsor, now / SECONDS_PER_DAY);
        let spent = spec_u64_or_zero(m, day_key);
        if daily_max > 0 && spent + amount > daily_max {
            (m, Err(ContractError::InsufficientBalance))
        } else {
            let balance = spec_u64_or_zero(m, balance_key(sponsor));
            if amount > balance {
                (m, Err(ContractError::InsufficientBalance))
            } else {
                (
                    m.insert(balance_key(sponsor), u64_le_bytes((balance - amount) as u64)).insert(
                        day_key,
                        u64_le_bytes((spent + amount) as u64),
                    ),
                    Ok(seq![1u8]),
                )
            }
        }
    }
}

/// Where a charge under a known policy cannot go on: the policy has an
/// unclosed list, or the day's spending plus the amount leaves the range
/// of a `u64` at a point where that sum is computed.
pub open spec fn charge_under_breaks(
    m: Map<Seq<u8>, Seq<u8>>,
    now: u64,
    sponsor: Seq<u8>,
    amount: u64,
    beneficiary: Seq<char>,
    operation: Seq<char>,
    policy: Seq<char>,
) -> bool {
    if !policy_readable(policy) {
        true
    } else {
        let per_call_max = spec_parse_u64_field(policy, per_call_field());
        let daily_max = spec_parse_u64_field(policy, daily_field());
        let expires_at = spec_parse_u64_field(policy, expires_field());
        let passes = !(expires_at > 0 && now > expires_at)
            && list_allows(spec_parse_string_field(policy, dids_field()), beneficiary)
            && list_allows(spec_parse_string_field(policy, ops_field()), operation)
            && !(per_call_max > 0 && amount > per_call_max);
        let spent = spec_u64_or_zero(m, daily_spend_key(sponsor, now / SECONDS_PER_DAY));
        let balance = spec_u64_or_zero(m, balance_key(sponsor));
        passes && spent + amount > u64::MAX && (daily_max > 0 || amount <= balance)
    }
}

/// SPONSOR_CHARGE after its fields are read: the caller is the sponsor,
/// whose policy admits (or refuses) the beneficiary named in the call and
/// whose balance pays.
pub open spec fn spec_charge(m: Map<Seq<u8>, Seq<u8>>, env: HostEnv, beneficiary: Seq<u8>, amount: u64, operation: Seq<u8>) -> (Map<Seq<u8>, Seq<u8>>, Result<Seq<u8>, ContractError>) {
    match spec_caller(env, ContractError::Unauthorized) {
        Err(e) => (m, Err(e)),
        Ok(sponsor) => match spec_load(m, policy_key(sponsor), POLICY_MAX as int) {
            Err(e) => (m, Err(e)),
            Ok(pb) => if !valid_utf8(pb) {
                (m, Err(ContractError::InvalidInput))
            } else {
                spec_charge_under(m, env.timestamp, sponsor, amount, decode_utf8(beneficiary), decode_utf8(operation), decode_utf8(pb))
            },
        },
    }
}

/// Where SPONSOR_CHARGE cannot go on (see `charge_under_breaks`).
pub open spec fn charge_breaks(m: Map<Seq<u8>, Seq<u8>>, env: HostEnv, beneficiary: Seq<u8>, amount: u64, operation: Seq<u8>) -> bool {
    match spec_caller(env, ContractError::Unauthorized) {
        Err(_) => false,
        Ok(sponsor) => match spec_load(m, policy_key(sponsor), POLICY_MAX as int) {
            Err(_) => false,
            Ok(pb) => valid_utf8(pb) && charge_under_breaks(
                m, env.timestamp, sponsor, amount, decode_utf8(beneficiary), decode_utf8(operation), decode_utf8(pb)),
        },
    }
}

/// DEPOSIT: the value sent with the call is added to the caller's balance.
pub open spec fn spec_deposit(m: Map<Seq<u8>, Seq<u8>>, env: HostEnv) -> (Map<Seq<u8>, Seq<u8>>, Result<Seq<u8>, ContractError>) {
    match spec_caller(env, ContractError::Unauthorized) {
        Err(e) => (m, Err(e)),
        Ok(sponsor) => if env.msg_value == 0 {
            (m, Err(ContractError::InvalidInput))
        } else if spec_u64_or_zero(m, balance_key(sponsor)) + env.msg_value > u64::MAX {
            (m, Err(ContractError::Failed))
        } else {
            let new_balance = (spec_u64_or_zero(m, balance_key(sponsor)) + env.msg_value) as u64;
            (m.insert(balance_key(sponsor), u64_le_bytes(new_balance)), Ok(seq![1u8] + u64_le_bytes(new_balance)))
        },
    }
}

/// WITHDRAW: the caller takes back part of its balance.
pub open spec fn spec_withdraw(m: Map<Seq<u8>, Seq<u8>>, env: HostEnv, amount: u64) -> (Map<Seq<u8>, Seq<u8>>, Result<Seq<u8>, ContractError>) {
    match spec_caller(env, ContractError::Unauthorized) {
        Err(e) => (m, Err(e)),
        Ok(sponsor) => if amount > spec_u64_or_zero(m, balance_key(sponsor)) {
            (m, Err(ContractError::InsufficientBalance))
        } else {
            (m.insert(balance_key(sponsor), u64_le_bytes((spec_u64_or_zero(m, balance_key(sponsor)) - amount) as u64)), Ok(seq![1u8]))
        },
    }
}

pub open spec fn spec_handle(m: Map<Seq<u8>, Seq<u8>>, env: HostEnv, input: Seq<u8>) -> (Map<Seq<u8>, Seq<u8>>, Result<Seq<u8>, ContractError>) {
    let bad = (m, Err(ContractError::InvalidInput));
    match spec_read_u8(input, 0) {
        None => bad,
        Some((op, p)) => if op == OP_DEPOSIT {
            spec_deposit(m, env)
        } else if op == OP_WITHDRAW {
            match spec_read_u64(input, p) {
                None => bad,
                Some((amount, _)) => spec_withdraw(m, env, amount),
            }
        } else if op == OP_SET_POLICY {
            match spec_read_string(input, p, MAX_STRING_LEN as int) {
                None => bad,
                Some((json, _)) => match spec_caller(env, ContractError::Unauthorized) {
                    Err(e) => (m, Err(e)),
                    Ok(sponsor) => (m.insert(policy_key(sponsor), json), Ok(seq![1u8])),
                },
            }
        } else if op == OP_SPONSOR_CHARGE {
            match spec_read_string(input, p, MAX_STRING_LEN as int) {
                None => bad,
                Some((beneficiary, p1)) => match spec_read_u64(input, p1) {
                    None => bad,
                    Some((amount, p2)) => match spec_read_string(input, p2, MAX_STRING_LEN as int) {
                        None => bad,
                        Some((operation, _)) => spec_charge(m, env, beneficiary, amount, operation),
                    },
                },
            }
        } else if op == OP_GET_BUDGET {
            match spec_read_string(input, p, MAX_STRING_LEN as int) {
                None => bad,
                Some((sponsor, _)) => (m, Ok(seq![1u8] + u64_le_bytes(spec_u64_or_zero(m, balance_key(sponsor))))),
            }
        } else if op == OP_GET_POLICY {
            match spec_read_string(input, p, MAX_STRING_LEN as int) {
                None => bad,
                Some((sponsor, _)) => match spec_load(m, policy_key(sponsor), POLICY_MAX as int) {
                    Err(e) => (m, Err(e)),
                    Ok(raw) => (m, Ok(seq![1u8] + raw)),
                },
            }
        } else {
            bad
        }
    }
}

/// Where a call cannot go on: a SPONSOR_CHARGE that breaks.
pub open spec fn handle_breaks(m: Map<Seq<u8>, Seq<u8>>, env: HostEnv, input: Seq<u8>) -> bool {
    match spec_read_u8(input, 0) {
        Some((op, p)) => op == OP_SPONSOR_CHARGE && match spec_read_string(input, p, MAX_STRING_LEN as int) {
            None => false,
            Some((beneficiary, p1)) => match spec_read_u64(input, p1) {
                None => false,
                Some((amount, p2)) => match spec_read_string(input, p2, MAX_STRING_LEN as int) {
                    None => false,
                    Some((operation, _)) => charge_breaks(m, env, beneficiary, amount, operation),
                },
            },
        },
        None => false,
    }
}

/// Event of a DEPOSIT that went through: the new balance, then the sponsor.
pub open spec fn deposit_events(m: Map<Seq<u8>, Seq<u8>>, env: HostEnv) -> Seq<(Seq<u8>, Seq<u8>)> {
    match (spec_caller(env, ContractError::Unauthorized), spec_deposit(m, env).1) {
        (Ok(sponsor), Ok(_)) => seq![(
            "paymaster:deposit".spec_bytes(),
            u64_le_bytes((spec_u64_or_zero(m, balance_key(sponsor)) + env.msg_value) as u64) + sponsor,
        )],
        _ => seq![],
    }
}

/// Event of a WITHDRAW that went through: the amount, then what is left.
pub open spec fn withdraw_events(m: Map<Seq<u8>, Seq<u8>>, env: HostEnv, amount: u64) -> Seq<(Seq<u8>, Seq<u8>)> {
    match (spec_caller(env, ContractError::Unauthorized), spec_withdraw(m, env, amount).1) {
        (Ok(sponsor), Ok(_)) => seq![(
            "paymaster:withdraw".spec_bytes(),
            u64_le_bytes(amount) + u64_le_bytes((spec_u64_or_zero(m, balance_key(sponsor)) - amount) as u64),
        )],
        _ => seq![],
    }
}

/// Event of a SPONSOR_CHARGE that went through: the amount, then the
/// sponsor, the beneficiary and the operation, separated by zero bytes.
pub open spec fn charge_events(m: Map<Seq<u8>, Seq<u8>>, env: HostEnv, beneficiary: Seq<u8>, amount: u64, operation: Seq<u8>) -> Seq<(Seq<u8>, Seq<u8>)> {
    match (spec_caller(env, ContractError::Unauthorized), spec_charge(m, env, beneficiary, amount, operation).1) {
        (Ok(sponsor), Ok(_)) => seq![(
            "paymaster:sponsored".spec_bytes(),
            u64_le_bytes(amount) + sponsor + seq![0u8] + beneficiary + seq![0u8] + operation,
        )],
        _ => seq![],
    }
}

/// The event of a call (setting a policy announces the sponsor).
pub open spec fn spec_events(m: Map<Seq<u8>, Seq<u8>>, env: HostEnv, input: Seq<u8>) -> Seq<(Seq<u8>, Seq<u8>)> {
    match spec_read_u8(input, 0) {
        None => seq![],
        Some((op, p)) => if op == OP_DEPOSIT {
            deposit_events(m, env)
        } else if op == OP_WITHDRAW {
            match spec_read_u64(input, p) {
                None => seq![],
                Some((amount, _)) => withdraw_events(m, env, amount),
            }
        } else if op == OP_SET_POLICY {
            match (spec_read_string(input, p, MAX_STRING_LEN as int), spec_caller(env, ContractError::Unauthorized)) {
                (Some(_), Ok(sponsor)) => seq![("paymaster:policy_set".spec_bytes(), sponsor)],
                _ => seq![],
            }
        } else if op == OP_SPONSOR_CHARGE {
            match spec_read_string(input, p, MAX_STRING_LEN as int) {
                None => seq![],
                Some((beneficiary, p1)) => match spec_read_u64(input, p1) {
                    None => seq![],
                    Some((amount, p2)) => match spec_read_string(input, p2, MAX_STRING_LEN as int) {
                        None => seq![],
                        Some((operation, _)) => charge_events(m, env, beneficiary, amount, operation),
                    },
                },
            }
        } else {
            seq![]
        },
    }
}

fn balance_key_of(did: &[u8]) -> (r: Vec<u8>)
    ensures
        r@ == balance_key(did@),
{
    key_with("bal:", did)
}

fn policy_key_of(did: &[u8]) -> (r: Vec<u8>)
    ensures
        r@ == policy_key(did@),
{
    key_with("pol:", did)
}

fn daily_spend_key_of(did: &[u8], day: u64) -> (r: Vec<u8>)
    ensures
        r@ == daily_spend_key(did@, day),
{
    let mut k = key_with("spent:", did);
    k.push(58u8);
    let digits = u64_to_decimal(day);
    append_bytes(&mut k, digits.as_slice());
    k
}

/// DEPOSIT.
pub fn handle_deposit(store: &mut KvStore, env: &HostEnv, events: &mut Vec<Event>) -> (r: Result<Vec<u8>, ContractError>)
    requires
        old(store).wf(),
    ensures
        final(store).wf(),
        (final(store)@, reply_view(r)) == spec_deposit(old(store)@, *env),
        event_log(final(events)@) == event_log(old(events)@) + deposit_events(old(store)@, *env),
{
    let sponsor = get_caller(env, ContractError::Unauthorized)?;
    let deposit = env.msg_value;
    if deposit == 0 {
        return Err(ContractError::InvalidInput);
    }
    let key = balance_key_of(sponsor.as_slice());
    let current = load_u64_or_zero(store, key.as_slice());
    let new_balance = match current.checked_add(deposit) {
        Some(v) => v,
        None => {
            return Err(ContractError::Failed);
        },
    };
    save_u64(store, key.as_slice(), new_balance);
    let mut event = u64_to_le_vec(new_balance);
    append_bytes(&mut event, sponsor.as_slice());
    emit(events, "paymaster:deposit", event.as_slice());
    let mut out = reply_byte(1);
    push_u64_le(&mut out, new_balance);
    Ok(out)
}

/// WITHDRAW.
pub fn handle_withdraw(store: &mut KvStore, env: &HostEnv, amount: u64, events: &mut Vec<Event>) -> (r: Result<Vec<u8>, ContractError>)
    requires
        old(store).wf(),
    ensures
        final(store).wf(),
        (final(store)@, reply_view(r)) == spec_withdraw(old(store)@, *env, amount),
        event_log(final(events)@) == event_log(old(events)@) + withdraw_events(old(store)@, *env, amount),
{
    let sponsor = get_caller(env, ContractError::Unauthorized)?;
    let key = balance_key_of(sponsor.as_slice());
    let current = load_u64_or_zero(store, key.as_slice());
    if amount > current {
        return Err(ContractError::InsufficientBalance);
    }
    save_u64(store, key.as_slice(), current - amount);
    let mut event = u64_to_le_vec(amount);
    push_u64_le(&mut event, current - amount);
    emit(events, "paymaster:withdraw", event.as_slice());
    Ok(reply_byte(1))
}

/// SPONSOR_CHARGE: checks the sponsor's policy (expiry, allowed DIDs and
/// operations, per-call and daily limits) and its balance, then charges.
pub fn handle_sponsor_charge(
    store: &mut KvStore,
    env: &HostEnv,
    beneficiary: &[u8],
    amount: u64,
    operation: &[u8],
    events: &mut Vec<Event>,
) -> (r: Result<Vec<u8>, ContractError>)
    requires
        old(store).wf(),
        valid_utf8(beneficiary@),
        valid_utf8(operation@),
        !charge_breaks(old(store)@, *env, beneficiary@, amount, operation@),
    ensures
        final(store).wf(),
        (final(store)@, reply_view(r)) == spec_charge(old(store)@, *env, beneficiary@, amount, operation@),
        event_log(final(events)@) == event_log(old(events)@) + charge_events(old(store)@, *env, beneficiary@, amount, operation@),
{
    let sponsor = get_caller(env, ContractError::Unauthorized)?;
    let sponsor_did = sponsor.as_slice();
    let now = env.timestamp;
    let pkey = policy_key_of(sponsor_did);
    let policy_bytes = load_bytes(store, pkey.as_slice(), POLICY_MAX)?;
    let policy_text = match decode_chars(policy_bytes.as_slice()) {
        None => {
            return Err(ContractError::InvalidInput);
        },
        Some(t) => t,
    };
    let ben_text = match decode_chars(beneficiary) {
        None => {
            return Err(ContractError::InvalidInput);
        },
        Some(t) => t,
    };
    let op_text = match decode_chars(operation) {
        None => {
            return Err(ContractError::InvalidInput);
        },
        Some(t) => t,
    };
    let policy = parse_policy(policy_text.as_slice());
    if policy.expires_at > 0 && now > policy.expires_at {
        return Err(ContractError::Unauthorized);
    }
    if !policy_allows_did(policy.allowed_dids_raw.as_slice(), ben_text.as_slice()) {
        return Err(ContractError::Unauthorized);
    }
    if !policy_allows_op(policy.allowed_ops_raw.as_slice(), op_text.as_slice()) {
        return Err(ContractError::Unauthorized);
    }
    if policy.per_call_max > 0 && amount > policy.per_call_max {
        return Err(ContractError::InsufficientPayment);
    }
    let day = now / SECONDS_PER_DAY;
    let daily_key = daily_spend_key_of(sponsor_did, day);
    let daily_spent = load_u64_or_zero(store, daily_key.as_slice());
    if policy.daily_max > 0 && daily_spent + amount > policy.daily_max {
        return Err(ContractError::InsufficientBalance);
    }
    let bkey = balance_key_of(sponsor_did);
    let balance = load_u64_or_zero(store, bkey.as_slice());
    if amount > balance {
        return Err(ContractError::InsufficientBalance);
    }
    save_u64(store, bkey.as_slice(), balance - amount);
    save_u64(store, daily_key.as_slice(), daily_spent + amount);
    let mut event = u64_to_le_vec(amount);
    append_bytes(&mut event, sponsor_did);
    event.push(0u8);
    append_bytes(&mut event, beneficiary);
    event.push(0u8);
    append_bytes(&mut event, operation);
    assert(event@ =~= u64_le_bytes(amount) + sponsor_did@ + seq![0u8] + beneficiary@ + seq![0u8] + operation@);
    emit(events, "paymaster:sponsored", event.as_slice());
    Ok(reply_byte(1))
}

/// GET_POLICY.
pub fn handle_get_policy(store: &KvStore, sponsor_did: &[u8]) -> (r: Result<Vec<u8>, ContractError>)
    requires
        store.wf(),
    ensures
        reply_view(r) == (match spec_load(store@, policy_key(sponsor_did@), POLICY_MAX as int) {
            Err(e) => Err(e),
            Ok(raw) => Ok(seq![1u8] + raw),
        }),
{
    let pkey = policy_key_of(sponsor_did);
    let raw = load_bytes(store, pkey.as_slice(), POLICY_MAX)?;
    let mut out = reply_byte(1);
    append_bytes(&mut out, raw.as_slice());
    Ok(out)
}

/// Handles one call of the paymaster, appending its event to `events`.
pub fn handle(store: &mut KvStore, env: &HostEnv, input: &[u8], events: &mut Vec<Event>) -> (r: Result<Vec<u8>, ContractError>)
    requires
        old(store).wf(),
        !handle_breaks(old(store)@, *env, input@),
    ensures
        final(store).wf(),
        (final(store)@, reply_view(r)) == spec_handle(old(store)@, *env, input@),
        event_log(final(events)@) == event_log(old(events)@) + spec_events(old(store)@, *env, input@),
{
    let mut cursor: usize = 0;
    let op = read_u8(input, &mut cursor)?;
    if op == OP_DEPOSIT {
        handle_deposit(store, env, events)
    } else if op == OP_WITHDRAW {
        let amount = read_u64(input, &mut cursor)?;
        handle_withdraw(store, env, amount, events)
    } else if op == OP_SET_POLICY {
        let json = read_string(input, &mut cursor, MAX_STRING_LEN)?;
        let sponsor = get_caller(env, ContractError::Unauthorized)?;
        let pkey = policy_key_of(sponsor.as_slice());
        store.save(pkey.as_slice(), json.as_slice());
        emit(events, "paymaster:policy_set", sponsor.as_slice());
        Ok(reply_byte(1))
    } else if op == OP_SPONSOR_CHARGE {
        let beneficiary = read_string(input, &mut cursor, MAX_STRING_LEN)?;
        let amount = read_u64(input, &mut cursor)?;
        let operation = read_string(input, &mut cursor, MAX_STRING_LEN)?;
        handle_sponsor_charge(store, env, beneficiary.as_slice(), amount, operation.as_slice(), events)
    } else if op == OP_GET_BUDGET {
        let sponsor = read_string(input, &mut cursor, MAX_STRING_LEN)?;
        let bkey = balance_key_of(sponsor.as_slice());
        let balance = load_u64_or_zero(store, bkey.as_slice());
        let mut out = reply_byte(1);
        push_u64_le(&mut out, balance);
        Ok(out)
    } else if op == OP_GET_POLICY {
        let sponsor = read_string(input, &mut cursor, MAX_STRING_LEN)?;
        handle_get_policy(store, sponsor.as_slice())
    } else {
        Err(ContractError::InvalidInput)
    }
}

proof fn lemma_keys_distinct(a: Seq<u8>, b: Seq<u8>, day: u64)
    ensures
        balance_key(a) != daily_spend_key(b, day),
{
    reveal_strlit("bal:");
    reveal_strlit("spent:");
    vstd::string::is_ascii_spec_bytes("bal:");
    vstd::string::is_ascii_spec_bytes("spent:");
    assert(balance_key(a)[0] != daily_spend_key(b, day)[0]);
}

/// A deposit adds the value sent to the depositor's budget.
pub proof fn law_deposit_then_budget(m: Map<Seq<u8>, Seq<u8>>, env: HostEnv, sponsor: Seq<u8>)
    requires
        spec_deposit(m, env).1 is Ok,
        spec_caller(env, ContractError::Unauthorized) == Ok::<Seq<u8>, ContractError>(sponsor),
    ensures
        spec_u64_or_zero(spec_deposit(m, env).0, balance_key(sponsor)) == spec_u64_or_zero(m, balance_key(sponsor)) + env.msg_value,
{
    lemma_u64_saved(m, balance_key(sponsor), (spec_u64_or_zero(m, balance_key(sponsor)) + env.msg_value) as u64);
}

/// A withdrawal takes the amount from the withdrawer's budget, which never
/// goes below zero.
pub proof fn law_withdraw_then_budget(m: Map<Seq<u8>, Seq<u8>>, env: HostEnv, sponsor: Seq<u8>, amount: u64)
    requires
        spec_withdraw(m, env, amount).1 is Ok,
        spec_caller(env, ContractError::Unauthorized) == Ok::<Seq<u8>, ContractError>(sponsor),
    ensures
        amount <= spec_u64_or_zero(m, balance_key(sponsor)),
        spec_u64_or_zero(spec_withdraw(m, env, amount).0, balance_key(sponsor)) == spec_u64_or_zero(m, balance_key(sponsor)) - amount,
{
    lemma_u64_saved(m, balance_key(sponsor), (spec_u64_or_zero(m, balance_key(sponsor)) - amount) as u64);
}

/// A sponsored charge goes through only for a beneficiary and an operation
/// that the policy admits, before the policy expires, within the per-call
/// limit; it takes exactly the amount from the sponsor's balance and adds
/// it to the day's spending, which stays within the daily limit.
pub proof fn law_charge_within_policy(
    m: Map<Seq<u8>, Seq<u8>>,
    now: u64,
    sponsor: Seq<u8>,
    amount: u64,
    beneficiary: Seq<char>,
    operation: Seq<char>,
    policy: Seq<char>,
)
    requires
        spec_charge_under(m, now, sponsor, amount, beneficiary, operation, policy).1 is Ok,
        !charge_under_breaks(m, now, sponsor, amount, beneficiary, operation, policy),
    ensures
        ({
            let after = spec_charge_under(m, now, sponsor, amount, beneficiary, operation, policy).0;
            let day_key = daily_spend_key(sponsor, now / SECONDS_PER_DAY);
            let daily_max = spec_parse_u64_field(policy, daily_field());
            let per_call_max = spec_parse_u64_field(policy, per_call_field());
            let expires_at = spec_parse_u64_field(policy, expires_field());
            &&& list_allows(spec_parse_string_field(policy, dids_field()), beneficiary)
            &&& list_allows(spec_parse_string_field(policy, ops_field()), operation)
            &&& (expires_at == 0 || now <= expires_at)
            &&& (per_call_max == 0 || amount <= per_call_max)
            &&& spec_u64_or_zero(after, balance_key(sponsor)) == spec_u64_or_zero(m, balance_key(sponsor)) - amount
            &&& spec_u64_or_zero(after, day_key) == spec_u64_or_zero(m, day_key) + amount
            &&& (daily_max == 0 || spec_u64_or_zero(after, day_key) <= daily_max)
        }),
{
    let day_key = daily_spend_key(sponsor, now / SECONDS_PER_DAY);
    let spent = spec_u64_or_zero(m, day_key);
    let balance = spec_u64_or_zero(m, balance_key(sponsor));
    let m1 = m.insert(balance_key(sponsor), u64_le_bytes((balance - amount) as u64));
    lemma_keys_distinct(sponsor, sponsor, now / SECONDS_PER_DAY);
    lemma_u64_saved(m, balance_key(sponsor), (balance - amount) as u64);
    lemma_u64_saved(m1, day_key, (spent + amount) as u64);
    assert(m1.insert(day_key, u64_le_bytes((spent + amount) as u64))[balance_key(sponsor)] == m1[balance_key(sponsor)]);
}

/// A sponsored charge is paid by the caller: on success the caller's own
/// balance drops by the amount, and the caller's policy admits the
/// beneficiary named in the call.
pub proof fn law_caller_pays_for_beneficiary(m: Map<Seq<u8>, Seq<u8>>, env: HostEnv, beneficiary: Seq<u8>, amount: u64, operation: Seq<u8>)
    requires
        spec_charge(m, env, beneficiary, amount, operation).1 is Ok,
        !charge_breaks(m, env, beneficiary, amount, operation),
    ensures
        spec_caller(env, ContractError::Unauthorized) matches Ok(sponsor) && {
            let after = spec_charge(m, env, beneficiary, amount, operation).0;
            &&& spec_u64_or_zero(after, balance_key(sponsor)) == spec_u64_or_zero(m, balance_key(sponsor)) - amount
            &&& spec_load(m, policy_key(sponsor), POLICY_MAX as int) matches Ok(pb) && list_allows(
                spec_parse_string_field(decode_utf8(pb), dids_field()),
                decode_utf8(beneficiary),
            )
        },
{
    let sponsor = spec_caller(env, ContractError::Unauthorized)->Ok_0;
    let pb = spec_load(m, policy_key(sponsor), POLICY_MAX as int)->Ok_0;
    law_charge_within_policy(m, env.timestamp, sponsor, amount, decode_utf8(beneficiary), decode_utf8(operation), decode_utf8(pb));
}

/// A policy that was set is what GET_POLICY answers (for a non-empty
/// policy).
pub proof fn law_set_then_get_policy(m: Map<Seq<u8>, Seq<u8>>, sponsor: Seq<u8>, json: Seq<u8>)
    requires
        0 < json.len() <= MAX_STRING_LEN,
    ensures
        spec_load(m.insert(policy_key(sponsor), json), policy_key(sponsor), POLICY_MAX as int) == Ok::<Seq<u8>, ContractError>(json),
{
}

/// Whether a list field's `[` is never closed.
fn field_unclosed(json: &[char], field: &[char]) -> (r: bool)
    ensures
        r == string_field_unclosed(json@, field@),
{
    let rest = match find_after_field(json, field) {
        None => {
            return false;
        },
        Some(rest) => rest,
    };
    let open_pat = vec!['['];
    assert(open_pat@ =~= seq!['[']);
    let bracket = match find_chars(rest.as_slice(), open_pat.as_slice(), 0) {
        None => {
            return false;
        },
        Some(b) => b,
    };
    let n = rest.len();
    proof {
        lemma_find_from_bounds(rest@, seq!['['], 0);
    }
    let tail = slice_chars(rest.as_slice(), bracket, n);
    let close_pat = vec![']'];
    assert(close_pat@ =~= seq![']']);
    find_chars(tail.as_slice(), close_pat.as_slice(), 0).is_none()
}

/// Whether a SPONSOR_CHARGE cannot go on (see `charge_breaks`).
fn charge_traps(store: &KvStore, env: &HostEnv, beneficiary: &[u8], amount: u64, operation: &[u8]) -> (r: bool)
    requires
        store.wf(),
        valid_utf8(beneficiary@),
        valid_utf8(operation@),
    ensures
        r == charge_breaks(store@, *env, beneficiary@, amount, operation@),
{
    let sponsor = match get_caller(env, ContractError::Unauthorized) {
        Ok(b) => b,
        Err(_) => {
            return false;
        },
    };
    let sponsor_did = sponsor.as_slice();
    let pkey = policy_key_of(sponsor_did);
    let policy_bytes = match load_bytes(store, pkey.as_slice(), POLICY_MAX) {
        Ok(p) => p,
        Err(_) => {
            return false;
        },
    };
    let policy_text = match decode_chars(policy_bytes.as_slice()) {
        None => {
            return false;
        },
        Some(t) => t,
    };
    let ops_name = chars_of("allowed_ops");
    let dids_name = chars_of("allowed_dids");
    if field_unclosed(policy_text.as_slice(), ops_name.as_slice()) || field_unclosed(policy_text.as_slice(), dids_name.as_slice()) {
        return true;
    }
    let ben_text = match decode_chars(beneficiary) {
        None => {
            return false;
        },
        Some(t) => t,
    };
    let op_text = match decode_chars(operation) {
        None => {
            return false;
        },
        Some(t) => t,
    };
    let policy = parse_policy(policy_text.as_slice());
    let now = env.timestamp;
    let passes = !(policy.expires_at > 0 && now > policy.expires_at)
        && policy_allows_did(policy.allowed_dids_raw.as_slice(), ben_text.as_slice())
        && policy_allows_op(policy.allowed_ops_raw.as_slice(), op_text.as_slice())
        && !(policy.per_call_max > 0 && amount > policy.per_call_max);
    let daily_key = daily_spend_key_of(sponsor_did, now / SECONDS_PER_DAY);
    let spent = load_u64_or_zero(store, daily_key.as_slice());
    let bkey = balance_key_of(sponsor_did);
    let balance = load_u64_or_zero(store, bkey.as_slice());
    passes && spent.checked_add(amount).is_none() && (policy.daily_max > 0 || amount <= balance)
}

/// Whether a call is one on which the paymaster cannot go on (see
/// `handle_breaks`); callers test it before `handle`.
pub fn handle_traps(store: &KvStore, env: &HostEnv, input: &[u8]) -> (r: bool)
    requires
        store.wf(),
    ensures
        r == handle_breaks(store@, *env, input@),
{
    let mut cursor: usize = 0;
    let op = match read_u8(input, &mut cursor) {
        Ok(op) => op,
        Err(_) => {
            return false;
        },
    };
    if op != OP_SPONSOR_CHARGE {
        return false;
    }
    let beneficiary = match read_string(input, &mut cursor, MAX_STRING_LEN) {
        Ok(x) => x,
        Err(_) => {
            return false;
        },
    };
    let amount = match read_u64(input, &mut cursor) {
        Ok(x) => x,
        Err(_) => {
            return false;
        },
    };
    let operation = match read_string(input, &mut cursor, MAX_STRING_LEN) {
        Ok(x) => x,
        Err(_) => {
            return false;
        },
    };
    charge_traps(store, env, beneficiary.as_slice(), amount, operation.as_slice())
}

/// A call `[op][did]` naming a sponsor.
pub open spec fn sponsor_call(op: u8, sponsor: Seq<u8>) -> Seq<u8> {
    seq![op] + spec_string_field(sponsor)
}

proof fn lemma_sponsor_call(m: Map<Seq<u8>, Seq<u8>>, env: HostEnv, op: u8, text: Seq<u8>)
    requires
        op == OP_GET_BUDGET || op == OP_GET_POLICY || op == OP_SET_POLICY,
        text.len() <= MAX_STRING_LEN,
        valid_utf8(text),
    ensures
        op == OP_GET_BUDGET ==> spec_handle(m, env, sponsor_call(op, text))
            == (m, Ok::<Seq<u8>, ContractError>(seq![1u8] + u64_le_bytes(spec_u64_or_zero(m, balance_key(text))))),
        op == OP_GET_POLICY ==> spec_handle(m, env, sponsor_call(op, text)) == match spec_load(m, policy_key(text), POLICY_MAX as int) {
            Err(e) => (m, Err(e)),
            Ok(raw) => (m, Ok::<Seq<u8>, ContractError>(seq![1u8] + raw)),
        },
        op == OP_SET_POLICY ==> spec_handle(m, env, sponsor_call(op, text)) == match spec_caller(env, ContractError::Unauthorized) {
            Err(e) => (m, Err(e)),
            Ok(sponsor) => (m.insert(policy_key(sponsor), text), Ok::<Seq<u8>, ContractError>(seq![1u8])),
        },
{
    lemma_read_string_field(seq![op], text, Seq::<u8>::empty(), MAX_STRING_LEN as int);
    assert(seq![op] + spec_string_field(text) + Seq::<u8>::empty() =~= sponsor_call(op, text));
}

proof fn lemma_money_calls(m: Map<Seq<u8>, Seq<u8>>, env: HostEnv, amount: u64)
    ensures
        spec_handle(m, env, seq![OP_DEPOSIT]) == spec_deposit(m, env),
        spec_handle(m, env, seq![OP_WITHDRAW] + u64_le_bytes(amount)) == spec_withdraw(m, env, amount),
{
    lemma_read_u64_field(seq![OP_WITHDRAW], amount, Seq::<u8>::empty());
    assert(seq![OP_WITHDRAW] + u64_le_bytes(amount) + Seq::<u8>::empty() =~= seq![OP_WITHDRAW] + u64_le_bytes(amount));
}

/// Through the contract's calls, for a caller `s` (1 to 512 bytes of
/// UTF-8) whose GET_BUDGET had answered `[1]` and `b`: a DEPOSIT of a
/// value `v > 0` that keeps the budget within `u64` answers `[1]` and
/// `b + v`, and GET_BUDGET then answers `b + v`; a WITHDRAW of `a <= b`
/// answers `[1]` and GET_BUDGET then answers `b - a`, while a WITHDRAW of
/// more than `b` answers `InsufficientBalance` and changes nothing.
pub proof fn law_budget_calls(m: Map<Seq<u8>, Seq<u8>>, env: HostEnv, b: u64, amount: u64)
    requires
        0 < env.caller@.len() <= MAX_STRING_LEN,
        valid_utf8(env.caller@),
        spec_handle(m, env, sponsor_call(OP_GET_BUDGET, env.caller@)).1
            == Ok::<Seq<u8>, ContractError>(seq![1u8] + u64_le_bytes(b)),
    ensures
        env.msg_value > 0 && b + env.msg_value <= u64::MAX ==> {
            let m1 = spec_handle(m, env, seq![OP_DEPOSIT]).0;
            &&& spec_handle(m, env, seq![OP_DEPOSIT]).1 == Ok::<Seq<u8>, ContractError>(seq![1u8] + u64_le_bytes((b + env.msg_value) as u64))
            &&& spec_handle(m1, env, sponsor_call(OP_GET_BUDGET, env.caller@)).1
                == Ok::<Seq<u8>, ContractError>(seq![1u8] + u64_le_bytes((b + env.msg_value) as u64))
        },
        amount <= b ==> {
            let m1 = spec_handle(m, env, seq![OP_WITHDRAW] + u64_le_bytes(amount)).0;
            &&& spec_handle(m, env, seq![OP_WITHDRAW] + u64_le_bytes(amount)).1 == Ok::<Seq<u8>, ContractError>(seq![1u8])
            &&& spec_handle(m1, env, sponsor_call(OP_GET_BUDGET, env.caller@)).1
                == Ok::<Seq<u8>, ContractError>(seq![1u8] + u64_le_bytes((b - amount) as u64))
        },
        amount > b ==> spec_handle(m, env, seq![OP_WITHDRAW] + u64_le_bytes(amount))
            == (m, Err::<Seq<u8>, ContractError>(ContractError::InsufficientBalance)),
{
    let s = env.caller@;
    lemma_sponsor_call(m, env, OP_GET_BUDGET, s);
    lemma_money_calls(m, env, amount);
    let cur = spec_u64_or_zero(m, balance_key(s));
    crate::codec::lemma_u64_roundtrip(cur);
    crate::codec::lemma_u64_roundtrip(b);
    assert((seq![1u8] + u64_le_bytes(cur)).subrange(1, 9) =~= u64_le_bytes(cur));
    assert((seq![1u8] + u64_le_bytes(b)).subrange(1, 9) =~= u64_le_bytes(b));
    assert(cur == b);
    assert(spec_caller(env, ContractError::Unauthorized) == Ok::<Seq<u8>, ContractError>(s));
    if env.msg_value > 0 && b + env.msg_value <= u64::MAX {
        let m1 = m.insert(balance_key(s), u64_le_bytes((b + env.msg_value) as u64));
        lemma_u64_saved(m, balance_key(s), (b + env.msg_value) as u64);
        lemma_sponsor_call(m1, env, OP_GET_BUDGET, s);
    }
    if amount <= b {
        let m1 = m.insert(balance_key(s), u64_le_bytes((b - amount) as u64));
        lemma_u64_saved(m, balance_key(s), (b - amount) as u64);
        lemma_sponsor_call(m1, env, OP_GET_BUDGET, s);
    }
}

/// Through the contract's calls: SET_POLICY of a policy (1 to 512 bytes of
/// UTF-8) answers `[1]`, and GET_POLICY of the caller then answers `[1]`
/// and that policy, whatever it was before.
pub proof fn law_set_policy_then_get(m: Map<Seq<u8>, Seq<u8>>, env: HostEnv, json: Seq<u8>)
    requires
        0 < env.caller@.len() <= MAX_STRING_LEN,
        valid_utf8(env.caller@),
        0 < json.len() <= MAX_STRING_LEN,
        valid_utf8(json),
    ensures
        spec_handle(m, env, sponsor_call(OP_SET_POLICY, json)).1 == Ok::<Seq<u8>, ContractError>(seq![1u8]),
        spec_handle(spec_handle(m, env, sponsor_call(OP_SET_POLICY, json)).0, env, sponsor_call(OP_GET_POLICY, env.caller@)).1
            == Ok::<Seq<u8>, ContractError>(seq![1u8] + json),
{
    let s = env.caller@;
    assert(spec_caller(env, ContractError::Unauthorized) == Ok::<Seq<u8>, ContractError>(s));
    lemma_sponsor_call(m, env, OP_SET_POLICY, json);
    let m1 = m.insert(policy_key(s), json);
    lemma_sponsor_call(m1, env, OP_GET_POLICY, s);
    assert(prefix_up_to(json, POLICY_MAX as int) =~= json);
}

} // verus!
