//! RouteKit agent: routed generation, search, conversations with
//! client-held transcripts, preferences and messaging.
//!
//! The host performs the work (vault charges, generation, web search,
//! remote storage, messages); these functions read the calls, check them
//! and build the texts that go to and come back from the host.
use vstd::prelude::*;
use vstd::string::StringSliceAdditionalSpecFns;
use vstd::utf8::valid_utf8;
use crate::codec::{le_u16, u16_le_bytes, u32_le_bytes, push_u16_le, push_u32_le, append_bytes};
use crate::error::ContractError;
use crate::text::wrap_text;
use crate::utf8::utf8_is_valid;
use crate::wire::copy_range;

verus! {

pub const OP_COMPLETE: u8 = 1;
pub const OP_PIPELINE: u8 = 2;
pub const OP_SEARCH: u8 = 3;
pub const OP_CONVERSE: u8 = 4;
pub const OP_FRONTIER: u8 = 5;
pub const OP_HEALTH: u8 = 16;
pub const OP_PING_OPERATOR: u8 = 17;
pub const OP_BRAIN_INFO: u8 = 18;
pub const OP_CONFIGURE: u8 = 32;

pub const ROUTER_BRAIN_KEY: &'static str = "routekit_router";
pub const COST_LOCAL: &'static str = "100";
pub const COST_SEARCH: &'static str = "200";
pub const COST_PIPE: &'static str = "300";
pub const COST_SEARCH_AND_LOCAL: &'static str = "300";
pub const COST_FRONTIER: &'static str = "5000";
pub const SEARCH_WIRE_V1: u8 = 1;
pub const DEFAULT_SEARCH_MAX_JSON: usize = 65536;
pub const REF_OUT_MAX: usize = 512;
pub const CONVERSE_HIST_GET_MAX: usize = 98304;
pub const ANONYMOUS_DID: &'static str = "did:spacekit:anonymous";

/// A little-endian `u16` at the front of `s`, and what follows it.
pub open spec fn spec_u16_front(s: Seq<u8>) -> Option<(nat, Seq<u8>)> {
    if s.len() < 2 {
        None
    } else {
        Some((le_u16(s[0], s[1]) as nat, s.subrange(2, s.len() as int)))
    }
}

/// A `u16`-length-prefixed blob at the front of `s`, and what follows it.
pub open spec fn spec_blob_front(s: Seq<u8>) -> Option<(Seq<u8>, Seq<u8>)> {
    match spec_u16_front(s) {
        None => None,
        Some((len, rest)) => if rest.len() < len {
            None
        } else {
            Some((rest.subrange(0, len as int), rest.subrange(len as int, rest.len() as int)))
        },
    }
}

/// Reads a little-endian `u16` at the front of `cursor`; the rest follows.
pub fn read_u16(cursor: &[u8]) -> (r: Result<(usize, Vec<u8>), ContractError>)
    ensures
        match spec_u16_front(cursor@) {
            None => r == Err::<(usize, Vec<u8>), ContractError>(ContractError::InvalidInput),
            Some((v, rest)) => r matches Ok(x) && x.0 == v && x.1@ == rest,
        },
{
    if cursor.len() < 2 {
        return Err(ContractError::InvalidInput);
    }
    let v = (cursor[0] as u16) | ((cursor[1] as u16) << 8u16);
    assert(v == le_u16(cursor@[0], cursor@[1]));
    Ok((v as usize, copy_range(cursor, 2, cursor.len())))
}

/// Reads a length-prefixed blob at the front of `cursor`; the rest follows.
pub fn read_blob_u16(cursor: &[u8]) -> (r: Result<(Vec<u8>, Vec<u8>), ContractError>)
    ensures
        match spec_blob_front(cursor@) {
            None => r == Err::<(Vec<u8>, Vec<u8>), ContractError>(ContractError::InvalidInput),
            Some((blob, rest)) => r matches Ok(x) && x.0@ == blob && x.1@ == rest,
        },
{
    let (len, rest) = read_u16(cursor)?;
    if rest.len() < len {
        return Err(ContractError::InvalidInput);
    }
    Ok((copy_range(rest.as_slice(), 0, len), copy_range(rest.as_slice(), len, rest.len())))
}

/// A `u16` and then a UTF-8 blob that ends the input.
pub open spec fn spec_u16_utf8(s: Seq<u8>) -> Option<(nat, Seq<u8>)> {
    match spec_u16_front(s) {
        None => None,
        Some((v, rest)) => match spec_blob_front(rest) {
            None => None,
            Some((raw, tail)) => if tail.len() != 0 || !valid_utf8(raw) { None } else { Some((v, raw)) },
        },
    }
}

/// Reads a `u16` and a UTF-8 blob that ends the input.
pub fn decode_u16_utf8(cursor: &[u8]) -> (r: Result<(usize, Vec<u8>), ContractError>)
    ensures
        match spec_u16_utf8(cursor@) {
            None => r == Err::<(usize, Vec<u8>), ContractError>(ContractError::InvalidInput),
            Some((v, raw)) => r matches Ok(x) && x.0 == v && x.1@ == raw,
        },
{
    let (max_resp, rest) = read_u16(cursor)?;
    let (raw, tail) = read_blob_u16(rest.as_slice())?;
    if tail.len() != 0 {
        return Err(ContractError::InvalidInput);
    }
    if !utf8_is_valid(raw.as_slice()) {
        return Err(ContractError::InvalidInput);
    }
    Ok((max_resp, raw))
}

/// Appends a blob with its length; blobs longer than `u16::MAX` are cut to
/// that length.
pub fn push_blob_u16(out: &mut Vec<u8>, blob: &[u8])
    ensures
        ({
            let n = if blob@.len() < 65535 { blob@.len() } else { 65535 };
            final(out)@ == old(out)@ + u16_le_bytes(n as u16) + blob@.subrange(0, n as int)
        }),
{
    let n: usize = if blob.len() < 65535 { blob.len() } else { 65535 };
    push_u16_le(out, n as u16);
    let head = copy_range(blob, 0, n);
    append_bytes(out, head.as_slice());
}

/// The bytes of a blob as `push_blob_u16` writes it.
pub open spec fn blob_bytes(blob: Seq<u8>) -> Seq<u8> {
    let n = if blob.len() < 65535 { blob.len() } else { 65535 };
    u16_le_bytes(n as u16) + blob.subrange(0, n as int)
}

/// The eight-byte receipt of a message: both lengths as little-endian
/// `u32`s (each cut to 32 bits).
pub fn receipt_len_marker(a: usize, b: usize) -> (r: Vec<u8>)
    ensures
        r@ == u32_le_bytes(a as u32) + u32_le_bytes(b as u32),
{
    let mut out: Vec<u8> = Vec::new();
    push_u32_le(&mut out, a as u32);
    push_u32_le(&mut out, b as u32);
    assert(out@ =~= u32_le_bytes(a as u32) + u32_le_bytes(b as u32));
    out
}

/// The DID charged for a call: the caller's, or the anonymous DID when
/// the host names none.
pub fn beneficiary(caller: Option<Vec<u8>>) -> (r: Vec<u8>)
    ensures
        r@ == (match caller {
            Some(c) => c@,
            None => ANONYMOUS_DID.spec_bytes(),
        }),
{
    match caller {
        Some(c) => c,
        None => key_text(ANONYMOUS_DID),
    }
}

fn key_text(s: &str) -> (r: Vec<u8>)
    ensures
        r@ == s.spec_bytes(),
{
    let r = crate::host::key_with(s, &[]);
    assert(s.spec_bytes() + Seq::<u8>::empty() =~= s.spec_bytes());
    r
}

/// Refuses bytes that are not UTF-8.
pub fn check_utf8(bytes: &[u8]) -> (r: Result<(), ContractError>)
    ensures
        r is Ok <==> valid_utf8(bytes@),
        r is Err ==> r == Err::<(), ContractError>(ContractError::InvalidInput),
{
    if utf8_is_valid(bytes) {
        Ok(())
    } else {
        Err(ContractError::InvalidInput)
    }
}

/// COMPLETE: the response budget and a non-empty prompt.
pub fn parse_complete(body: &[u8]) -> (r: Result<(usize, Vec<u8>), ContractError>)
    ensures
        match spec_u16_utf8(body@) {
            Some((v, prompt)) => if prompt.len() == 0 {
                r == Err::<(usize, Vec<u8>), ContractError>(ContractError::InvalidInput)
            } else {
                r matches Ok(x) && x.0 == v && x.1@ == prompt
            },
            None => r == Err::<(usize, Vec<u8>), ContractError>(ContractError::InvalidInput),
        },
{
    let (max_resp, prompt) = decode_u16_utf8(body)?;
    if prompt.len() == 0 {
        return Err(ContractError::InvalidInput);
    }
    Ok((max_resp, prompt))
}

/// Two blobs that end the input, both non-empty.
pub open spec fn spec_two_blobs(s: Seq<u8>) -> Option<(Seq<u8>, Seq<u8>)> {
    match spec_blob_front(s) {
        None => None,
        Some((a, rest)) => match spec_blob_front(rest) {
            None => None,
            Some((b, tail)) => if tail.len() != 0 || a.len() == 0 || b.len() == 0 { None } else { Some((a, b)) },
        },
    }
}

/// Reads two non-empty blobs that end the input.
pub fn parse_two_blobs(body: &[u8]) -> (r: Result<(Vec<u8>, Vec<u8>), ContractError>)
    ensures
        match spec_two_blobs(body@) {
            None => r == Err::<(Vec<u8>, Vec<u8>), ContractError>(ContractError::InvalidInput),
            Some((a, b)) => r matches Ok(x) && x.0@ == a && x.1@ == b,
        },
{
    let (a, rest) = read_blob_u16(body)?;
    let (b, tail) = read_blob_u16(rest.as_slice())?;
    if tail.len() != 0 || a.len() == 0 || b.len() == 0 {
        return Err(ContractError::InvalidInput);
    }
    Ok((a, b))
}

/// PIPELINE: the response budget, the search query and the question, both
/// non-empty (their UTF-8 is checked after the charge).
pub fn parse_pipeline(body: &[u8]) -> (r: Result<(usize, Vec<u8>, Vec<u8>), ContractError>)
    ensures
        match spec_u16_front(body@) {
            None => r == Err::<(usize, Vec<u8>, Vec<u8>), ContractError>(ContractError::InvalidInput),
            Some((v, rest)) => match spec_two_blobs(rest) {
                None => r == Err::<(usize, Vec<u8>, Vec<u8>), ContractError>(ContractError::InvalidInput),
                Some((sq, uq)) => r matches Ok(x) && x.0 == v && x.1@ == sq && x.2@ == uq,
            },
        },
{
    let (max_resp, rest) = read_u16(body)?;
    let (sq, uq) = parse_two_blobs(rest.as_slice())?;
    Ok((max_resp, sq, uq))
}

/// The prompt of a pipeline: the web results, then the question.
pub fn pipeline_prompt(hits: &[u8], question: &[u8]) -> (r: Vec<u8>)
    ensures
        r@ == "Web results (JSON):\n".spec_bytes() + hits@ + "\n\n---\nUser question:\n".spec_bytes() + question@
            + "\n---\nReply concisely.".spec_bytes(),
{
    let mut out = wrap_text("Web results (JSON):\n", hits, "\n\n---\nUser question:\n");
    append_bytes(&mut out, question);
    append_bytes(&mut out, "\n---\nReply concisely.".as_bytes());
    out
}

/// SEARCH: whether the call uses the versioned form (its first byte is
/// `SEARCH_WIRE_V1`); an empty call is refused.
pub fn is_search_v1(q: &[u8]) -> (r: Result<bool, ContractError>)
    ensures
        q@.len() == 0 ==> r == Err::<bool, ContractError>(ContractError::InvalidInput),
        q@.len() > 0 ==> r == Ok::<bool, ContractError>(q@[0] == SEARCH_WIRE_V1),
{
    if q.len() == 0 {
        return Err(ContractError::InvalidInput);
    }
    Ok(q[0] == SEARCH_WIRE_V1)
}

/// The legacy SEARCH form: the whole call is a non-empty UTF-8 query.
pub fn parse_search_legacy(query: &[u8]) -> (r: Result<(), ContractError>)
    ensures
        r is Ok <==> valid_utf8(query@) && query@.len() > 0,
        r is Err ==> r == Err::<(), ContractError>(ContractError::InvalidInput),
{
    check_utf8(query)?;
    if query.len() == 0 {
        return Err(ContractError::InvalidInput);
    }
    Ok(())
}

/// The versioned SEARCH form: a generation budget and a non-empty UTF-8
/// query that ends the call.
pub fn parse_search_v1(body: &[u8]) -> (r: Result<(usize, Vec<u8>), ContractError>)
    ensures
        match spec_u16_front(body@) {
            None => r == Err::<(usize, Vec<u8>), ContractError>(ContractError::InvalidInput),
            Some((v, rest)) => match spec_blob_front(rest) {
                None => r == Err::<(usize, Vec<u8>), ContractError>(ContractError::InvalidInput),
                Some((q, tail)) => if tail.len() != 0 || q.len() == 0 || !valid_utf8(q) {
                    r == Err::<(usize, Vec<u8>), ContractError>(ContractError::InvalidInput)
                } else {
                    r matches Ok(x) && x.0 == v && x.1@ == q
                },
            },
        },
{
    let (max_gen, rest) = read_u16(body)?;
    let (q, tail) = read_blob_u16(rest.as_slice())?;
    if tail.len() != 0 || q.len() == 0 {
        return Err(ContractError::InvalidInput);
    }
    check_utf8(q.as_slice())?;
    Ok((max_gen, q))
}

/// The generation budget of a versioned search: at least 512.
pub fn generation_budget(max_gen: usize) -> (r: usize)
    ensures
        r == if max_gen > 512 { max_gen } else { 512 },
{
    if max_gen > 512 { max_gen } else { 512 }
}

/// The prompt of a versioned search: the snippets, then the task.
pub fn search_v1_prompt(hits: &[u8], query: &[u8]) -> (r: Vec<u8>)
    ensures
        r@ == "Use the JSON search snippets below.\nSnippets:\n".spec_bytes() + hits@ + "\n\nTask:\n".spec_bytes() + query@
            + "\nAnswer:".spec_bytes(),
{
    let mut out = wrap_text("Use the JSON search snippets below.\nSnippets:\n", hits, "\n\nTask:\n");
    append_bytes(&mut out, query);
    append_bytes(&mut out, "\nAnswer:".as_bytes());
    out
}

/// CONVERSE: the transcript reference (possibly empty) and a non-empty
/// message, both UTF-8, ending the call.
pub fn parse_converse(body: &[u8]) -> (r: Result<(Vec<u8>, Vec<u8>), ContractError>)
    ensures
        match spec_blob_front(body@) {
            None => r == Err::<(Vec<u8>, Vec<u8>), ContractError>(ContractError::InvalidInput),
            Some((hist, rest)) => match spec_blob_front(rest) {
                None => r == Err::<(Vec<u8>, Vec<u8>), ContractError>(ContractError::InvalidInput),
                Some((msg, tail)) => if tail.len() != 0 || msg.len() == 0 || !valid_utf8(hist) || !valid_utf8(msg) {
                    r == Err::<(Vec<u8>, Vec<u8>), ContractError>(ContractError::InvalidInput)
                } else {
                    r matches Ok(x) && x.0@ == hist && x.1@ == msg
                },
            },
        },
{
    let (hist, rest) = read_blob_u16(body)?;
    let (msg, tail) = read_blob_u16(rest.as_slice())?;
    if tail.len() != 0 || msg.len() == 0 {
        return Err(ContractError::InvalidInput);
    }
    check_utf8(hist.as_slice())?;
    check_utf8(msg.as_slice())?;
    Ok((hist, msg))
}

/// What the model is given in a conversation: the transcript so far and
/// the new message.
pub fn converse_block(transcript: &[u8], msg: &[u8]) -> (r: Vec<u8>)
    ensures
        r@ == transcript@ + "\nUser: ".spec_bytes() + msg@ + "\nAssistant:".spec_bytes(),
{
    let mut out: Vec<u8> = Vec::new();
    append_bytes(&mut out, transcript);
    append_bytes(&mut out, "\nUser: ".as_bytes());
    append_bytes(&mut out, msg);
    append_bytes(&mut out, "\nAssistant:".as_bytes());
    assert(Seq::<u8>::empty() + transcript@ == transcript@);
    out
}

/// The transcript after a turn.
pub fn converse_transcript(transcript: &[u8], msg: &[u8], reply: &[u8]) -> (r: Vec<u8>)
    ensures
        r@ == transcript@ + "\nUser: ".spec_bytes() + msg@ + "\nAssistant: ".spec_bytes() + reply@ + "\n".spec_bytes(),
{
    let mut out: Vec<u8> = Vec::new();
    append_bytes(&mut out, transcript);
    append_bytes(&mut out, "\nUser: ".as_bytes());
    append_bytes(&mut out, msg);
    append_bytes(&mut out, "\nAssistant: ".as_bytes());
    append_bytes(&mut out, reply);
    append_bytes(&mut out, "\n".as_bytes());
    assert(Seq::<u8>::empty() + transcript@ == transcript@);
    out
}

/// The reply to CONVERSE: the new transcript reference and the model's
/// answer, each as a blob.
pub fn converse_reply(new_ref: &[u8], reply: &[u8]) -> (r: Vec<u8>)
    ensures
        r@ == blob_bytes(new_ref@) + blob_bytes(reply@),
{
    let mut out: Vec<u8> = Vec::new();
    push_blob_u16(&mut out, new_ref);
    push_blob_u16(&mut out, reply);
    assert(out@ =~= blob_bytes(new_ref@) + blob_bytes(reply@));
    out
}

/// CONFIGURE: a non-empty preferences blob that ends the call.
pub fn parse_configure(body: &[u8]) -> (r: Result<Vec<u8>, ContractError>)
    ensures
        match spec_blob_front(body@) {
            None => r == Err::<Vec<u8>, ContractError>(ContractError::InvalidInput),
            Some((prefs, tail)) => if tail.len() != 0 || prefs.len() == 0 {
                r == Err::<Vec<u8>, ContractError>(ContractError::InvalidInput)
            } else {
                r matches Ok(x) && x@ == prefs
            },
        },
{
    let (prefs, tail) = read_blob_u16(body)?;
    if tail.len() != 0 || prefs.len() == 0 {
        return Err(ContractError::InvalidInput);
    }
    Ok(prefs)
}

/// The reply to CONFIGURE: the stored preferences' reference as a blob.
pub fn configure_reply(reference: &[u8]) -> (r: Vec<u8>)
    ensures
        r@ == blob_bytes(reference@),
{
    let mut out: Vec<u8> = Vec::new();
    push_blob_u16(&mut out, reference);
    assert(out@ =~= blob_bytes(reference@));
    out
}

/// The HEALTH reply: the host's generation status text and whether the
/// router brain could be loaded, as JSON.
pub fn health_json(growformer_status: &[u8], brain_ok: bool) -> (r: Vec<u8>)
    ensures
        r@ == "{\"status\":\"ok\",\"agent\":\"routekit-agent\",\"growformer_status\":".spec_bytes() + growformer_status@
            + ",\"router_brain_seeded\":".spec_bytes() + (if brain_ok { "true".spec_bytes() } else { "false".spec_bytes() })
            + "}".spec_bytes(),
{
    let mut out = wrap_text("{\"status\":\"ok\",\"agent\":\"routekit-agent\",\"growformer_status\":", growformer_status, ",\"router_brain_seeded\":");
    if brain_ok {
        append_bytes(&mut out, "true".as_bytes());
    } else {
        append_bytes(&mut out, "false".as_bytes());
    }
    append_bytes(&mut out, "}".as_bytes());
    out
}

} // verus!
