//! The RouteKit agent as a state machine: what each call charges, the
//! order of its work, and what it answers. The host performs each action
//! and hands back what came of it; the machine decides the next action.
use vstd::prelude::*;
use vstd::string::StringSliceAdditionalSpecFns;
use vstd::utf8::valid_utf8;
use crate::codec::{u32_le_bytes, push_u32_le};
use crate::error::ContractError;
use crate::utf8::utf8_is_valid;
use super::routekit::{
    OP_COMPLETE, OP_PIPELINE, OP_SEARCH, OP_CONVERSE, OP_FRONTIER, OP_HEALTH, OP_PING_OPERATOR, OP_BRAIN_INFO,
    OP_CONFIGURE, COST_LOCAL, COST_SEARCH, COST_PIPE, COST_SEARCH_AND_LOCAL, COST_FRONTIER, SEARCH_WIRE_V1,
    DEFAULT_SEARCH_MAX_JSON, REF_OUT_MAX, CONVERSE_HIST_GET_MAX, spec_u16_front, spec_blob_front, spec_u16_utf8,
    spec_two_blobs, blob_bytes, parse_complete, parse_pipeline, is_search_v1, parse_search_v1, parse_search_legacy,
    parse_converse, parse_two_blobs, parse_configure, check_utf8, receipt_len_marker, generation_budget,
    pipeline_prompt, search_v1_prompt, converse_block, converse_transcript, converse_reply, configure_reply,
    health_json,
};

verus! {

/// Hits asked of a web search.
pub const SEARCH_HITS: u32 = 5;

/// Longest answer taken from the model in a conversation turn.
pub const CONVERSE_MAX_RESPONSE: usize = 3072;

/// Longest brain description read.
pub const BRAIN_INFO_MAX: usize = 4096;

/// What the host is asked to do next.
pub enum RouteAction {
    /// Charge the caller's vault this cost tier.
    Charge(&'static str),
    /// Report the host's generation status.
    HostStatus,
    /// Load the router brain.
    LoadBrain,
    /// Generate from a prompt, with a response budget.
    Generate(Vec<u8>, usize),
    /// Search the web: query, number of hits, longest JSON answer.
    Search(Vec<u8>, u32, usize),
    /// Read remote storage: reference, longest answer.
    RemoteGet(Vec<u8>, usize),
    /// Write remote storage: data, longest reference.
    RemotePut(Vec<u8>, usize),
    /// Send a message: recipient, payload.
    Send(Vec<u8>, Vec<u8>),
    /// Describe the loaded brain, at most this long.
    BrainInfo(usize),
    /// Emit an event: name and payload.
    Emit(&'static str, Vec<u8>),
    /// The call is done: its reply.
    Reply(Vec<u8>),
}

/// What came of an action.
pub enum HostReply {
    /// It went through with nothing to report.
    Done,
    /// It went through and produced these bytes.
    Data(Vec<u8>),
    /// It failed.
    Failed(ContractError),
}

/// Where a call stands: what it waits for, and what it carries.
pub enum RouteState {
    HealthStatus,
    HealthBrain(Vec<u8>),
    CompleteCharged(usize, Vec<u8>),
    PipelineCharged(usize, Vec<u8>, Vec<u8>),
    PipelineSearched(usize, Vec<u8>),
    SearchCharged(usize, Vec<u8>),
    SearchSearched(usize, Vec<u8>),
    LegacyCharged(Vec<u8>),
    LegacyStarted(Vec<u8>),
    LegacySearched,
    /// The brain is loading; then generate this prompt with this budget
    /// and announce the answer's length under this name.
    Brain(Vec<u8>, usize, &'static str),
    /// The answer of a generation is awaited; its length is announced.
    Generating(&'static str),
    ConverseCharged(Vec<u8>, Vec<u8>),
    ConverseFetched(Vec<u8>),
    ConverseBrain(Vec<u8>, Vec<u8>),
    ConverseGenerating(Vec<u8>, Vec<u8>),
    ConverseStored(Vec<u8>),
    FrontierCharged(Vec<u8>, Vec<u8>),
    /// A message is being sent; then emit the event and answer.
    Sending(&'static str, Vec<u8>, Vec<u8>),
    BrainInfoLoading,
    BrainInfoReading,
    Configuring(usize),
    /// An event is being emitted; then answer this.
    Finishing(Vec<u8>),
    Finished,
}

pub enum RouteActionV {
    Charge(Seq<char>),
    HostStatus,
    LoadBrain,
    Generate(Seq<u8>, usize),
    Search(Seq<u8>, u32, usize),
    RemoteGet(Seq<u8>, usize),
    RemotePut(Seq<u8>, usize),
    Send(Seq<u8>, Seq<u8>),
    BrainInfo(usize),
    Emit(Seq<char>, Seq<u8>),
    Reply(Seq<u8>),
}

pub enum HostReplyV {
    Done,
    Data(Seq<u8>),
    Failed(ContractError),
}

pub enum RouteStateV {
    HealthStatus,
    HealthBrain(Seq<u8>),
    CompleteCharged(usize, Seq<u8>),
    PipelineCharged(usize, Seq<u8>, Seq<u8>),
    PipelineSearched(usize, Seq<u8>),
    SearchCharged(usize, Seq<u8>),
    SearchSearched(usize, Seq<u8>),
    LegacyCharged(Seq<u8>),
    LegacyStarted(Seq<u8>),
    LegacySearched,
    Brain(Seq<u8>, usize, Seq<char>),
    Generating(Seq<char>),
    ConverseCharged(Seq<u8>, Seq<u8>),
    ConverseFetched(Seq<u8>),
    ConverseBrain(Seq<u8>, Seq<u8>),
    ConverseGenerating(Seq<u8>, Seq<u8>),
    ConverseStored(Seq<u8>),
    FrontierCharged(Seq<u8>, Seq<u8>),
    Sending(Seq<char>, Seq<u8>, Seq<u8>),
    BrainInfoLoading,
    BrainInfoReading,
    Configuring(usize),
    Finishing(Seq<u8>),
    Finished,
}

impl View for RouteAction {
    type V = RouteActionV;

    open spec fn view(&self) -> RouteActionV {
        match self {
            RouteAction::Charge(c) => RouteActionV::Charge(c@),
            RouteAction::HostStatus => RouteActionV::HostStatus,
            RouteAction::LoadBrain => RouteActionV::LoadBrain,
            RouteAction::Generate(p, n) => RouteActionV::Generate(p@, *n),
            RouteAction::Search(q, h, n) => RouteActionV::Search(q@, *h, *n),
            RouteAction::RemoteGet(r, n) => RouteActionV::RemoteGet(r@, *n),
            RouteAction::RemotePut(d, n) => RouteActionV::RemotePut(d@, *n),
            RouteAction::Send(r, p) => RouteActionV::Send(r@, p@),
            RouteAction::BrainInfo(n) => RouteActionV::BrainInfo(*n),
            RouteAction::Emit(name, d) => RouteActionV::Emit(name@, d@),
            RouteAction::Reply(r) => RouteActionV::Reply(r@),
        }
    }
}

impl View for HostReply {
    type V = HostReplyV;

    open spec fn view(&self) -> HostReplyV {
        match self {
            HostReply::Done => HostReplyV::Done,
            HostReply::Data(d) => HostReplyV::Data(d@),
            HostReply::Failed(e) => HostReplyV::Failed(*e),
        }
    }
}

impl View for RouteState {
    type V = RouteStateV;

    open spec fn view(&self) -> RouteStateV {
        match self {
            RouteState::HealthStatus => RouteStateV::HealthStatus,
            RouteState::HealthBrain(s) => RouteStateV::HealthBrain(s@),
            RouteState::CompleteCharged(n, p) => RouteStateV::CompleteCharged(*n, p@),
            RouteState::PipelineCharged(n, a, b) => RouteStateV::PipelineCharged(*n, a@, b@),
            RouteState::PipelineSearched(n, q) => RouteStateV::PipelineSearched(*n, q@),
            RouteState::SearchCharged(n, q) => RouteStateV::SearchCharged(*n, q@),
            RouteState::SearchSearched(n, q) => RouteStateV::SearchSearched(*n, q@),
            RouteState::LegacyCharged(q) => RouteStateV::LegacyCharged(q@),
            RouteState::LegacyStarted(q) => RouteStateV::LegacyStarted(q@),
            RouteState::LegacySearched => RouteStateV::LegacySearched,
            RouteState::Brain(p, n, name) => RouteStateV::Brain(p@, *n, name@),
            RouteState::Generating(name) => RouteStateV::Generating(name@),
            RouteState::ConverseCharged(h, m) => RouteStateV::ConverseCharged(h@, m@),
            RouteState::ConverseFetched(m) => RouteStateV::ConverseFetched(m@),
            RouteState::ConverseBrain(t, m) => RouteStateV::ConverseBrain(t@, m@),
            RouteState::ConverseGenerating(t, m) => RouteStateV::ConverseGenerating(t@, m@),
            RouteState::ConverseStored(r) => RouteStateV::ConverseStored(r@),
            RouteState::FrontierCharged(r, p) => RouteStateV::FrontierCharged(r@, p@),
            RouteState::Sending(name, d, r) => RouteStateV::Sending(name@, d@, r@),
            RouteState::BrainInfoLoading => RouteStateV::BrainInfoLoading,
            RouteState::BrainInfoReading => RouteStateV::BrainInfoReading,
            RouteState::Configuring(n) => RouteStateV::Configuring(*n),
            RouteState::Finishing(r) => RouteStateV::Finishing(r@),
            RouteState::Finished => RouteStateV::Finished,
        }
    }
}

/// The four little-endian bytes of a length, as the events carry it.
pub open spec fn len_marker(n: nat) -> Seq<u8> {
    u32_le_bytes(n as u32)
}

fn len_marker_of(n: usize) -> (r: Vec<u8>)
    ensures
        r@ == len_marker(n as nat),
{
    let mut out: Vec<u8> = Vec::new();
    push_u32_le(&mut out, n as u32);
    assert(out@ =~= u32_le_bytes(n as u32));
    out
}

pub open spec fn spec_pipeline_prompt(hits: Seq<u8>, question: Seq<u8>) -> Seq<u8> {
    "Web results (JSON):\n".spec_bytes() + hits + "\n\n---\nUser question:\n".spec_bytes() + question
        + "\n---\nReply concisely.".spec_bytes()
}

pub open spec fn spec_search_v1_prompt(hits: Seq<u8>, query: Seq<u8>) -> Seq<u8> {
    "Use the JSON search snippets below.\nSnippets:\n".spec_bytes() + hits + "\n\nTask:\n".spec_bytes() + query
        + "\nAnswer:".spec_bytes()
}

pub open spec fn spec_converse_block(t: Seq<u8>, msg: Seq<u8>) -> Seq<u8> {
    t + "\nUser: ".spec_bytes() + msg + "\nAssistant:".spec_bytes()
}

pub open spec fn spec_converse_transcript(t: Seq<u8>, msg: Seq<u8>, reply: Seq<u8>) -> Seq<u8> {
    t + "\nUser: ".spec_bytes() + msg + "\nAssistant: ".spec_bytes() + reply + "\n".spec_bytes()
}

pub open spec fn spec_health(status: Seq<u8>, brain_ok: bool) -> Seq<u8> {
    "{\"status\":\"ok\",\"agent\":\"routekit-agent\",\"growformer_status\":".spec_bytes() + status
        + ",\"router_brain_seeded\":".spec_bytes() + (if brain_ok { "true".spec_bytes() } else { "false".spec_bytes() })
        + "}".spec_bytes()
}

/// How a call starts, or `None` for a call the agent refuses
/// (`InvalidInput`): the state it then waits in and its first action. A
/// charged operation's first action is its charge.
pub open spec fn spec_route_plan(input: Seq<u8>) -> Option<(RouteStateV, RouteActionV)> {
    if input.len() == 0 {
        None
    } else {
        let op = input[0];
        let body = input.subrange(1, input.len() as int);
        if op == OP_HEALTH {
            Some((RouteStateV::HealthStatus, RouteActionV::HostStatus))
        } else if op == OP_COMPLETE {
            match spec_u16_utf8(body) {
                Some((v, prompt)) => if prompt.len() == 0 {
                    None
                } else {
                    Some((RouteStateV::CompleteCharged(v as usize, prompt), RouteActionV::Charge(COST_LOCAL@)))
                },
                None => None,
            }
        } else if op == OP_PIPELINE {
            match spec_u16_front(body) {
                None => None,
                Some((v, rest)) => match spec_two_blobs(rest) {
                    None => None,
                    Some((sq, uq)) => Some((RouteStateV::PipelineCharged(v as usize, sq, uq), RouteActionV::Charge(COST_PIPE@))),
                },
            }
        } else if op == OP_SEARCH {
            if body.len() == 0 {
                None
            } else if body[0] == SEARCH_WIRE_V1 {
                match spec_u16_front(body.subrange(1, body.len() as int)) {
                    None => None,
                    Some((v, rest)) => match spec_blob_front(rest) {
                        None => None,
                        Some((q, tail)) => if tail.len() != 0 || q.len() == 0 || !valid_utf8(q) {
                            None
                        } else {
                            Some((
                                RouteStateV::SearchCharged(if v > 512 { v as usize } else { 512usize }, q),
                                RouteActionV::Charge(COST_SEARCH_AND_LOCAL@),
                            ))
                        },
                    },
                }
            } else if valid_utf8(body) {
                Some((RouteStateV::LegacyCharged(body), RouteActionV::Charge(COST_SEARCH@)))
            } else {
                None
            }
        } else if op == OP_CONVERSE {
            match spec_blob_front(body) {
                None => None,
                Some((hist, rest)) => match spec_blob_front(rest) {
                    None => None,
                    Some((msg, tail)) => if tail.len() != 0 || msg.len() == 0 || !valid_utf8(hist) || !valid_utf8(msg) {
                        None
                    } else {
                        Some((RouteStateV::ConverseCharged(hist, msg), RouteActionV::Charge(COST_LOCAL@)))
                    },
                },
            }
        } else if op == OP_FRONTIER {
            match spec_two_blobs(body) {
                None => None,
                Some((recipient, payload)) => Some((
                    RouteStateV::FrontierCharged(recipient, payload),
                    RouteActionV::Charge(COST_FRONTIER@),
                )),
            }
        } else if op == OP_PING_OPERATOR {
            match spec_two_blobs(body) {
                None => None,
                Some((recipient, payload)) => if !valid_utf8(recipient) {
                    None
                } else {
                    Some((
                        RouteStateV::Sending(
                            "routekit.ping.sent"@,
                            u32_le_bytes(recipient.len() as u32) + u32_le_bytes(payload.len() as u32),
                            "sent".spec_bytes(),
                        ),
                        RouteActionV::Send(recipient, payload),
                    ))
                },
            }
        } else if op == OP_BRAIN_INFO {
            Some((RouteStateV::BrainInfoLoading, RouteActionV::LoadBrain))
        } else if op == OP_CONFIGURE {
            match spec_blob_front(body) {
                None => None,
                Some((prefs, tail)) => if tail.len() != 0 || prefs.len() == 0 {
                    None
                } else {
                    Some((RouteStateV::Configuring(prefs.len() as usize), RouteActionV::RemotePut(prefs, REF_OUT_MAX)))
                },
            }
        } else {
            None
        }
    }
}

/// The cost tier a call charges before any work, or `None` for a call that
/// is refused or charges nothing (HEALTH, PING, BRAIN_INFO, CONFIGURE).
pub open spec fn spec_charge_tier(input: Seq<u8>) -> Option<Seq<char>> {
    match spec_route_plan(input) {
        Some((_, RouteActionV::Charge(c))) => Some(c),
        _ => None,
    }
}

/// The first action of a call that is taken.
pub open spec fn spec_first_action(input: Seq<u8>) -> RouteActionV {
    spec_route_plan(input)->Some_0.1
}

/// The next state and action after `event`, or the error that ends the
/// call. A failed action ends the call with its error (but for the brain
/// check of HEALTH, which only reports it); bytes that are not UTF-8 where
/// text is needed end it with `InvalidInput`; an answer without the bytes
/// a step needs ends it with `HostError`.
pub open spec fn spec_route_step(state: RouteStateV, event: HostReplyV) -> Result<(RouteStateV, RouteActionV), ContractError> {
    match state {
        RouteStateV::HealthBrain(status) => Ok((
            RouteStateV::Finished,
            RouteActionV::Reply(spec_health(status, !(event is Failed))),
        )),
        _ => match event {
            HostReplyV::Failed(e) => Err(e),
            _ => {
                let data = match event {
                    HostReplyV::Data(d) => Some(d),
                    _ => None,
                };
                match state {
                    RouteStateV::HealthStatus => match data {
                        Some(s) => Ok((RouteStateV::HealthBrain(s), RouteActionV::LoadBrain)),
                        None => Err(ContractError::HostError),
                    },
                    RouteStateV::CompleteCharged(n, prompt) => Ok((
                        RouteStateV::Brain(prompt, n, "routekit.complete"@),
                        RouteActionV::LoadBrain,
                    )),
                    RouteStateV::PipelineCharged(n, sq, uq) => if !valid_utf8(sq) || !valid_utf8(uq) {
                        Err(ContractError::InvalidInput)
                    } else {
                        Ok((RouteStateV::PipelineSearched(n, uq), RouteActionV::Search(sq, SEARCH_HITS, DEFAULT_SEARCH_MAX_JSON)))
                    },
                    RouteStateV::PipelineSearched(n, uq) => match data {
                        Some(hits) => Ok((
                            RouteStateV::Brain(spec_pipeline_prompt(hits, uq), n, "routekit.pipeline"@),
                            RouteActionV::LoadBrain,
                        )),
                        None => Err(ContractError::HostError),
                    },
                    RouteStateV::SearchCharged(n, q) => Ok((
                        RouteStateV::SearchSearched(n, q),
                        RouteActionV::Search(q, SEARCH_HITS, DEFAULT_SEARCH_MAX_JSON),
                    )),
                    RouteStateV::SearchSearched(n, q) => match data {
                        Some(hits) => Ok((
                            RouteStateV::Brain(spec_search_v1_prompt(hits, q), n, "routekit.search_v1.done"@),
                            RouteActionV::LoadBrain,
                        )),
                        None => Err(ContractError::HostError),
                    },
                    RouteStateV::LegacyCharged(q) => Ok((
                        RouteStateV::LegacyStarted(q),
                        RouteActionV::Emit("routekit.search.start"@, len_marker(q.len())),
                    )),
                    RouteStateV::LegacyStarted(q) => Ok((
                        RouteStateV::LegacySearched,
                        RouteActionV::Search(q, SEARCH_HITS, DEFAULT_SEARCH_MAX_JSON),
                    )),
                    RouteStateV::LegacySearched => match data {
                        Some(hits) => Ok((
                            RouteStateV::Finishing(hits),
                            RouteActionV::Emit("routekit.search.done"@, len_marker(hits.len())),
                        )),
                        None => Err(ContractError::HostError),
                    },
                    RouteStateV::Brain(prompt, n, name) => Ok((RouteStateV::Generating(name), RouteActionV::Generate(prompt, n))),
                    RouteStateV::Generating(name) => match data {
                        Some(out) => Ok((RouteStateV::Finishing(out), RouteActionV::Emit(name, len_marker(out.len())))),
                        None => Err(ContractError::HostError),
                    },
                    RouteStateV::ConverseCharged(hist, msg) => if hist.len() == 0 {
                        Ok((RouteStateV::ConverseBrain(Seq::empty(), msg), RouteActionV::LoadBrain))
                    } else {
                        Ok((RouteStateV::ConverseFetched(msg), RouteActionV::RemoteGet(hist, CONVERSE_HIST_GET_MAX)))
                    },
                    RouteStateV::ConverseFetched(msg) => match data {
                        Some(prev) => if !valid_utf8(prev) {
                            Err(ContractError::InvalidInput)
                        } else {
                            Ok((RouteStateV::ConverseBrain(prev, msg), RouteActionV::LoadBrain))
                        },
                        None => Err(ContractError::HostError),
                    },
                    RouteStateV::ConverseBrain(t, msg) => Ok((
                        RouteStateV::ConverseGenerating(t, msg),
                        RouteActionV::Generate(spec_converse_block(t, msg), CONVERSE_MAX_RESPONSE),
                    )),
                    RouteStateV::ConverseGenerating(t, msg) => match data {
                        Some(reply) => Ok((
                            RouteStateV::ConverseStored(reply),
                            RouteActionV::RemotePut(spec_converse_transcript(t, msg, reply), REF_OUT_MAX),
                        )),
                        None => Err(ContractError::HostError),
                    },
                    RouteStateV::ConverseStored(reply) => match data {
                        Some(reference) => Ok((
                            RouteStateV::Finishing(blob_bytes(reference) + blob_bytes(reply)),
                            RouteActionV::Emit("routekit.converse"@, len_marker(reply.len())),
                        )),
                        None => Err(ContractError::HostError),
                    },
                    RouteStateV::FrontierCharged(recipient, payload) => if !valid_utf8(recipient) {
                        Err(ContractError::InvalidInput)
                    } else {
                        Ok((
                            RouteStateV::Sending("routekit.frontier.sent"@, len_marker(payload.len()), "pending".spec_bytes()),
                            RouteActionV::Send(recipient, payload),
                        ))
                    },
                    RouteStateV::Sending(name, d, reply) => Ok((RouteStateV::Finishing(reply), RouteActionV::Emit(name, d))),
                    RouteStateV::BrainInfoLoading => Ok((RouteStateV::BrainInfoReading, RouteActionV::BrainInfo(BRAIN_INFO_MAX))),
                    RouteStateV::BrainInfoReading => match data {
                        Some(info) => Ok((RouteStateV::Finished, RouteActionV::Reply(info))),
                        None => Err(ContractError::HostError),
                    },
                    RouteStateV::Configuring(n) => match data {
                        Some(reference) => Ok((
                            RouteStateV::Finishing(blob_bytes(reference)),
                            RouteActionV::Emit("routekit.configure"@, len_marker(n as nat)),
                        )),
                        None => Err(ContractError::HostError),
                    },
                    RouteStateV::Finishing(reply) => Ok((RouteStateV::Finished, RouteActionV::Reply(reply))),
                    _ => Err(ContractError::InvalidInput),
                }
            },
        },
    }
}

/// The plan of a call: the cost tier it charges first (if any), the state
/// it waits in, and its first action.
pub struct RoutePlan {
    pub charge: Option<&'static str>,
    pub state: RouteState,
    pub action: RouteAction,
}

/// The view of a plan's charge.
pub open spec fn charge_view(c: Option<&'static str>) -> Option<Seq<char>> {
    match c {
        Some(s) => Some(s@),
        None => None,
    }
}

fn charged(cost: &'static str, state: RouteState) -> (p: RoutePlan)
    ensures
        p.charge == Some(cost),
        p.state@ == state@,
        p.action@ == RouteActionV::Charge(cost@),
{
    RoutePlan { charge: Some(cost), state, action: RouteAction::Charge(cost) }
}

fn uncharged(state: RouteState, action: RouteAction) -> (p: RoutePlan)
    ensures
        p.charge is None,
        p.state@ == state@,
        p.action@ == action@,
{
    RoutePlan { charge: None, state, action }
}

/// Reads a call and plans its start.
pub fn route_plan(input: &[u8]) -> (r: Result<RoutePlan, ContractError>)
    ensures
        r matches Ok(p) ==> charge_view(p.charge) == spec_charge_tier(input@) && p.action@ == spec_first_action(input@)
            && spec_route_plan(input@) == Some((p.state@, p.action@)),
        r is Err <==> spec_route_plan(input@) is None,
        r is Err ==> r == Err::<RoutePlan, ContractError>(ContractError::InvalidInput),
{
    if input.len() == 0 {
        return Err(ContractError::InvalidInput);
    }
    let op = input[0];
    let body_v = crate::wire::copy_range(input, 1, input.len());
    let body = body_v.as_slice();
    assert(body@ == input@.subrange(1, input@.len() as int));
    if op == OP_HEALTH {
        Ok(uncharged(RouteState::HealthStatus, RouteAction::HostStatus))
    } else if op == OP_COMPLETE {
        let (max_resp, prompt) = parse_complete(body)?;
        Ok(charged(COST_LOCAL, RouteState::CompleteCharged(max_resp, prompt)))
    } else if op == OP_PIPELINE {
        let (max_resp, sq, uq) = parse_pipeline(body)?;
        Ok(charged(COST_PIPE, RouteState::PipelineCharged(max_resp, sq, uq)))
    } else if op == OP_SEARCH {
        if is_search_v1(body)? {
            let rest = crate::wire::copy_range(body, 1, body.len());
            let (max_gen, query) = parse_search_v1(rest.as_slice())?;
            Ok(charged(COST_SEARCH_AND_LOCAL, RouteState::SearchCharged(generation_budget(max_gen), query)))
        } else {
            parse_search_legacy(body)?;
            Ok(charged(COST_SEARCH, RouteState::LegacyCharged(body_v)))
        }
    } else if op == OP_CONVERSE {
        let (hist, msg) = parse_converse(body)?;
        Ok(charged(COST_LOCAL, RouteState::ConverseCharged(hist, msg)))
    } else if op == OP_FRONTIER {
        let (recipient, payload) = parse_two_blobs(body)?;
        Ok(charged(COST_FRONTIER, RouteState::FrontierCharged(recipient, payload)))
    } else if op == OP_PING_OPERATOR {
        let (recipient, payload) = parse_two_blobs(body)?;
        check_utf8(recipient.as_slice())?;
        let marker = receipt_len_marker(recipient.len(), payload.len());
        let sent = crate::host::key_with("sent", &[]);
        assert("sent".spec_bytes() + Seq::<u8>::empty() == "sent".spec_bytes());
        Ok(uncharged(RouteState::Sending("routekit.ping.sent", marker, sent), RouteAction::Send(recipient, payload)))
    } else if op == OP_BRAIN_INFO {
        Ok(uncharged(RouteState::BrainInfoLoading, RouteAction::LoadBrain))
    } else if op == OP_CONFIGURE {
        let prefs = parse_configure(body)?;
        let n = prefs.len();
        Ok(uncharged(RouteState::Configuring(n), RouteAction::RemotePut(prefs, REF_OUT_MAX)))
    } else {
        Err(ContractError::InvalidInput)
    }
}

fn text_of(s: &str) -> (r: Vec<u8>)
    ensures
        r@ == s.spec_bytes(),
{
    let r = crate::host::key_with(s, &[]);
    assert(s.spec_bytes() + Seq::<u8>::empty() == s.spec_bytes());
    r
}

/// The next state and action of a call after the host's reply to its last
/// action, or the error that ends the call.
pub fn route_step(state: RouteState, event: HostReply) -> (r: Result<(RouteState, RouteAction), ContractError>)
    ensures
        match r {
            Ok((s, a)) => spec_route_step(state@, event@) == Ok::<(RouteStateV, RouteActionV), ContractError>((s@, a@)),
            Err(e) => spec_route_step(state@, event@) == Err::<(RouteStateV, RouteActionV), ContractError>(e),
        },
{
    if let RouteState::HealthBrain(status) = state {
        let ok = match event {
            HostReply::Failed(_) => false,
            _ => true,
        };
        return Ok((RouteState::Finished, RouteAction::Reply(health_json(status.as_slice(), ok))));
    }
    let data: Option<Vec<u8>> = match event {
        HostReply::Failed(e) => {
            return Err(e);
        },
        HostReply::Data(d) => Some(d),
        HostReply::Done => None,
    };
    match state {
        RouteState::HealthStatus => match data {
            Some(s) => Ok((RouteState::HealthBrain(s), RouteAction::LoadBrain)),
            None => Err(ContractError::HostError),
        },
        RouteState::CompleteCharged(n, prompt) => Ok((RouteState::Brain(prompt, n, "routekit.complete"), RouteAction::LoadBrain)),
        RouteState::PipelineCharged(n, sq, uq) => {
            if !utf8_is_valid(sq.as_slice()) || !utf8_is_valid(uq.as_slice()) {
                return Err(ContractError::InvalidInput);
            }
            Ok((RouteState::PipelineSearched(n, uq), RouteAction::Search(sq, SEARCH_HITS, DEFAULT_SEARCH_MAX_JSON)))
        },
        RouteState::PipelineSearched(n, uq) => match data {
            Some(hits) => Ok((
                RouteState::Brain(pipeline_prompt(hits.as_slice(), uq.as_slice()), n, "routekit.pipeline"),
                RouteAction::LoadBrain,
            )),
            None => Err(ContractError::HostError),
        },
        RouteState::SearchCharged(n, q) => {
            let q2 = crate::wire::copy_range(q.as_slice(), 0, q.len());
            assert(q@.subrange(0, q@.len() as int) == q@);
            Ok((RouteState::SearchSearched(n, q), RouteAction::Search(q2, SEARCH_HITS, DEFAULT_SEARCH_MAX_JSON)))
        },
        RouteState::SearchSearched(n, q) => match data {
            Some(hits) => Ok((
                RouteState::Brain(search_v1_prompt(hits.as_slice(), q.as_slice()), n, "routekit.search_v1.done"),
                RouteAction::LoadBrain,
            )),
            None => Err(ContractError::HostError),
        },
        RouteState::LegacyCharged(q) => {
            let m = len_marker_of(q.len());
            Ok((RouteState::LegacyStarted(q), RouteAction::Emit("routekit.search.start", m)))
        },
        RouteState::LegacyStarted(q) => Ok((RouteState::LegacySearched, RouteAction::Search(q, SEARCH_HITS, DEFAULT_SEARCH_MAX_JSON))),
        RouteState::LegacySearched => match data {
            Some(hits) => {
                let m = len_marker_of(hits.len());
                Ok((RouteState::Finishing(hits), RouteAction::Emit("routekit.search.done", m)))
            },
            None => Err(ContractError::HostError),
        },
        RouteState::Brain(prompt, n, name) => Ok((RouteState::Generating(name), RouteAction::Generate(prompt, n))),
        RouteState::Generating(name) => match data {
            Some(out) => {
                let m = len_marker_of(out.len());
                Ok((RouteState::Finishing(out), RouteAction::Emit(name, m)))
            },
            None => Err(ContractError::HostError),
        },
        RouteState::ConverseCharged(hist, msg) => {
            if hist.len() == 0 {
                Ok((RouteState::ConverseBrain(Vec::new(), msg), RouteAction::LoadBrain))
            } else {
                Ok((RouteState::ConverseFetched(msg), RouteAction::RemoteGet(hist, CONVERSE_HIST_GET_MAX)))
            }
        },
        RouteState::ConverseFetched(msg) => match data {
            Some(prev) => {
                if !utf8_is_valid(prev.as_slice()) {
                    return Err(ContractError::InvalidInput);
                }
                Ok((RouteState::ConverseBrain(prev, msg), RouteAction::LoadBrain))
            },
            None => Err(ContractError::HostError),
        },
        RouteState::ConverseBrain(t, msg) => {
            let block = converse_block(t.as_slice(), msg.as_slice());
            Ok((RouteState::ConverseGenerating(t, msg), RouteAction::Generate(block, CONVERSE_MAX_RESPONSE)))
        },
        RouteState::ConverseGenerating(t, msg) => match data {
            Some(reply) => {
                let transcript = converse_transcript(t.as_slice(), msg.as_slice(), reply.as_slice());
                Ok((RouteState::ConverseStored(reply), RouteAction::RemotePut(transcript, REF_OUT_MAX)))
            },
            None => Err(ContractError::HostError),
        },
        RouteState::ConverseStored(reply) => match data {
            Some(reference) => {
                let m = len_marker_of(reply.len());
                let out = converse_reply(reference.as_slice(), reply.as_slice());
                Ok((RouteState::Finishing(out), RouteAction::Emit("routekit.converse", m)))
            },
            None => Err(ContractError::HostError),
        },
        RouteState::FrontierCharged(recipient, payload) => {
            if !utf8_is_valid(recipient.as_slice()) {
                return Err(ContractError::InvalidInput);
            }
            let m = len_marker_of(payload.len());
            Ok((RouteState::Sending("routekit.frontier.sent", m, text_of("pending")), RouteAction::Send(recipient, payload)))
        },
        RouteState::Sending(name, d, reply) => Ok((RouteState::Finishing(reply), RouteAction::Emit(name, d))),
        RouteState::BrainInfoLoading => Ok((RouteState::BrainInfoReading, RouteAction::BrainInfo(BRAIN_INFO_MAX))),
        RouteState::BrainInfoReading => match data {
            Some(info) => Ok((RouteState::Finished, RouteAction::Reply(info))),
            None => Err(ContractError::HostError),
        },
        RouteState::Configuring(n) => match data {
            Some(reference) => {
                let m = len_marker_of(n);
                Ok((RouteState::Finishing(configure_reply(reference.as_slice())), RouteAction::Emit("routekit.configure", m)))
            },
            None => Err(ContractError::HostError),
        },
        RouteState::Finishing(reply) => Ok((RouteState::Finished, RouteAction::Reply(reply))),
        _ => Err(ContractError::InvalidInput),
    }
}

/// Every charged operation charges before any other work: its first
/// action is the charge of its tier, and the tiers are those of the
/// price list (100 for local work, 200 for a search, 300 for search and
/// generation, 5000 for a frontier message).
pub proof fn law_charge_comes_first(input: Seq<u8>)
    requires
        spec_charge_tier(input) is Some,
    ensures
        spec_first_action(input) == RouteActionV::Charge(spec_charge_tier(input)->Some_0),
        spec_charge_tier(input) == Some(COST_LOCAL@) || spec_charge_tier(input) == Some(COST_SEARCH@)
            || spec_charge_tier(input) == Some(COST_PIPE@) || spec_charge_tier(input) == Some(COST_FRONTIER@),
{
}

/// A ping is never charged.
pub proof fn law_ping_is_free(input: Seq<u8>)
    requires
        input.len() > 0,
        input[0] == OP_PING_OPERATOR,
    ensures
        spec_charge_tier(input) is None,
{
}

/// A conversation turn with history runs: charge, fetch the history, load
/// the brain, generate from the history and the message, store the new
/// transcript, announce, answer.
pub proof fn law_converse_order(hist: Seq<u8>, msg: Seq<u8>, prev: Seq<u8>, reply: Seq<u8>, reference: Seq<u8>)
    requires
        hist.len() > 0,
        valid_utf8(prev),
    ensures
        spec_route_step(RouteStateV::ConverseCharged(hist, msg), HostReplyV::Done)
            == Ok::<(RouteStateV, RouteActionV), ContractError>((RouteStateV::ConverseFetched(msg), RouteActionV::RemoteGet(hist, CONVERSE_HIST_GET_MAX))),
        spec_route_step(RouteStateV::ConverseFetched(msg), HostReplyV::Data(prev))
            == Ok::<(RouteStateV, RouteActionV), ContractError>((RouteStateV::ConverseBrain(prev, msg), RouteActionV::LoadBrain)),
        spec_route_step(RouteStateV::ConverseBrain(prev, msg), HostReplyV::Done)
            == Ok::<(RouteStateV, RouteActionV), ContractError>((
                RouteStateV::ConverseGenerating(prev, msg),
                RouteActionV::Generate(spec_converse_block(prev, msg), CONVERSE_MAX_RESPONSE),
            )),
        spec_route_step(RouteStateV::ConverseGenerating(prev, msg), HostReplyV::Data(reply))
            == Ok::<(RouteStateV, RouteActionV), ContractError>((
                RouteStateV::ConverseStored(reply),
                RouteActionV::RemotePut(spec_converse_transcript(prev, msg, reply), REF_OUT_MAX),
            )),
        spec_route_step(RouteStateV::ConverseStored(reply), HostReplyV::Data(reference))
            == Ok::<(RouteStateV, RouteActionV), ContractError>((
                RouteStateV::Finishing(blob_bytes(reference) + blob_bytes(reply)),
                RouteActionV::Emit("routekit.converse"@, len_marker(reply.len())),
            )),
{
}

} // verus!
