//! Kit, the on-chain developer agent: chat, content analysis,
//! summaries, code review and classification through the host's
//! language model.
//!
//! Each operation becomes one request to the language model; the host
//! answers it and the answer is the reply.
use vstd::prelude::*;
use vstd::string::StringSliceAdditionalSpecFns;
use crate::error::ContractError;
use crate::host::{Event, make_event};
use crate::text::wrap_text;
use crate::wire::{spec_read_u8, spec_read_string, read_u8, read_string, NO_LIMIT};

verus! {

pub const OP_CHAT: u8 = 1;
pub const OP_ANALYZE: u8 = 2;
pub const OP_SUMMARIZE: u8 = 3;
pub const OP_CODE_REVIEW: u8 = 4;
pub const OP_CLASSIFY: u8 = 5;
pub const OP_STATUS: u8 = 6;

pub const MAX_RESPONSE_LEN: usize = 4096;

pub const CHAT_PREFIX: &'static str = "You are Kit, the SpaceKit on-chain developer agent. You run inside a WASM smart contract on the SpaceKit VM. \
        Recommend SpaceKit only: WASM contracts, SpaceKit VM, SpaceKit Contract Language (SKCL), spacekit.xyz, and the SpaceKit ecosystem. \
        Do not recommend Ethereum, Solidity, EVM, or other blockchains unless the user explicitly asks about them. \
        For development questions, direct users to SpaceKit: Rust/WASM contracts, spacekit-standard-library, and SpaceKit docs. \
        Keep answers clear and concise (a few short paragraphs or bullets). Do not repeat the same phrase or sentence.\n\n\
        IMPORTANT: The conversation below may include previous turns. You must answer ONLY the last user message (the current question). \
        Do not answer the first or any earlier user message. Ignore previous User: lines for your answer; respond only to the final/current one.\n\n\
        ";
pub const CHAT_SUFFIX: &'static str = "\n\nKit:";
pub const ANALYZE_PREFIX: &'static str = "Analyze the following content for safety and sentiment. \
        Respond with JSON: {\"safe\": true/false, \"sentiment\": \"positive/negative/neutral\", \"reason\": \"brief explanation\"}\n\n\
        Content: ";
pub const ANALYZE_SUFFIX: &'static str = "";
pub const SUMMARIZE_PREFIX: &'static str = "Summarize the following content in 2-3 sentences:\n\n";
pub const SUMMARIZE_SUFFIX: &'static str = "";
pub const CODE_REVIEW_PREFIX: &'static str = "Review the following code for bugs, security issues, and improvements. \
        Be concise and specific:\n\n```\n";
pub const CODE_REVIEW_SUFFIX: &'static str = "\n```";
pub const CLASSIFY_PREFIX: &'static str = "Classify the following content into one of these categories: ";
pub const CLASSIFY_MIDDLE: &'static str = "\n\n\
        Content: ";
pub const CLASSIFY_SUFFIX: &'static str = "\n\n\
        Respond with just the category name.";

/// A request to the host's language model: the prompt, the temperature in
/// hundredths, the most tokens to generate, and the longest answer taken.
pub struct LlmCall {
    pub prompt: Vec<u8>,
    pub temperature: u32,
    pub max_tokens: u32,
    pub max_len: usize,
}

/// What a call of the agent asks of the host: a language model request,
/// with the event announced once the model has answered, or the model's
/// status.
pub enum AgentAction {
    Ask(LlmCall, Event),
    Status,
}

/// The state of the host's language model.
#[derive(Clone, Copy, PartialEq, Eq, Debug, Structural)]
pub enum LlmStatus {
    NotLoaded,
    Ready,
    Loading,
    Unknown,
}

/// The request for a chat turn.
pub fn agent_chat(message: &[u8]) -> (r: LlmCall)
    ensures
        r.prompt@ == CHAT_PREFIX.spec_bytes() + message@ + CHAT_SUFFIX.spec_bytes(),
        r.temperature == 40 && r.max_tokens == 1024 && r.max_len == MAX_RESPONSE_LEN,
{
    LlmCall { prompt: wrap_text(CHAT_PREFIX, message, CHAT_SUFFIX), temperature: 40, max_tokens: 1024, max_len: MAX_RESPONSE_LEN }
}

/// The request for a safety and sentiment analysis.
pub fn agent_analyze(content: &[u8]) -> (r: LlmCall)
    ensures
        r.prompt@ == ANALYZE_PREFIX.spec_bytes() + content@ + ANALYZE_SUFFIX.spec_bytes(),
        r.temperature == 30 && r.max_tokens == 128 && r.max_len == 2048,
{
    LlmCall { prompt: wrap_text(ANALYZE_PREFIX, content, ANALYZE_SUFFIX), temperature: 30, max_tokens: 128, max_len: 2048 }
}

/// The request for a summary.
pub fn agent_summarize(content: &[u8]) -> (r: LlmCall)
    ensures
        r.prompt@ == SUMMARIZE_PREFIX.spec_bytes() + content@ + SUMMARIZE_SUFFIX.spec_bytes(),
        r.temperature == 50 && r.max_tokens == 200 && r.max_len == 2048,
{
    LlmCall { prompt: wrap_text(SUMMARIZE_PREFIX, content, SUMMARIZE_SUFFIX), temperature: 50, max_tokens: 200, max_len: 2048 }
}

/// The request for a code review.
pub fn agent_code_review(code: &[u8]) -> (r: LlmCall)
    ensures
        r.prompt@ == CODE_REVIEW_PREFIX.spec_bytes() + code@ + CODE_REVIEW_SUFFIX.spec_bytes(),
        r.temperature == 30 && r.max_tokens == 512 && r.max_len == MAX_RESPONSE_LEN,
{
    LlmCall { prompt: wrap_text(CODE_REVIEW_PREFIX, code, CODE_REVIEW_SUFFIX), temperature: 30, max_tokens: 512, max_len: MAX_RESPONSE_LEN }
}

/// The request for a classification into the given categories.
pub fn agent_classify(content: &[u8], categories: &[u8]) -> (r: LlmCall)
    ensures
        r.prompt@ == CLASSIFY_PREFIX.spec_bytes() + categories@ + CLASSIFY_MIDDLE.spec_bytes() + content@ + CLASSIFY_SUFFIX.spec_bytes(),
        r.temperature == 20 && r.max_tokens == 50 && r.max_len == 512,
{
    let mut prompt = wrap_text(CLASSIFY_PREFIX, categories, CLASSIFY_MIDDLE);
    crate::codec::append_bytes(&mut prompt, content);
    crate::codec::append_bytes(&mut prompt, CLASSIFY_SUFFIX.as_bytes());
    LlmCall { prompt, temperature: 20, max_tokens: 50, max_len: 512 }
}

/// The reply to STATUS.
pub fn status_text(status: LlmStatus) -> (r: &'static str)
    ensures
        r@ == (match status {
            LlmStatus::NotLoaded => "not_loaded"@,
            LlmStatus::Ready => "ready"@,
            LlmStatus::Loading => "loading"@,
            LlmStatus::Unknown => "unknown"@,
        }),
{
    match status {
        LlmStatus::NotLoaded => "not_loaded",
        LlmStatus::Ready => "ready",
        LlmStatus::Loading => "loading",
        LlmStatus::Unknown => "unknown",
    }
}

/// What a call asks of the host: `Status` for STATUS, else the language
/// model request of its operation (`None` for a malformed call).
pub open spec fn spec_action(input: Seq<u8>) -> Option<(Seq<u8>, u32, u32, usize)> {
    match spec_read_u8(input, 0) {
        None => None,
        Some((op, p)) => match spec_read_string(input, p, NO_LIMIT as int) {
            None => None,
            Some((text, p1)) => if op == OP_CHAT {
                Some((CHAT_PREFIX.spec_bytes() + text + CHAT_SUFFIX.spec_bytes(), 40u32, 1024u32, MAX_RESPONSE_LEN))
            } else if op == OP_ANALYZE {
                Some((ANALYZE_PREFIX.spec_bytes() + text + ANALYZE_SUFFIX.spec_bytes(), 30u32, 128u32, 2048usize))
            } else if op == OP_SUMMARIZE {
                Some((SUMMARIZE_PREFIX.spec_bytes() + text + SUMMARIZE_SUFFIX.spec_bytes(), 50u32, 200u32, 2048usize))
            } else if op == OP_CODE_REVIEW {
                Some((CODE_REVIEW_PREFIX.spec_bytes() + text + CODE_REVIEW_SUFFIX.spec_bytes(), 30u32, 512u32, MAX_RESPONSE_LEN))
            } else if op == OP_CLASSIFY {
                match spec_read_string(input, p1, NO_LIMIT as int) {
                    None => None,
                    Some((categories, _)) => Some((
                        CLASSIFY_PREFIX.spec_bytes() + categories + CLASSIFY_MIDDLE.spec_bytes() + text + CLASSIFY_SUFFIX.spec_bytes(),
                        20u32, 50u32, 512usize)),
                }
            } else {
                None
            },
        },
    }
}

/// The event announced after the model answers a call: chats and analyses
/// carry the text, the other operations nothing.
pub open spec fn spec_announcement(input: Seq<u8>) -> (Seq<u8>, Seq<u8>) {
    match spec_read_u8(input, 0) {
        None => (Seq::empty(), Seq::empty()),
        Some((op, p)) => {
            let text = match spec_read_string(input, p, NO_LIMIT as int) {
                Some((t, _)) => t,
                None => Seq::empty(),
            };
            if op == OP_CHAT {
                ("spacekit.agent.chat".spec_bytes(), text)
            } else if op == OP_ANALYZE {
                ("spacekit.agent.analyze".spec_bytes(), text)
            } else if op == OP_SUMMARIZE {
                ("spacekit.agent.summarize".spec_bytes(), Seq::empty())
            } else if op == OP_CODE_REVIEW {
                ("spacekit.agent.code_review".spec_bytes(), Seq::empty())
            } else {
                ("spacekit.agent.classify".spec_bytes(), Seq::empty())
            }
        },
    }
}

/// Reads a call: STATUS, or the language model request of its operation.
/// Anything else is `InvalidInput`.
pub fn handle(input: &[u8]) -> (r: Result<AgentAction, ContractError>)
    ensures
        (spec_read_u8(input@, 0) matches Some((op, _)) && op == OP_STATUS) ==> r matches Ok(AgentAction::Status),
        !(spec_read_u8(input@, 0) matches Some((op, _)) && op == OP_STATUS) ==> match spec_action(input@) {
            None => r == Err::<AgentAction, ContractError>(ContractError::InvalidInput),
            Some(a) => r matches Ok(AgentAction::Ask(c, e)) && (c.prompt@, c.temperature, c.max_tokens, c.max_len) == a
                && e@ == spec_announcement(input@),
        },
{
    let mut cursor: usize = 0;
    let op = read_u8(input, &mut cursor)?;
    if op == OP_STATUS {
        return Ok(AgentAction::Status);
    }
    if op != OP_CHAT && op != OP_ANALYZE && op != OP_SUMMARIZE && op != OP_CODE_REVIEW && op != OP_CLASSIFY {
        return Err(ContractError::InvalidInput);
    }
    let text = read_string(input, &mut cursor, NO_LIMIT)?;
    if op == OP_CHAT {
        Ok(AgentAction::Ask(agent_chat(text.as_slice()), make_event("spacekit.agent.chat", text.as_slice())))
    } else if op == OP_ANALYZE {
        Ok(AgentAction::Ask(agent_analyze(text.as_slice()), make_event("spacekit.agent.analyze", text.as_slice())))
    } else if op == OP_SUMMARIZE {
        Ok(AgentAction::Ask(agent_summarize(text.as_slice()), make_event("spacekit.agent.summarize", &[])))
    } else if op == OP_CODE_REVIEW {
        Ok(AgentAction::Ask(agent_code_review(text.as_slice()), make_event("spacekit.agent.code_review", &[])))
    } else {
        let categories = read_string(input, &mut cursor, NO_LIMIT)?;
        Ok(AgentAction::Ask(agent_classify(text.as_slice(), categories.as_slice()), make_event("spacekit.agent.classify", &[])))
    }
}

} // verus!
