//! Intent classifier: asks the host's language model which intent a
//! message expresses.
use vstd::prelude::*;
use vstd::string::StringSliceAdditionalSpecFns;
use crate::error::ContractError;
use crate::host::make_event;
use crate::text::wrap_text;
use crate::wire::{spec_read_u8, spec_read_string, read_u8, read_string, NO_LIMIT};
use super::kit_agent::{LlmCall, AgentAction};

verus! {

pub const OP_CLASSIFY: u8 = 1;
pub const OP_STATUS: u8 = 2;

pub const MAX_RESPONSE_LEN: usize = 2048;

/// The instructions before the message.
pub const CLASSIFY_PREFIX: &'static str = r#"[MODE=CLASSIFY]
You are an Intent Classifier.
Output ONLY a JSON object with exactly two fields: intent and confidence.
No explanations. No entities. No examples. No extra text.

Valid intents:
- classify
- ask_contract
- ask_llm
- ask_payment
- ask_storage
- ask_identity
- ask_error
- spacekit_message
- ask_unknown

Output template: {"intent":"...one of the valid intents...", "confidence":<0.0 to 1.0>} \n\

RULES: \n\
- Output ONLY a valid JSON object. \n\
- No explanations. No entities. No examples. No extra text. \n\
- Do NOT output entities or any additional fields. \n\
- Only one of the valid intents is allowed. \n\
- Confidence must be between 0.0 and 1.0. \n\
- Intent must be one of the valid intents. \n\
- Intent must be a valid JSON object. \n\
- Output template must be followed exactly. \n\
- If the user asks what you can do or asks about your abilities → classify \n\
- If the message starts with "spacetime:" → spacekit_message \n\
- If the user describes sending, depositing, transferring, or paying tokens → ask_payment \n\
- If the user asks about contracts, deploying, calling, or inspecting a contract → ask_contract \n\
- If the user asks about models or LLMs → ask_llm \n\
- If the user asks about files, uploading, retrieving, or storage → ask_storage \n\
- If the user asks about identity, keys, signatures, or DIDs → ask_identity \n\
- If the user asks about an error, bug, crash, or stack trace → ask_error \n\
- Otherwise → ask_unknown \n\

\n\
Only respond with the JSON object. Do not include any other text.
\n\
USER: "#;

/// What follows the message.
pub const CLASSIFY_SUFFIX: &'static str = r#"\n\ 
OUTPUT:"#;

/// The request that classifies the intent of a message.
pub fn intent_classifier_classify(message: &[u8]) -> (r: LlmCall)
    ensures
        r.prompt@ == CLASSIFY_PREFIX.spec_bytes() + message@ + CLASSIFY_SUFFIX.spec_bytes(),
        r.temperature == 15 && r.max_tokens == 128 && r.max_len == MAX_RESPONSE_LEN,
{
    LlmCall { prompt: wrap_text(CLASSIFY_PREFIX, message, CLASSIFY_SUFFIX), temperature: 15, max_tokens: 128, max_len: MAX_RESPONSE_LEN }
}

/// Reads a call: STATUS, or the classification request of CLASSIFY with
/// the event announced once the model has answered.
/// Anything else is `InvalidInput`.
pub fn handle(input: &[u8]) -> (r: Result<AgentAction, ContractError>)
    ensures
        match spec_read_u8(input@, 0) {
            None => r == Err::<AgentAction, ContractError>(ContractError::InvalidInput),
            Some((op, p)) => if op == OP_STATUS {
                r matches Ok(AgentAction::Status)
            } else if op == OP_CLASSIFY {
                match spec_read_string(input@, p, NO_LIMIT as int) {
                    None => r == Err::<AgentAction, ContractError>(ContractError::InvalidInput),
                    Some((message, _)) => r matches Ok(AgentAction::Ask(c, e))
                        && c.prompt@ == CLASSIFY_PREFIX.spec_bytes() + message + CLASSIFY_SUFFIX.spec_bytes()
                        && c.temperature == 15 && c.max_tokens == 128 && c.max_len == MAX_RESPONSE_LEN
                        && e@ == ("spacekit.intent_classifier.classify".spec_bytes(), Seq::<u8>::empty()),
                }
            } else {
                r == Err::<AgentAction, ContractError>(ContractError::InvalidInput)
            },
        },
{
    let mut cursor: usize = 0;
    let op = read_u8(input, &mut cursor)?;
    if op == OP_STATUS {
        Ok(AgentAction::Status)
    } else if op == OP_CLASSIFY {
        let message = read_string(input, &mut cursor, NO_LIMIT)?;
        Ok(AgentAction::Ask(
            intent_classifier_classify(message.as_slice()),
            make_event("spacekit.intent_classifier.classify", &[]),
        ))
    } else {
        Err(ContractError::InvalidInput)
    }
}

} // verus!
