//! The hello-world contract: greets the name it is given.
use vstd::prelude::*;
use vstd::string::StringSliceAdditionalSpecFns;
use crate::codec::append_bytes;
use crate::error::ContractError;
use crate::host::{reply_view, Event, event_log, emit};
use vstd::utf8::valid_utf8;
use crate::wire::{spec_read_string, read_string, NO_LIMIT, spec_string_field, lemma_read_string_field};

verus! {

/// `Hello, <name>!` for the length-prefixed name at the start of the input.
pub open spec fn spec_handle(input: Seq<u8>) -> Result<Seq<u8>, ContractError> {
    match spec_read_string(input, 0, NO_LIMIT as int) {
        None => Err(ContractError::InvalidInput),
        Some((name, _)) => Ok("Hello, ".spec_bytes() + name + "!".spec_bytes()),
    }
}

/// The event of a call: the greeting, when there is one.
pub open spec fn spec_events(input: Seq<u8>) -> Seq<(Seq<u8>, Seq<u8>)> {
    match spec_handle(input) {
        Ok(greeting) => seq![("spacekit.hello_world".spec_bytes(), greeting)],
        Err(_) => seq![],
    }
}

/// Builds the greeting for the input and emits it.
pub fn handle(input: &[u8], events: &mut Vec<Event>) -> (r: Result<Vec<u8>, ContractError>)
    ensures
        reply_view(r) == spec_handle(input@),
        event_log(final(events)@) == event_log(old(events)@) + spec_events(input@),
{
    let mut cursor: usize = 0;
    let name = read_string(input, &mut cursor, NO_LIMIT)?;
    let mut out: Vec<u8> = Vec::new();
    append_bytes(&mut out, "Hello, ".as_bytes());
    append_bytes(&mut out, name.as_slice());
    append_bytes(&mut out, "!".as_bytes());
    assert(out@ =~= "Hello, ".spec_bytes() + name@ + "!".spec_bytes());
    emit(events, "spacekit.hello_world", out.as_slice());
    Ok(out)
}

/// A call naming `name` (UTF-8 of at most `NO_LIMIT` bytes) is answered
/// with the bytes of `Hello, `, the name and `!`, whatever follows it, and
/// the greeting is the one event.
pub proof fn law_greets_the_name(name: Seq<u8>, rest: Seq<u8>)
    requires
        name.len() <= NO_LIMIT,
        valid_utf8(name),
    ensures
        spec_handle(spec_string_field(name) + rest)
            == Ok::<Seq<u8>, ContractError>(seq![72u8, 101u8, 108u8, 108u8, 111u8, 44u8, 32u8] + name + seq![33u8]),
        spec_events(spec_string_field(name) + rest)
            == seq![("spacekit.hello_world".spec_bytes(), seq![72u8, 101u8, 108u8, 108u8, 111u8, 44u8, 32u8] + name + seq![33u8])],
{
    lemma_read_string_field(Seq::<u8>::empty(), name, rest, NO_LIMIT as int);
    assert(Seq::<u8>::empty() + spec_string_field(name) + rest =~= spec_string_field(name) + rest);
    reveal_strlit("Hello, ");
    reveal_strlit("!");
    vstd::string::is_ascii_spec_bytes("Hello, ");
    vstd::string::is_ascii_spec_bytes("!");
    assert("Hello, ".spec_bytes() =~= seq![72u8, 101u8, 108u8, 108u8, 111u8, 44u8, 32u8]);
    assert("!".spec_bytes() =~= seq![33u8]);
}

} // verus!
