use vstd::prelude::*;
use crate::spacetime::forum::{Post, Thread};
use crate::spacetime::moderation::{Flag, PostId};

verus! {

/// Decentralized identifier of an agent or user.
pub type Did = String;

/// Address of a deployed contract.
pub type Address = String;

/// What the runtime tells a contract about the current call: who calls and
/// the timestamp of the block.
pub struct CallEnv {
    pub caller: Did,
    pub block_timestamp: u64,
}

/// An event of the SpaceTime contracts, with the record it announces.
pub enum SpaceTimeEvent {
    ThreadCreated(Thread),
    PostCreated(Post),
    PostFlagged(Flag),
    PostHidden(PostId),
    PostUnhidden(PostId),
}

/// Membership in Unicode's `White_Space` property.
pub open spec fn is_white_space(c: char) -> bool {
    let u = c as u32;
    ||| 0x09 <= u <= 0x0D
    ||| u == 0x20
    ||| u == 0x85
    ||| u == 0xA0
    ||| u == 0x1680
    ||| 0x2000 <= u <= 0x200A
    ||| u == 0x2028
    ||| u == 0x2029
    ||| u == 0x202F
    ||| u == 0x205F
    ||| u == 0x3000
}

/// A text is blank when trimming whitespace leaves nothing.
pub open spec fn is_blank(s: Seq<char>) -> bool {
    forall|i: int| 0 <= i < s.len() ==> #[trigger] is_white_space(s[i])
}

/// Whether `c` has the `White_Space` property (as `char::is_whitespace`).
pub(crate) fn char_is_whitespace(c: char) -> (r: bool)
    ensures
        r == is_white_space(c),
{
    let u = c as u32;
    (0x09 <= u && u <= 0x0D) || u == 0x20 || u == 0x85 || u == 0xA0 || u == 0x1680
        || (0x2000 <= u && u <= 0x200A) || u == 0x2028 || u == 0x2029 || u == 0x202F
        || u == 0x205F || u == 0x3000
}

/// Whether `value` holds anything besides whitespace (`!value.trim().is_empty()`).
pub fn has_content(value: &str) -> (r: bool)
    ensures
        r == !is_blank(value@),
{
    let n = value.unicode_len();
    let mut i: usize = 0;
    while i < n
        invariant
            n == value@.len(),
            i <= n,
            forall|j: int| 0 <= j < i ==> #[trigger] is_white_space(value@[j]),
        decreases n - i,
    {
        let c = value.get_char(i);
        if !char_is_whitespace(c) {
            return true;
        }
        i = i + 1;
    }
    false
}

} // verus!
