//! The chat proxy: each line passing between a user and the upstream chat
//! server has a Boguscoin address at its start or end replaced by a fixed one.
use vstd::prelude::*;
use vstd::utf8::*;
use crate::pattern::{compile, regex_compiles, regex_is_match, regex_replace, replace, Pattern};
use crate::text::string_from_utf8;

verus! {

/// A Boguscoin address (a `7` and 25 to 34 alphanumerics) at the start of a
/// line after at most one space, or at its end before at most one space and
/// the newline. The whole match, spaces and newline included, is replaced.
pub const BOGUSCOIN_PATTERN: &'static str = "(^ ?(7[[:alnum:]]{25,34}))|((7[[:alnum:]]{25,34}) ?\\n$)";

/// The address that replaces the match.
pub const TONY_ADDRESS: &'static str = "7YWHMfk9JZe0LM0g1ZauHuiSxhI";

/// What the proxy does with a line read from one side.
#[derive(Debug)]
pub enum RelayStep {
    /// The line is empty or not UTF-8: the session ends.
    Close,
    /// Write this text to the other side.
    Forward(String),
}

/// The line after rewriting: the first match of the pattern replaced by the
/// fixed address.
pub open spec fn rewritten(text: Seq<char>) -> Seq<char> {
    regex_replace(BOGUSCOIN_PATTERN@, text, TONY_ADDRESS@)
}

/// The address rewriter of one session.
pub struct Relay {
    pattern: Pattern,
}

impl Relay {
    /// The rewriter holds the Boguscoin pattern.
    pub closed spec fn wf(&self) -> bool {
        self.pattern@ == BOGUSCOIN_PATTERN@
    }

    /// Compiles the Boguscoin pattern.
    pub fn new() -> (r: Result<Relay, regex::Error>)
        ensures
            r is Ok <==> regex_compiles(BOGUSCOIN_PATTERN@),
            r matches Ok(relay) ==> relay.wf(),
    {
        match compile(BOGUSCOIN_PATTERN) {
            Ok(pattern) => Ok(Relay { pattern }),
            Err(e) => Err(e),
        }
    }

    /// Decides what to do with the bytes of one line read from either side.
    pub fn relay(&self, line: Vec<u8>) -> (r: RelayStep)
        requires
            self.wf(),
        ensures
            !valid_utf8(line@) ==> r is Close,
            valid_utf8(line@) && line@.len() == 0 ==> r is Close,
            valid_utf8(line@) && line@.len() > 0 ==> {
                &&& r matches RelayStep::Forward(out)
                &&& out@ == rewritten(decode_utf8(line@))
                &&& !regex_is_match(BOGUSCOIN_PATTERN@, decode_utf8(line@)) ==> out@ == decode_utf8(line@)
            },
    {
        let empty = line.len() == 0;
        match string_from_utf8(line) {
            None => RelayStep::Close,
            Some(msg) => {
                if empty {
                    return RelayStep::Close;
                }
                RelayStep::Forward(replace(&self.pattern, msg.as_str(), TONY_ADDRESS))
            },
        }
    }
}

} // verus!
