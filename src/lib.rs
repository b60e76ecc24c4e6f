//! A robots.txt parser and matcher: decides whether a crawler may fetch a URL,
//! and reports the crawl delay, request rate and Content-Signal that apply.
use vstd::prelude::*;
use vstd::string::StringSliceAdditionalSpecFns;

pub mod directive;
pub mod escape;
pub mod groups;
pub mod laws;
pub mod matcher;
pub mod pattern;
pub mod records;
pub mod values;

pub use matcher::{evaluate, MatchOutcome, RobotsMatcher};
pub use values::{ContentSignal, RequestRate};

verus! {

/// A user-agent token that a crawler may use: letters, digits, `-` and `_`, at least one.
pub open spec fn valid_agent(s: Seq<u8>) -> bool {
    s.len() > 0 && forall|i: int| 0 <= i < s.len() ==> groups::is_agent_char(#[trigger] s[i])
}

/// The library's version.
pub fn version() -> (r: String)
    ensures
        r@ == "1.0.0"@,
{
    "1.0.0".to_owned()
}

/// Whether `user_agent` holds only letters, digits, `-` and `_`, and is not empty.
pub fn is_valid_user_agent(user_agent: &str) -> (r: bool)
    ensures
        r == valid_agent(user_agent.spec_bytes()),
{
    let b = user_agent.as_bytes();
    if b.len() == 0 {
        return false;
    }
    let mut i: usize = 0;
    while i < b.len()
        invariant
            i <= b@.len(),
            b@ == user_agent.spec_bytes(),
            forall|k: int| 0 <= k < i ==> groups::is_agent_char(#[trigger] b@[k]),
        decreases b@.len() - i,
    {
        let c = b[i];
        if !((65 <= c && c <= 90) || (97 <= c && c <= 122) || (48 <= c && c <= 57) || c == 45
            || c == 95) {
            return false;
        }
        i = i + 1;
    }
    true
}

/// Whether Content-Signal directives are read: they always are.
pub fn content_signal_supported() -> (r: bool)
    ensures
        r,
{
    true
}

} // verus!
