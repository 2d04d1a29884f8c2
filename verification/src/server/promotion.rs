//! Promotes a replica to primary: what its answer means.

use vstd::prelude::*;
use vstd::string::StringExecFns;

use crate::text::{chars_of, same_text, string_of, trim, trimmed};

verus! {

/// What a replica answered to a promotion.
#[derive(Debug)]
pub enum Promotion {
    /// The replica is primary.
    Promoted,
    /// The replica refused, with these words.
    Refused(String),
    /// The connection ended without an answer.
    Unanswered,
}

/// Reads the line that a replica answered.
pub fn promotion_answer(line: &str) -> (p: Promotion)
    ensures
        match p {
            Promotion::Unanswered => line@.len() == 0,
            Promotion::Promoted => line@.len() > 0 && trim(line@) == "OK"@,
            Promotion::Refused(words) => {
                &&& line@.len() > 0
                &&& trim(line@) != "OK"@
                &&& words@ == trim(line@)
            },
        },
{
    let chars: Vec<char> = chars_of(line);
    if chars.len() == 0 {
        return Promotion::Unanswered;
    }
    let words: Vec<char> = trimmed(&chars);
    if same_text(&words, &chars_of("OK")) {
        Promotion::Promoted
    } else {
        Promotion::Refused(string_of(&words))
    }
}

impl Promotion {
    /// What to tell the operator.
    pub fn message(&self) -> (s: String)
        ensures
            s@ == (match *self {
                Promotion::Promoted => "Promotion successful — replica is now primary."@,
                Promotion::Refused(words) => "Promotion failed: "@ + words@,
                Promotion::Unanswered => "error: server closed connection without response"@,
            }),
    {
        match self {
            Promotion::Promoted => "Promotion successful — replica is now primary.".to_owned(),
            Promotion::Refused(words) => {
                let mut s: String = "Promotion failed: ".to_owned();
                s.append(words.as_str());
                s
            },
            Promotion::Unanswered => "error: server closed connection without response".to_owned(),
        }
    }

    /// The exit code of the tool.
    pub fn exit_code(&self) -> (code: i32)
        ensures
            code == (if *self is Promoted {
                0i32
            } else {
                1
            }),
    {
        match self {
            Promotion::Promoted => 0,
            _ => 1,
        }
    }
}

/// A replica is promoted if it answers OK and nothing else but space around
/// it; a replica that does not answer is not, nor one that answers anything
/// else. Only a promotion leaves the tool without an error.
pub proof fn law_only_ok_promotes(line: &str, p: Promotion, code: i32)
    requires
        call_ensures(promotion_answer, (line,), p),
        call_ensures(Promotion::exit_code, (&p,), code),
    ensures
        line@.len() == 0 <==> p is Unanswered,
        p is Promoted ==> trim(line@) == seq!['O', 'K'],
        line@.len() > 0 && trim(line@) == seq!['O', 'K'] ==> p is Promoted,
        p matches Promotion::Refused(words) ==> words@ == trim(line@),
        code == 0 <==> p is Promoted,
        code == 1 <==> p !is Promoted,
{
    reveal_strlit("OK");
    assert("OK"@ =~= seq!['O', 'K']);
}

} // verus!
