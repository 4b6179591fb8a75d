//! The automation script that asks the messaging application to send one
//! message, with the message embedded as a quoted string literal.
use vstd::prelude::*;
use vstd::string::StringExecFns;
use crate::text::{chars_of, push_all, string_from_chars};

verus! {

/// The script up to the service type.
pub const SCRIPT_HEAD: &'static str =
    "\n        tell application \"Messages\"\n            activate\n            set targetService to 1st service whose service type = ";

/// Between the service type and the number.
pub const SCRIPT_BUDDY: &'static str = "\n            set targetBuddy to buddy \"";

/// Between the number and the message.
pub const SCRIPT_SEND: &'static str = "\" of targetService\n            send \"";

/// After the message.
pub const SCRIPT_TAIL: &'static str = "\" to targetBuddy\n        end tell\n        ";

/// How one character is written inside a quoted script string.
pub open spec fn escape_char(c: char) -> Seq<char> {
    if c == '\\' {
        seq!['\\', '\\']
    } else if c == '"' {
        seq!['\\', '"']
    } else if c == '\n' {
        seq!['\\', 'n']
    } else {
        seq![c]
    }
}

/// `s` with backslashes, double quotes and newlines escaped.
pub open spec fn escaped(s: Seq<char>) -> Seq<char>
    decreases s.len(),
{
    if s.len() == 0 {
        Seq::empty()
    } else {
        escaped(s.drop_last()) + escape_char(s.last())
    }
}

/// The script that sends `message` to `number` over `service`.
pub open spec fn script_text(message: Seq<char>, number: Seq<char>, service: Seq<char>) -> Seq<
    char,
> {
    SCRIPT_HEAD@ + service + SCRIPT_BUDDY@ + number + SCRIPT_SEND@ + escaped(message)
        + SCRIPT_TAIL@
}

/// Escapes backslashes, double quotes and newlines so that the text can
/// stand inside a quoted script string.
pub fn escape_applescript_string(message: &str) -> (r: String)
    ensures
        r@ == escaped(message@),
{
    let cs = chars_of(message);
    let mut out: Vec<char> = Vec::new();
    let mut i: usize = 0;
    while i < cs.len()
        invariant
            i <= cs@.len(),
            cs@ == message@,
            out@ == escaped(cs@.subrange(0, i as int)),
        decreases cs@.len() - i,
    {
        let c = cs[i];
        assert(cs@.subrange(0, i + 1).drop_last() =~= cs@.subrange(0, i as int));
        if c == '\\' {
            out.push('\\');
            out.push('\\');
        } else if c == '"' {
            out.push('\\');
            out.push('"');
        } else if c == '\n' {
            out.push('\\');
            out.push('n');
        } else {
            out.push(c);
        }
        assert(out@ =~= escaped(cs@.subrange(0, i + 1)));
        i = i + 1;
    }
    assert(cs@.subrange(0, cs@.len() as int) =~= cs@);
    string_from_chars(&out)
}

/// The script that makes the messaging application send `message` to
/// `number` over the service of type `service`.
pub fn automation_script(message: &str, number: &str, service: &str) -> (r: String)
    ensures
        r@ == script_text(message@, number@, service@),
{
    let body = escape_applescript_string(message);
    let mut s = String::from_str(SCRIPT_HEAD);
    s.append(service);
    s.append(SCRIPT_BUDDY);
    s.append(number);
    s.append(SCRIPT_SEND);
    s.append(body.as_str());
    s.append(SCRIPT_TAIL);
    s
}

} // verus!
