//! From a received payload to the command sent downstream.

use crate::text::{is_bare, lemma_bare_is_trimmed, lemma_trimmed_is_bare, trim, trimmed};
use vstd::prelude::*;
use vstd::string::{StrSliceExecFns, StringExecFns};

verus! {

/// The downstream control endpoint that executes forwarded commands.
pub const CONTROL_ENDPOINT: &'static str = "http://127.0.0.1:7125/printer/gcode/script";

/// The query parameter that carries the command.
pub const COMMAND_PARAMETER: &'static str = "script";

/// Whether a text that starts with `c` is a command as it stands.
pub open spec fn is_command_letter(c: char) -> bool {
    c == 'G' || c == 'g' || c == 'M' || c == 'm'
}

/// What is put before a payload that is not a command as it stands.
pub open spec fn motion_prefix() -> Seq<char> {
    seq!['G', '1', ' ']
}

/// The command for the payload `text`: the payload without surrounding
/// white space where that starts with a command letter, else the same
/// behind the motion prefix. Nothing where nothing is left of the payload.
pub open spec fn command_for(text: Seq<char>) -> Seq<char> {
    let body = trimmed(text);
    if body.len() == 0 {
        body
    } else if is_command_letter(body[0]) {
        body
    } else {
        motion_prefix() + body
    }
}

/// The command for the payload `text`; empty where there is nothing to send.
pub fn format_command(text: &str) -> (command: String)
    ensures
        command@ == command_for(text@),
{
    let body = trim(text);
    if body.as_str().unicode_len() == 0 {
        return body;
    }
    let first = body.as_str().get_char(0);
    if first == 'G' || first == 'g' || first == 'M' || first == 'm' {
        body
    } else {
        proof {
            reveal_strlit("G1 ");
        }
        let mut command = "G1 ".to_owned();
        command.append(body.as_str());
        assert("G1 "@ =~= motion_prefix());
        command
    }
}

/// A command, where there is one, starts with a command letter and
/// neither starts nor ends with white space; there is none exactly when
/// the payload holds nothing but white space.
pub proof fn lemma_command_shape(text: Seq<char>)
    ensures
        command_for(text).len() == 0 <==> trimmed(text).len() == 0,
        command_for(text).len() > 0 ==> is_command_letter(command_for(text)[0]),
        is_bare(command_for(text)),
{
    lemma_trimmed_is_bare(text);
    let body = trimmed(text);
    if body.len() > 0 && !is_command_letter(body[0]) {
        let command = motion_prefix() + body;
        assert(command[0] == 'G');
        assert(command.last() == body.last());
    }
}

/// A command is sent as it stands: making a command of a command gives
/// the same command.
pub proof fn lemma_command_is_stable(text: Seq<char>)
    ensures
        command_for(command_for(text)) == command_for(text),
{
    lemma_command_shape(text);
    lemma_bare_is_trimmed(command_for(text));
}

} // verus!
