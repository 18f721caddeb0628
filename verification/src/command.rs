//! The textual command protocol: a command word and, for some commands, one
//! argument, set apart by white space.

use crate::decimal::{decimal_raw, format_plain, is_decimal, parse_decimal, plain_text};
use crate::parameter::{Parameter, ParameterModel};
use vstd::prelude::*;
use vstd::slice::slice_subrange;
use vstd::string::*;

verus! {

/// What a line of text asks for.
#[derive(Clone, Copy, Debug, PartialEq, Eq, Structural)]
pub enum TextCommand {
    /// Report the threshold.
    GetThreshold,
    /// Set the threshold to this physical value.
    SetThreshold(i64),
    /// Nothing: the line is no command, or its argument is no number.
    Ignored,
}

/// Whether `b` is ASCII white space.
pub open spec fn is_space(b: u8) -> bool {
    b == 32 || (9 <= b <= 13)
}

/// Index of the first byte at or after `from` that is no white space, or the
/// length of `s`.
pub open spec fn skip_spaces(s: Seq<u8>, from: int) -> int
    decreases s.len() - from,
{
    if 0 <= from < s.len() && is_space(s[from]) {
        skip_spaces(s, from + 1)
    } else {
        from
    }
}

/// Index of the first white space at or after `from`, or the length of `s`.
pub open spec fn word_end(s: Seq<u8>, from: int) -> int
    decreases s.len() - from,
{
    if 0 <= from < s.len() && !is_space(s[from]) {
        word_end(s, from + 1)
    } else {
        from
    }
}

/// The first word of `s`; empty if there is none.
pub open spec fn first_word(s: Seq<u8>) -> Seq<u8> {
    let start = skip_spaces(s, 0);
    s.subrange(start, word_end(s, start))
}

/// The second word of `s`; empty if there is none.
pub open spec fn second_word(s: Seq<u8>) -> Seq<u8> {
    let start = skip_spaces(s, word_end(s, skip_spaces(s, 0)));
    s.subrange(start, word_end(s, start))
}

/// The command that the bytes `s` spell. Words after those that the command
/// takes are not looked at.
pub open spec fn text_command(s: Seq<u8>) -> TextCommand {
    if first_word(s) == "getThreshold".spec_bytes() {
        TextCommand::GetThreshold
    } else if first_word(s) == "setThreshold".spec_bytes() && is_decimal(second_word(s)) {
        TextCommand::SetThreshold(decimal_raw(second_word(s)) as i64)
    } else {
        TextCommand::Ignored
    }
}

fn skip_spaces_in(s: &[u8], from: usize) -> (at: usize)
    requires
        from <= s@.len(),
    ensures
        at == skip_spaces(s@, from as int),
        from <= at <= s@.len(),
{
    let mut at = from;
    while at < s.len() && (s[at] == 32 || (9 <= s[at] && s[at] <= 13))
        invariant
            from <= at <= s@.len(),
            skip_spaces(s@, at as int) == skip_spaces(s@, from as int),
        decreases s@.len() - at,
    {
        at = at + 1;
    }
    at
}

fn word_end_in(s: &[u8], from: usize) -> (at: usize)
    requires
        from <= s@.len(),
    ensures
        at == word_end(s@, from as int),
        from <= at <= s@.len(),
{
    let mut at = from;
    while at < s.len() && !(s[at] == 32 || (9 <= s[at] && s[at] <= 13))
        invariant
            from <= at <= s@.len(),
            word_end(s@, at as int) == word_end(s@, from as int),
        decreases s@.len() - at,
    {
        at = at + 1;
    }
    at
}

fn same_bytes(a: &[u8], b: &[u8]) -> (same: bool)
    ensures
        same == (a@ == b@),
{
    if a.len() != b.len() {
        return false;
    }
    let mut i: usize = 0;
    while i < a.len()
        invariant
            i <= a@.len(),
            a@.len() == b@.len(),
            forall|k: int| 0 <= k < i ==> a@[k] == b@[k],
        decreases a@.len() - i,
    {
        if a[i] != b[i] {
            return false;
        }
        i = i + 1;
    }
    assert(a@ =~= b@);
    true
}

/// Reads a line of text as a command.
pub fn parse_command(message: &str) -> (command: TextCommand)
    ensures
        command == text_command(message.spec_bytes()),
{
    let s = message.as_bytes();
    let a = skip_spaces_in(s, 0);
    let b = word_end_in(s, a);
    let c = skip_spaces_in(s, b);
    let d = word_end_in(s, c);
    let word = slice_subrange(s, a, b);
    if same_bytes(word, "getThreshold".as_bytes()) {
        TextCommand::GetThreshold
    } else if same_bytes(word, "setThreshold".as_bytes()) {
        match parse_decimal(slice_subrange(s, c, d)) {
            Some(value) => TextCommand::SetThreshold(value),
            None => TextCommand::Ignored,
        }
    } else {
        TextCommand::Ignored
    }
}

/// The reply to a command, given the threshold's target at the time.
pub open spec fn reply_text(command: TextCommand, target: int) -> Seq<char> {
    match command {
        TextCommand::GetThreshold => plain_text(target),
        _ => Seq::empty(),
    }
}

/// The threshold after a command.
pub open spec fn threshold_after(command: TextCommand, before: ParameterModel) -> ParameterModel {
    match command {
        TextCommand::SetThreshold(value) => before.with_target(value as int),
        _ => before,
    }
}

/// Carries out a command on the threshold and returns the reply.
/// `GetThreshold` changes nothing and replies with the target in decimal;
/// `SetThreshold` requests its value as any other change of target would and
/// replies with nothing; `Ignored` changes nothing and replies with nothing.
pub fn run_command(command: TextCommand, threshold: &mut Parameter) -> (reply: String)
    ensures
        reply@ == reply_text(command, old(threshold)@.ramp.target),
        final(threshold)@ == threshold_after(command, old(threshold)@),
{
    match command {
        TextCommand::GetThreshold => format_plain(threshold.target_value()),
        TextCommand::SetThreshold(value) => {
            threshold.set_target(value);
            String::new()
        },
        TextCommand::Ignored => String::new(),
    }
}

/// Reads a line of text as a command, carries it out on the threshold and
/// returns the reply. A line that is no command, or whose argument is no
/// number, changes nothing and gets an empty reply.
pub fn handle_text(message: &str, threshold: &mut Parameter) -> (reply: String)
    ensures
        reply@ == reply_text(text_command(message.spec_bytes()), old(threshold)@.ramp.target),
        final(threshold)@ == threshold_after(
            text_command(message.spec_bytes()),
            old(threshold)@,
        ),
{
    let command = parse_command(message);
    run_command(command, threshold)
}

} // verus!
