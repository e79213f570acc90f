//! Launch-command handling: wrapping a command for the configured
//! terminal program and splitting a resolved command line into the
//! program and its arguments.

use vstd::prelude::*;

use crate::text::{append_bytes, clone_bytes, seq_views, split_byte, split_spec};

verus! {

/// A command wrapped for the terminal: the terminal program, the
/// execute flag, and the real command in double quotes.
pub open spec fn wrap_terminal_spec(terminal: Seq<u8>, cmd: Seq<u8>) -> Seq<u8> {
    terminal + seq![' ' as u8, '-' as u8, 'e' as u8, ' ' as u8, '"' as u8] + cmd + seq!['"' as u8]
}

/// Builds the terminal-wrapped form of a command.
pub fn wrap_terminal(terminal: &Vec<u8>, cmd: &Vec<u8>) -> (r: Vec<u8>)
    ensures
        r@ == wrap_terminal_spec(terminal@, cmd@),
{
    let mut r = clone_bytes(terminal);
    r.push(' ' as u8);
    r.push('-' as u8);
    r.push('e' as u8);
    r.push(' ' as u8);
    r.push('"' as u8);
    append_bytes(&mut r, cmd);
    r.push('"' as u8);
    proof {
        assert(r@ =~= wrap_terminal_spec(terminal@, cmd@));
    }
    r
}

/// Splits a command line on single spaces, keeping empty parts.
pub fn split_command(cmd: &Vec<u8>) -> (parts: Vec<Vec<u8>>)
    ensures
        seq_views(parts@) == split_spec(cmd@, ' ' as u8),
{
    split_byte(cmd, ' ' as u8)
}

/// What launching a command performs: nothing for an empty command,
/// otherwise the space-split program and argument list, spawned
/// detached by the caller.
pub fn launch_parts(cmd: &Vec<u8>) -> (r: Option<(Vec<u8>, Vec<Vec<u8>>)>)
    ensures
        match r {
            None => cmd@.len() == 0,
            Some(pair) => {
                let parts = split_spec(cmd@, ' ' as u8);
                &&& cmd@.len() > 0
                &&& parts.len() > 0
                &&& pair.0@ == parts[0]
                &&& seq_views(pair.1@) == parts.drop_first()
            },
        },
{
    if cmd.len() == 0 {
        return None;
    }
    let mut parts = split_byte(cmd, ' ' as u8);
    let ghost all = seq_views(parts@);
    assert(all.len() > 0);
    let prog = parts.remove(0);
    proof {
        assert(prog@ == all[0]);
        assert(seq_views(parts@) =~= all.drop_first());
    }
    Some((prog, parts))
}

} // verus!
