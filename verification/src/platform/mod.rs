//! Interface setup plans: the commands each platform runs to configure and
//! clean up the TUN interface.

pub mod linux;
pub mod macos;

use crate::text::{join_with, push_str, trim, trim_chars};
use vstd::prelude::*;

verus! {

/// A command to run: program and arguments.
#[derive(Clone, Debug, PartialEq, Eq)]
pub struct PlannedCommand {
    pub program: String,
    pub args: Vec<String>,
}

/// `c` runs `program` with exactly `args`.
pub open spec fn command_is(c: PlannedCommand, program: Seq<char>, args: Seq<Seq<char>>) -> bool {
    &&& c.program@ == program
    &&& c.args@.len() == args.len()
    &&& forall|i: int| 0 <= i < args.len() ==> #[trigger] c.args@[i]@ == args[i]
}

/// A planned command from a program and an argument list.
pub fn planned(program: &str, args: Vec<String>) -> (out: PlannedCommand)
    ensures
        out.program@ == program@,
        out.args == args,
{
    PlannedCommand { program: crate::text::owned(program), args }
}

/// The arguments of a command, as text.
pub open spec fn arg_texts(args: Seq<String>) -> Seq<Seq<char>> {
    args.map_values(|a: String| a@)
}

/// The command line: the program, a space, and the arguments joined by spaces.
pub open spec fn command_line(c: PlannedCommand) -> Seq<char> {
    c.program@ + " "@ + join_with(arg_texts(c.args@), " "@)
}

/// The detail reported when a command exits unsuccessfully: the command line
/// and `failed`, then the trimmed standard error where it is not blank.
pub open spec fn command_failure_text(c: PlannedCommand, stderr: Seq<char>) -> Seq<char> {
    command_line(c) + " failed"@ + if trim(stderr).len() == 0 {
        Seq::empty()
    } else {
        ": "@ + trim(stderr)
    }
}

/// The error detail for a command that exited unsuccessfully.
pub fn command_failure(command: &PlannedCommand, stderr: &str) -> (out: String)
    ensures
        out@ == command_failure_text(*command, stderr@),
{
    let ghost parts = arg_texts(command.args@);
    let mut out = crate::text::owned(command.program.as_str());
    push_str(&mut out, " ");
    let ghost head = out@;
    let mut i: usize = 0;
    proof {
        assert(parts.take(0) =~= Seq::<Seq<char>>::empty());
    }
    while i < command.args.len()
        invariant
            i <= command.args@.len(),
            parts == arg_texts(command.args@),
            head == command.program@ + " "@,
            out@ == head + join_with(parts.take(i as int), " "@),
        decreases command.args.len() - i,
    {
        proof {
            assert(parts.take(i + 1).drop_last() =~= parts.take(i as int));
            assert(parts.take(i + 1).last() == command.args@[i as int]@);
        }
        if i > 0 {
            push_str(&mut out, " ");
        }
        push_str(&mut out, command.args[i].as_str());
        proof {
            if i == 0 {
                assert(parts.take(1).len() == 1);
                assert(join_with(parts.take(1), " "@) == parts.take(1)[0]);
            }
        }
        i = i + 1;
    }
    proof {
        assert(parts.take(parts.len() as int) =~= parts);
    }
    push_str(&mut out, " failed");
    let trimmed = trim_chars(stderr);
    if trimmed.len() > 0 {
        push_str(&mut out, ": ");
        let t = crate::text::string_from_chars(trimmed.as_slice());
        push_str(&mut out, t.as_str());
    }
    out
}

} // verus!
