//! Commands of terminal multiplexers: what they are called with, and what they
//! print.

use vstd::prelude::*;
use vstd::string::StringExecFns;

use crate::pieces::{trim, trimmed};
use crate::text::{lossy_text, utf8_lossy, views};

verus! {

/// A list of arguments with one more, that is copied.
pub fn push_arg(args: &mut Vec<String>, arg: &str)
    ensures
        views(final(args)@) == views(old(args)@).push(arg@),
{
    let ghost before = views(args@);
    args.push(arg.to_owned());
    assert(views(args@) =~= before.push(arg@));
}

/// A list of arguments from a slice.
#[verifier::loop_isolation(false)]
pub fn args_of(list: &[&str]) -> (r: Vec<String>)
    ensures
        views(r@) == list@.map_values(|s: &str| s@),
{
    let mut out: Vec<String> = Vec::new();
    let mut i: usize = 0;
    while i < list.len()
        invariant
            i <= list@.len(),
            out@.len() == i,
            forall|k: int| 0 <= k < i ==> (#[trigger] out@[k])@ == list@[k]@,
        decreases list@.len() - i,
    {
        out.push(list[i].to_owned());
        i = i + 1;
    }
    assert(views(out@) =~= list@.map_values(|s: &str| s@));
    out
}

/// What a command printed.
pub fn shown(stdout: &[u8]) -> (r: String)
    ensures
        r@ == utf8_lossy(stdout@),
{
    lossy_text(stdout)
}

/// What a command printed, without white space around it.
pub fn printed(stdout: &[u8]) -> (r: String)
    ensures
        r@ == trim(utf8_lossy(stdout@)),
{
    trimmed(shown(stdout).as_str())
}

/// What is said of a command that failed: its name, and what it printed as its
/// error.
pub open spec fn failure_text(what: Seq<char>, stderr: Seq<char>) -> Seq<char> {
    what + " failed: "@ + trim(stderr)
}

/// What is said of a command that failed.
pub fn failure(what: &str, stderr: &[u8]) -> (r: String)
    ensures
        r@ == failure_text(what@, utf8_lossy(stderr@)),
{
    what.to_owned().concat(" failed: ").concat(printed(stderr).as_str())
}

/// What is said of a failed call of `program` with the given arguments: the
/// first of them names what was asked.
pub fn call_failure(program: &str, args: &Vec<String>, stderr: &[u8]) -> (r: String)
    ensures
        r@ == failure_text(
            program@ + " "@ + (if args@.len() > 0 {
                args@[0]@
            } else {
                ""@
            }),
            utf8_lossy(stderr@),
        ),
{
    let first = if args.len() > 0 {
        args[0].clone()
    } else {
        "".to_owned()
    };
    failure(program.to_owned().concat(" ").concat(first.as_str()).as_str(), stderr)
}

/// What is said of a command that failed names it, and gives what it printed as
/// its error without the white space around that.
pub proof fn failures_tell_their_error(what: Seq<char>, stderr: Seq<char>)
    ensures
        failure_text(what, stderr) == what + " failed: "@ + trim(stderr),
{
}

} // verus!
