//! How git calls and the steps around them are announced.
use vstd::prelude::*;
use crate::text::{chars_of, concat, join, join_chars, string_of, string_views, views};

verus! {

/// The command line echoed before a git call: `git`, a space, and the arguments
/// separated by single spaces.
pub open spec fn command_line(args: Seq<Seq<char>>) -> Seq<char> {
    "git "@ + join(args, " "@)
}

/// The echoed command line of the git call with `args`.
pub fn git_command_line(args: &Vec<String>) -> (r: String)
    ensures
        r@ == command_line(string_views(args@)),
{
    let mut parts: Vec<Vec<char>> = Vec::new();
    let n = args.len();
    for i in 0..n
        invariant
            n == args@.len(),
            views(parts@) == string_views(args@).take(i as int),
    {
        let ghost before = parts@;
        parts.push(chars_of(args[i].as_str()));
        assert(views(parts@) == views(before).push(args@[i as int]@));
        assert(string_views(args@).take(i + 1) == string_views(args@).take(i as int).push(
            args@[i as int]@,
        ));
    }
    assert(string_views(args@).take(n as int) == string_views(args@));
    let sep = chars_of(" ");
    let joined = join_chars(&parts, sep.as_slice());
    let head = chars_of("git ");
    string_of(concat(head.as_slice(), joined.as_slice()).as_slice())
}

/// The header that opens a step of a command: `==> ` and the step's title.
pub fn step_header(title: &str) -> (r: String)
    ensures
        r@ == "==> "@ + title@,
{
    let head = chars_of("==> ");
    string_of(concat(head.as_slice(), chars_of(title).as_slice()).as_slice())
}

} // verus!
