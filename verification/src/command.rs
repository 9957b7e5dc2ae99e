//! Command lines: which program to run, and with which arguments.

use crate::text;
use vstd::prelude::*;

verus! {

/// A program to run and its arguments.
#[derive(Debug, Clone)]
pub struct CommandLine {
    pub program: String,
    pub args: Vec<String>,
}

/// What a [`CommandLine`] holds.
#[verifier::ext_equal]
pub struct Line {
    pub program: Seq<char>,
    pub args: Seq<Seq<char>>,
}

impl View for CommandLine {
    type V = Line;

    open spec fn view(&self) -> Line {
        Line { program: self.program@, args: text::texts(self.args@) }
    }
}

/// What command lines hold, one after another.
pub open spec fn lines(v: Seq<CommandLine>) -> Seq<Line> {
    v.map_values(|c: CommandLine| c@)
}

/// The command line `program` with `args`.
pub fn command(program: &str, args: &[&str]) -> (r: CommandLine)
    ensures
        r@ == (Line { program: program@, args: text::strs(args@) }),
{
    CommandLine { program: program.to_string(), args: text::owned(args) }
}

/// The call of a method on the user's message bus.
pub open spec fn bus_call(
    service: Seq<char>,
    path: Seq<char>,
    interface: Seq<char>,
    method: Seq<char>,
    extra: Seq<Seq<char>>,
) -> Line {
    Line {
        program: "busctl"@,
        args: seq!["--user"@, "call"@, service, path, interface, method] + extra,
    }
}

/// Calls a method on the user's message bus.
pub fn call_on_bus(service: &str, path: &str, interface: &str, method: &str, extra: &[&str]) -> (r:
    CommandLine)
    ensures
        r@ == bus_call(service@, path@, interface@, method@, text::strs(extra@)),
{
    let mut args: Vec<String> = text::owned(&["--user", "call", service, path, interface, method]);
    let mut more: Vec<String> = text::owned(extra);
    let ghost a = args@;
    let ghost b = more@;
    args.append(&mut more);
    proof {
        assert(text::texts(args@) =~= text::texts(a) + text::texts(b));
        assert(text::texts(a) =~= seq!["--user"@, "call"@, service@, path@, interface@, method@]);
    }
    CommandLine { program: "busctl".to_string(), args }
}

/// A call on the bus names the service, the object, the interface and the method, in this order, and then
/// what goes with it.
pub proof fn calls_name_what_is_called(
    service: Seq<char>,
    path: Seq<char>,
    interface: Seq<char>,
    method: Seq<char>,
    extra: Seq<Seq<char>>,
)
    ensures
        ({
            let args = bus_call(service, path, interface, method, extra).args;
            &&& args.len() == extra.len() + 6
            &&& extra.is_suffix_of(args)
            &&& args[2] == service && args[3] == path && args[4] == interface && args[5] == method
        }),
{
}

} // verus!
