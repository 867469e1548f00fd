//! Argument handling: classify one invocation of the benchmark, and the two
//! fixed lines it can print.

use vstd::prelude::*;

verus! {

use crate::numerals::is_numeric_token;
use crate::numerals::parse_u64;
use crate::numerals::token_value;

/// What one invocation of the program should do. The argument list is taken
/// positionally: index 0 is the program name, and a well-formed run looks
/// like `--timeout <sec> --mp <n-cores>` (the flag tokens are placeholders,
/// only the count and the numeric positions matter).
pub enum Invocation {
    /// Print the usage line and do nothing else.
    Usage,
    /// Run the benchmark with these parameters.
    Run { timeout_secs: u64, workers: u64 },
    /// A numeric argument is malformed: terminate abnormally.
    Malformed,
}

/// The bytes of the help flag, "--help".
pub open spec fn help_token() -> Seq<u8> {
    seq![45u8, 45u8, 104u8, 101u8, 108u8, 112u8]
}

/// The invocation only asks for the usage line: wrong argument count, or
/// the help flag as the first argument.
pub open spec fn wants_usage(args: Seq<Seq<u8>>) -> bool {
    args.len() != 5 || args[1] == help_token()
}

/// The token is a numeral whose value fits in a u64.
pub open spec fn good_token(s: Seq<u8>) -> bool {
    is_numeric_token(s) && token_value(s) <= u64::MAX
}

/// The plan for a given argument list: usage when asked for (and then no
/// work at all), a run with the two extracted numbers when both numeric
/// tokens parse, and a failure otherwise.
pub open spec fn plan_of(args: Seq<Seq<u8>>) -> Invocation {
    if wants_usage(args) {
        Invocation::Usage
    } else if good_token(args[2]) && good_token(args[4]) {
        Invocation::Run {
            timeout_secs: token_value(args[2]) as u64,
            workers: token_value(args[4]) as u64,
        }
    } else {
        Invocation::Malformed
    }
}

/// The argument is exactly the help flag.
fn is_help(v: &Vec<u8>) -> (r: bool)
    ensures
        r == (v@ == help_token()),
{
    if v.len() != 6 {
        return false;
    }
    let r = v[0] == 45 && v[1] == 45 && v[2] == 104 && v[3] == 101 && v[4] == 108 && v[5] == 112;
    proof {
        if r {
            assert(v@ =~= help_token());
        } else {
            if v@ == help_token() {
                assert(v@[0] == 45 && v@[1] == 45 && v@[2] == 104 && v@[3] == 101 && v@[4] == 108
                    && v@[5] == 112);
            }
        }
    }
    r
}

/// Classify the argument list, each argument given as its bytes.
pub fn plan_invocation(args: &Vec<Vec<u8>>) -> (r: Invocation)
    ensures
        r == plan_of(args.deep_view()),
{
    proof {
        assert forall|k: int| 0 <= k < args@.len() implies #[trigger] args.deep_view()[k]
            == args@[k]@ by {
            assert(args@[k].deep_view() =~= args@[k]@);
        }
    }
    if args.len() != 5 || is_help(&args[1]) {
        return Invocation::Usage;
    }
    let timeout = parse_u64(&args[2]);
    let workers = parse_u64(&args[4]);
    match (timeout, workers) {
        (Some(timeout_secs), Some(workers)) => Invocation::Run { timeout_secs, workers },
        _ => Invocation::Malformed,
    }
}

/// The usage line, printed verbatim on a usage invocation.
pub fn usage_line() -> (r: &'static str)
    ensures
        r@ == "usage: bench-rust --timeout <sec> --mp <n-cores>"@,
{
    "usage: bench-rust --timeout <sec> --mp <n-cores>"
}

/// The prefix of the one report line a normal run prints; the counter value
/// follows it.
pub fn report_prefix() -> (r: &'static str)
    ensures
        r@ == "-- Operations performed: "@,
{
    "-- Operations performed: "
}

} // verus!
