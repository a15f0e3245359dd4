//! The command line as Cargo hands it to a subcommand.
use vstd::prelude::*;

use crate::text::str_eq;

verus! {

/// The arguments the analysis parses: run as `cargo crap4rust ...`, Cargo
/// passes the subcommand's name as the first argument, which is dropped;
/// run directly, the arguments are kept as they are.
pub open spec fn forwarded_args(args: Seq<String>) -> Seq<String> {
    if args.len() > 1 && args[1]@ == "crap4rust"@ {
        seq![args[0]] + args.skip(2)
    } else {
        args
    }
}

/// The arguments the analysis parses, from the process's arguments.
pub fn forward_subcommand_args(args: Vec<String>) -> (forwarded: Vec<String>)
    ensures
        forwarded@ == forwarded_args(args@),
{
    if args.len() > 1 && str_eq(args[1].as_str(), "crap4rust") {
        let mut forwarded: Vec<String> = Vec::new();
        forwarded.push(args[0].clone());
        let mut i: usize = 2;
        while i < args.len()
            invariant
                2 <= i <= args@.len(),
                forwarded@ == seq![args@[0]] + args@.subrange(2, i as int),
            decreases args@.len() - i,
        {
            forwarded.push(args[i].clone());
            assert(args@.subrange(2, i + 1) =~= args@.subrange(2, i as int).push(args@[i as int]));
            i += 1;
        }
        assert(args@.subrange(2, args@.len() as int) =~= args@.skip(2));
        forwarded
    } else {
        args
    }
}

} // verus!
