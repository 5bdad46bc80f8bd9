//! The command runner's decision: an empty command list is a no-op success
//! and spawns nothing; a non-empty list names its executable first, then the
//! arguments.  The spawn itself is process I/O and stays with the caller.

use vstd::prelude::*;

verus! {

/// What running one command list amounts to.
#[derive(Debug)]
pub enum CommandPlan {
    /// The list is empty: trivial success, no process is spawned and no
    /// diagnostic line is emitted.
    Skip,
    /// Spawn `program` with `args`, inheriting the standard streams, and
    /// wait for its exit status.
    Spawn { program: String, args: Vec<String> },
}

/// Decide what a `before`/`after` command list asks for: nothing when it is
/// empty, otherwise its head as the program and its tail as the arguments.
pub fn plan_command(argv: &Vec<String>) -> (plan: CommandPlan)
    ensures
        argv@.len() == 0 <==> plan is Skip,
        plan matches CommandPlan::Spawn { program, args } ==> {
            &&& argv@.len() > 0
            &&& program@ == argv.deep_view()[0]
            &&& args.deep_view() == argv.deep_view().subrange(1, argv@.len() as int)
        },
{
    if argv.len() == 0 {
        CommandPlan::Skip
    } else {
        let program = argv[0].clone();
        let mut args: Vec<String> = Vec::new();
        let mut i: usize = 1;
        while i < argv.len()
            invariant
                1 <= i <= argv@.len(),
                args.deep_view() == argv.deep_view().subrange(1, i as int),
            decreases argv@.len() - i,
        {
            let x = argv[i].clone();
            let ghost pre_seq = args@;
            let ghost pre_deep = args.deep_view();
            args.push(x);
            proof {
                assert(args@ == pre_seq.push(x));
                assert(argv.deep_view().len() == argv@.len());
                assert(pre_deep.len() == pre_seq.len());
                assert(pre_seq.len() == i - 1);
                assert(args.deep_view().len() == args@.len());
                assert forall|j: int| 0 <= j < args.deep_view().len() implies args.deep_view()[j]
                    == argv.deep_view().subrange(1, i + 1)[j] by {
                    assert(argv.deep_view().subrange(1, i + 1)[j] == argv.deep_view()[1 + j]);
                    assert(args.deep_view()[j] == args@[j].deep_view());
                    if j < pre_seq.len() {
                        assert(args@[j] == pre_seq[j]);
                        assert(pre_deep[j] == pre_seq[j].deep_view());
                        assert(pre_deep[j] == argv.deep_view().subrange(1, i as int)[j]);
                    } else {
                        assert(args@[j] == x);
                        assert(x@ == argv@[i as int]@);
                        assert(argv.deep_view()[i as int] == argv@[i as int]@);
                    }
                }
                assert(args.deep_view() =~= argv.deep_view().subrange(1, i + 1));
            }
            i += 1;
        }
        proof {
            assert(args.deep_view() =~= argv.deep_view().subrange(1, argv@.len() as int));
        }
        CommandPlan::Spawn { program, args }
    }
}

} // verus!
