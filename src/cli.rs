//! The command line: `<program> <FILE> [-v]`.
use vstd::prelude::*;

verus! {

/// What the command line asks for.
pub struct Opts {
    pub file: String,
    /// `-v` was given; reserved for verbose diagnostics.
    pub verbose: bool,
}

/// Index of the first argument equal to `flag`.
pub open spec fn first_index(args: Seq<Seq<char>>, flag: Seq<char>) -> Option<int>
    decreases args.len(),
{
    if args.len() == 0 {
        None
    } else {
        match first_index(args.drop_last(), flag) {
            Some(i) => Some(i),
            None => if args.last() == flag {
                Some(args.len() - 1)
            } else {
                None
            },
        }
    }
}

/// The arguments with the first `-v` taken out.
pub open spec fn without_flag(args: Seq<Seq<char>>) -> Seq<Seq<char>> {
    match first_index(args, "-v"@) {
        Some(i) => args.remove(i),
        None => args,
    }
}

pub open spec fn arg_views(args: Seq<String>) -> Seq<Seq<char>> {
    args.map_values(|a: String| a@)
}

/// Reads the options from the program's arguments, the program name first.
/// The first `-v` sets `verbose`; of the other arguments the second is the
/// file. `None` where no file is given.
pub fn opts(args: Vec<String>) -> (r: Option<Opts>)
    ensures
        ({
            let rest = without_flag(arg_views(args@));
            match r {
                Some(o) => rest.len() >= 2 && o.file@ == rest[1] && o.verbose == (first_index(
                    arg_views(args@),
                    "-v"@,
                ) is Some),
                None => rest.len() < 2,
            }
        }),
{
    let mut args = args;
    let ghost all = arg_views(args@);
    let flag = String::from_str("-v");
    let mut i: usize = 0;
    assert(all.subrange(0, 0) =~= Seq::<Seq<char>>::empty());
    while i < args.len()
        invariant_except_break
            first_index(all.subrange(0, i as int), "-v"@) is None,
        invariant
            i <= args@.len(),
            flag@ == "-v"@,
            all == arg_views(args@),
            first_index(all.subrange(0, i as int), "-v"@) is None,
        ensures
            i < args@.len() ==> first_index(all, "-v"@) == Some(i as int),
            i >= args@.len() ==> first_index(all.subrange(0, i as int), "-v"@) is None,
            i <= args@.len(),
            all == arg_views(args@),
        decreases args@.len() - i,
    {
        assert(all.subrange(0, i + 1).drop_last() =~= all.subrange(0, i as int));
        assert(all.subrange(0, i + 1).last() == all[i as int]);
        assert(all[i as int] == args@[i as int]@);
        if args[i] == flag {
            proof {
                lemma_first_index_prefix(all, i as int);
            }
            break;
        }
        i = i + 1;
    }
    let verbose = i < args.len();
    if verbose {
        args.remove(i);
        assert(arg_views(args@) =~= all.remove(i as int));
    } else {
        assert(all.subrange(0, i as int) =~= all);
    }
    if args.len() < 2 {
        return None;
    }
    let file = args.remove(1);
    Some(Opts { file, verbose })
}

/// A match found in a prefix is the first match of the whole sequence.
proof fn lemma_first_index_prefix(args: Seq<Seq<char>>, i: int)
    requires
        0 <= i < args.len(),
        first_index(args.subrange(0, i), "-v"@) is None,
        args[i] == "-v"@,
    ensures
        first_index(args, "-v"@) == Some(i),
    decreases args.len() - i,
{
    if i + 1 < args.len() {
        assert(args.drop_last().subrange(0, i) =~= args.subrange(0, i));
        lemma_first_index_prefix(args.drop_last(), i);
    } else {
        assert(args.drop_last() =~= args.subrange(0, i));
    }
}

} // verus!
