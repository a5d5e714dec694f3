//! What the host shell forwards to the front end at startup.

use vstd::prelude::*;

verus! {

/// The command-line arguments that name files to open: all of them but the
/// first, which names the program itself.
pub open spec fn forwarded(args: Seq<Seq<char>>) -> Seq<Seq<char>> {
    if args.len() == 0 {
        args
    } else {
        args.subrange(1, args.len() as int)
    }
}

/// Picks the file paths out of the command line, in order.
pub fn forwarded_paths(args: &Vec<String>) -> (paths: Vec<String>)
    ensures
        paths.deep_view() == forwarded(args.deep_view()),
{
    let mut paths: Vec<String> = Vec::new();
    let mut i: usize = 1;
    while i < args.len()
        invariant
            i == 1 || 1 < i <= args@.len(),
            paths@.len() == i - 1,
            forall|k: int| 0 <= k < paths@.len() ==> (#[trigger] paths@[k])@ == args@[k + 1]@,
        decreases args@.len() - i,
    {
        paths.push(args[i].clone());
        i += 1;
    }
    proof {
        let got = paths.deep_view();
        let want = forwarded(args.deep_view());
        assert(got.len() == want.len());
        assert forall|k: int| 0 <= k < got.len() implies got[k] == want[k] by {
            assert(got[k] == paths@[k]@);
            assert(want[k] == args@[k + 1]@);
        }
        assert(got =~= want);
    }
    paths
}

} // verus!
