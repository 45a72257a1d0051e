//! Configuration of the weave entry point: the output directory and the
//! prose files to weave.

use vstd::prelude::*;

use vstd::slice::slice_index_get;

use crate::text::strings_view;

verus! {

/// The weave run's inputs: the output directory first, then the prose
/// filenames.
#[derive(Debug, PartialEq, Eq)]
pub struct Config {
    pub filenames: Vec<String>,
    pub out_dir: String,
}

impl Config {
    /// Reads the configuration from the argument list (the program name
    /// first): the output directory, then at least zero prose filenames.
    pub fn new(args: &[String]) -> (r: Result<Config, &'static str>)
        ensures
            args@.len() >= 2 ==> r is Ok && r->Ok_0.out_dir@ == args@[1]@ && strings_view(
                r->Ok_0.filenames@,
            ) == strings_view(args@.skip(2)),
            args@.len() < 2 ==> r is Err && r->Err_0@ == ("Expected at least two arguments")@,
    {
        let n = args.len();
        if n < 2 {
            return Err("Expected at least two arguments");
        }
        let out_dir = slice_index_get(args, 1).clone();
        let mut filenames: Vec<String> = Vec::new();
        let mut i: usize = 2;
        proof {
            assert(strings_view(filenames@) =~= strings_view(args@.subrange(2, 2)));
        }
        while i < n
            invariant
                2 <= i <= n,
                n == args@.len(),
                strings_view(filenames@) == strings_view(args@.subrange(2, i as int)),
            decreases n - i,
        {
            let ghost pre = filenames@;
            filenames.push(slice_index_get(args, i).clone());
            proof {
                crate::text::lemma_strings_view_push(pre, args@[i as int]);
                crate::text::lemma_strings_view_push(
                    args@.subrange(2, i as int),
                    args@[i as int],
                );
                assert(filenames@ == pre.push(args@[i as int]));
                assert(args@.subrange(2, i + 1) =~= args@.subrange(2, i as int).push(
                    args@[i as int],
                ));
            }
            i += 1;
        }
        proof {
            assert(strings_view(filenames@) =~= strings_view(args@.skip(2)));
        }
        Ok(Config { out_dir, filenames })
    }
}

} // verus!
