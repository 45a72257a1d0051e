//! Configuration of the tangle entry point: the list of source filenames to
//! extract fragments from.

use vstd::prelude::*;

use vstd::slice::slice_index_get;

use crate::text::strings_view;

verus! {

/// The tangle run's inputs: every argument after the program name is a
/// source filename.
#[derive(Debug, PartialEq, Eq)]
pub struct Config {
    pub filenames: Vec<String>,
}

impl Config {
    /// Reads the configuration from the argument list (the program name
    /// first).
    pub fn new(args: &[String]) -> (r: Result<Config, &'static str>)
        requires
            args@.len() >= 1,
        ensures
            r is Ok,
            strings_view(r->Ok_0.filenames@) == strings_view(args@.skip(1)),
    {
        let n = args.len();
        let mut filenames: Vec<String> = Vec::new();
        let mut i: usize = 1;
        proof {
            assert(strings_view(filenames@) =~= strings_view(args@.subrange(1, 1)));
        }
        while i < n
            invariant
                1 <= i <= n,
                n == args@.len(),
                strings_view(filenames@) == strings_view(args@.subrange(1, i as int)),
            decreases n - i,
        {
            let ghost pre = filenames@;
            filenames.push(slice_index_get(args, i).clone());
            proof {
                crate::text::lemma_strings_view_push(pre, args@[i as int]);
                crate::text::lemma_strings_view_push(
                    args@.subrange(1, i as int),
                    args@[i as int],
                );
                assert(filenames@ == pre.push(args@[i as int]));
                assert(args@.subrange(1, i + 1) =~= args@.subrange(1, i as int).push(
                    args@[i as int],
                ));
            }
            i += 1;
        }
        proof {
            assert(strings_view(filenames@) =~= strings_view(args@.skip(1)));
        }
        Ok(Config { filenames })
    }
}

} // verus!
