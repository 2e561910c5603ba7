//! Command-line configuration.

use vstd::prelude::*;

verus! {

/// What a run needs: the path of the spreadsheet to read.
#[derive(Debug)]
pub struct Config {
    pub xls_path: String,
}

impl Config {
    /// The configuration from the command line `args`, program name first:
    /// the path is the first argument after it.
    pub fn new(args: &Vec<String>) -> (r: Result<Config, &'static str>)
        ensures
            r is Ok <==> args@.len() >= 2,
            r matches Ok(c) ==> c.xls_path@ == args@[1]@,
            r matches Err(m) ==> m@ == "Need excel path to be provided."@,
    {
        if args.len() < 2 {
            return Err("Need excel path to be provided.");
        }
        Ok(Config { xls_path: args[1].clone() })
    }
}

} // verus!
