//! Search configuration drawn from command-line arguments.

use vstd::prelude::*;

verus! {

/// What to search for, and where.
pub struct Config {
    pub query: String,
    pub filename: String,
}

impl Config {
    /// Reads the query and filename from the argument list: the program
    /// name, then the query, then the filename. Fewer than three arguments
    /// are refused with a message.
    pub fn new(args: &[String]) -> (r: Result<Config, &'static str>)
        ensures
            r is Ok <==> args@.len() >= 3,
            r matches Ok(c) ==> c.query@ == args@[1]@ && c.filename@ == args@[2]@,
            r matches Err(e) ==> e@ == "not enought arguments"@,
    {
        if args.len() < 3 {
            return Err("not enought arguments");
        }
        let query = args[1].clone();
        let filename = args[2].clone();
        Ok(Config { query, filename })
    }
}

} // verus!
