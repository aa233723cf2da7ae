//! What a run is configured by: where the store and the candidate list are,
//! and how many keys go into one query.

use vstd::prelude::*;

verus! {

/// Path of the store where none is given.
pub const DEFAULT_DB_PATH: &'static str = "btc_addresses.db";

/// Path of the candidate list where none is given.
pub const DEFAULT_TXT_PATH: &'static str = "addressonly.txt";

/// Largest number of keys bound to one membership query.
pub const DEFAULT_BATCH_SIZE: usize = 1000;

/// The settings of one run.
#[derive(Debug)]
pub struct Config {
    /// Path of the store.
    pub db_path: String,
    /// Path of the newline-delimited candidate list.
    pub txt_path: String,
    /// Largest number of keys bound to one membership query.
    pub batch_size: usize,
}

impl Config {
    /// A configuration can be run when its batch size is positive.
    pub open spec fn is_valid(&self) -> bool {
        self.batch_size > 0
    }

    /// The configuration that a command line gives: after the program's own
    /// name, the first argument is the path of the store and the second the
    /// path of the candidate list. An argument that is missing takes its
    /// default; further arguments are ignored.
    pub fn from_args(args: &[String]) -> (config: Config)
        ensures
            config.is_valid(),
            config.db_path@ == if args@.len() > 1 {
                args@[1]@
            } else {
                DEFAULT_DB_PATH@
            },
            config.txt_path@ == if args@.len() > 2 {
                args@[2]@
            } else {
                DEFAULT_TXT_PATH@
            },
            config.batch_size == DEFAULT_BATCH_SIZE,
    {
        let db_path = if args.len() > 1 {
            args[1].clone()
        } else {
            DEFAULT_DB_PATH.to_owned()
        };
        let txt_path = if args.len() > 2 {
            args[2].clone()
        } else {
            DEFAULT_TXT_PATH.to_owned()
        };
        Config { db_path, txt_path, batch_size: DEFAULT_BATCH_SIZE }
    }
}

} // verus!
