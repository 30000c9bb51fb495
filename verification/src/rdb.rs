//! The RDB snapshot configuration: where the snapshot file lives.
//! Reading and parsing the snapshot itself is in [`crate::loader`].

use vstd::prelude::*;

verus! {

/// Location of the RDB snapshot: a directory and a file name.
#[derive(Debug)]
pub struct RdbConf {
    pub dir: String,
    pub filename: String,
}

impl Default for RdbConf {
    /// The conventional location.
    fn default() -> (r: RdbConf)
        ensures
            r.dir@ == "/tmp/redis-files"@,
            r.filename@ == "dump.rdb"@,
    {
        RdbConf { dir: "/tmp/redis-files".to_owned(), filename: "dump.rdb".to_owned() }
    }
}

} // verus!

verus! {

use crate::store::StoreEngine;

/// Where the snapshot file is looked for.
pub trait RDBConfigOps: Sized {
    /// The configured directory.
    spec fn conf_dir(&self) -> Seq<char>;

    /// The configured file name.
    spec fn conf_filename(&self) -> Seq<char>;

    /// Points the loader at a directory.
    fn set_dir(&mut self, dir: String)
        ensures
            final(self).conf_dir() == dir@,
            final(self).conf_filename() == old(self).conf_filename(),
    ;

    /// Points the loader at a file name.
    fn set_filename(&mut self, filename: String)
        ensures
            final(self).conf_filename() == filename@,
            final(self).conf_dir() == old(self).conf_dir(),
    ;

    /// The configured directory.
    fn get_dir(&self) -> (r: String)
        ensures
            r@ == self.conf_dir(),
    ;

    /// The configured file name.
    fn get_filename(&self) -> (r: String)
        ensures
            r@ == self.conf_filename(),
    ;
}

impl RDBConfigOps for StoreEngine {
    open spec fn conf_dir(&self) -> Seq<char> {
        self.rdb_info.dir@
    }

    open spec fn conf_filename(&self) -> Seq<char> {
        self.rdb_info.filename@
    }

    fn set_dir(&mut self, dir: String) {
        self.rdb_info.dir = dir;
    }

    fn set_filename(&mut self, filename: String) {
        self.rdb_info.filename = filename;
    }

    fn get_dir(&self) -> (r: String) {
        self.rdb_info.dir.clone()
    }

    fn get_filename(&self) -> (r: String) {
        self.rdb_info.filename.clone()
    }
}

} // verus!
