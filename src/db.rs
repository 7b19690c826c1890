//! Where a named database lives, and which names are accepted.

use vstd::prelude::*;
use vstd::string::StringExecFns;

verus! {

/// The installation prefix used when none is configured.
pub const DEFAULT_PREFIX: &'static str = "/";

/// The data directory below the prefix.
pub const VARLIB_DIR: &'static str = "var/lib/feedreader";

/// The file name extension of a database.
pub const DB_EXTENSION: &'static str = ".db";

/// `rel` below `base`, with one `/` between them.
pub open spec fn path_join(base: Seq<char>, rel: Seq<char>) -> Seq<char> {
    if base.len() > 0 && base.last() == '/' {
        base + rel
    } else {
        base + seq!['/'] + rel
    }
}

/// Joins a relative path below a base directory.
pub fn join_path(base: &str, rel: &str) -> (r: String)
    ensures
        r@ == path_join(base@, rel@),
{
    let mut r = String::from_str(base);
    let n = base.unicode_len();
    if n == 0 || base.get_char(n - 1) != '/' {
        r.append("/");
        proof {
            reveal_strlit("/");
        }
    }
    r.append(rel);
    r
}

/// The installation prefix.
pub fn get_prefix() -> (r: String)
    ensures
        r@ == DEFAULT_PREFIX@,
{
    String::from_str(DEFAULT_PREFIX)
}

/// The data directory below a given prefix.
pub fn varlib_under(prefix: &str) -> (r: String)
    ensures
        r@ == path_join(prefix@, VARLIB_DIR@),
{
    join_path(prefix, VARLIB_DIR)
}

/// The data directory below the installation prefix.
pub fn get_varlib() -> (r: String)
    ensures
        r@ == path_join(DEFAULT_PREFIX@, VARLIB_DIR@),
{
    varlib_under(DEFAULT_PREFIX)
}

/// Whether a character may appear in a database name.
pub open spec fn name_char_ok(c: char) -> bool {
    ('a' <= c <= 'z') || ('A' <= c <= 'Z') || ('0' <= c <= '9') || c == '-' || c == '_'
}

/// Whether a database name holds only ASCII letters and digits, `-` and `_`.
pub open spec fn db_name_ok(name: Seq<char>) -> bool {
    forall|i: int| 0 <= i < name.len() ==> name_char_ok(#[trigger] name[i])
}

/// Checks a database name.
pub fn valid_db_name(name: &str) -> (r: bool)
    ensures
        r == db_name_ok(name@),
{
    let n = name.unicode_len();
    let mut i: usize = 0;
    while i < n
        invariant
            i <= n == name@.len(),
            forall|k: int| 0 <= k < i ==> name_char_ok(#[trigger] name@[k]),
        decreases n - i,
    {
        let c = name.get_char(i);
        if !(('a' <= c && c <= 'z') || ('A' <= c && c <= 'Z') || ('0' <= c && c <= '9') || c == '-'
            || c == '_') {
            return false;
        }
        i = i + 1;
    }
    true
}

/// Why a database cannot be named so.
#[derive(Clone, Copy, PartialEq, Eq, Debug, Structural)]
pub enum DbError {
    /// The name holds a character other than ASCII letters and digits, `-`
    /// and `_`.
    InvalidName,
}

/// A named database: one file in the data directory.
#[derive(Clone, Debug)]
pub struct Db {
    path: String,
}

impl Db {
    /// The path of the database file.
    pub closed spec fn spec_path(&self) -> Seq<char> {
        self.path@
    }

    /// The database `name` in the data directory below `prefix`.
    pub fn new_under(prefix: &str, name: &str) -> (r: Result<Db, DbError>)
        ensures
            db_name_ok(name@) ==> r is Ok && r->Ok_0.spec_path() == path_join(
                path_join(prefix@, VARLIB_DIR@),
                name@ + DB_EXTENSION@,
            ),
            !db_name_ok(name@) ==> r == Err::<Db, DbError>(DbError::InvalidName),
    {
        if !valid_db_name(name) {
            return Err(DbError::InvalidName);
        }
        let dir = varlib_under(prefix);
        let mut file = String::from_str(name);
        file.append(DB_EXTENSION);
        let path = join_path(dir.as_str(), file.as_str());
        Ok(Db { path })
    }

    /// The database `name` in the data directory below the installation
    /// prefix.
    pub fn new(name: &str) -> (r: Result<Db, DbError>)
        ensures
            db_name_ok(name@) ==> r is Ok && r->Ok_0.spec_path() == path_join(
                path_join(DEFAULT_PREFIX@, VARLIB_DIR@),
                name@ + DB_EXTENSION@,
            ),
            !db_name_ok(name@) ==> r == Err::<Db, DbError>(DbError::InvalidName),
    {
        Db::new_under(DEFAULT_PREFIX, name)
    }

    /// The path of the database file.
    pub fn path(&self) -> (r: &str)
        ensures
            r@ == self.spec_path(),
    {
        self.path.as_str()
    }
}

} // verus!
