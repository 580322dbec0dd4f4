//! Small string helpers shared across the library.

use vstd::prelude::*;

use vstd::string::StringExecFns;

verus! {

/// Tests two strings for equality of their character sequences.
pub fn string_eq(a: &String, b: &String) -> (r: bool)
    ensures
        r == (a@ == b@),
{
    *a == *b
}

/// The SQL statement that probes whether a table exists.
pub fn check_table_exists_sql(table_name: &String) -> (r: String)
    ensures
        r@ == "SELECT 1 FROM "@ + table_name@ + " LIMIT 1;"@,
{
    let mut s: String = ("SELECT 1 FROM ").to_owned();
    s.append(table_name.as_str());
    s.append(" LIMIT 1;");
    s
}

/// The SQL statement that truncates a table and purges the recycle bin.
pub fn truncate_table_sql(table_name: &String) -> (r: String)
    ensures
        r@ == "truncate table "@ + table_name@ + "; purge recyclebin;"@,
{
    let mut s: String = ("truncate table ").to_owned();
    s.append(table_name.as_str());
    s.append("; purge recyclebin;");
    s
}

} // verus!
