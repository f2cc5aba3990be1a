//! Guarded construction of the range query. The user-entered table name is
//! held to an identifier whitelist before it may appear in the query text, so
//! no quote, semicolon or other punctuation can reach the database layer.

use vstd::prelude::*;

use crate::ExportError;

verus! {

/// Characters allowed in a table name: ASCII letters, digits and underscore.
pub open spec fn valid_ident_char(c: char) -> bool {
    (97 <= c as int <= 122)  // a-z
     || (65 <= c as int <= 90)  // A-Z
     || (48 <= c as int <= 57)  // 0-9
     || c == '_'
}

/// A table name is accepted exactly when it is nonempty and all its
/// characters are identifier characters.
pub open spec fn valid_table_name(s: Seq<char>) -> bool {
    s.len() > 0 && forall|i: int| 0 <= i < s.len() ==> valid_ident_char(s[i])
}

/// Any name holding a quote, double quote or semicolon is rejected.
pub proof fn lemma_quote_or_semicolon_rejected(name: Seq<char>, i: int)
    requires
        0 <= i < name.len(),
        name[i] == '\'' || name[i] == '"' || name[i] == ';',
    ensures
        !valid_table_name(name),
{
    assert(!valid_ident_char(name[i]));
}

/// Checks the table name against the identifier whitelist.
pub fn validate_table_name(name: &str) -> (r: bool)
    ensures
        r == valid_table_name(name@),
{
    let n = name.unicode_len();
    if n == 0 {
        return false;
    }
    let mut i: usize = 0;
    while i < n
        invariant
            n == name@.len(),
            i <= n,
            forall|j: int| 0 <= j < i ==> valid_ident_char(name@[j]),
        decreases n - i,
    {
        let v = name.get_char(i) as u64;
        let ok = (97 <= v && v <= 122) || (65 <= v && v <= 90) || (48 <= v && v <= 57) || v == 95;
        if !ok {
            assert(!valid_ident_char(name@[i as int])) by {
                assert('_' as int == 95);
            }
            return false;
        }
        assert(valid_ident_char(name@[i as int])) by {
            assert('_' as int == 95);
        }
        i = i + 1;
    }
    true
}

/// The query text built for an accepted table name: a `SELECT` over the
/// inclusive timestamp range, with the bounds left as bind parameters.
pub open spec fn query_text(table: Seq<char>) -> Seq<char> {
    "SELECT * FROM "@ + table + " WHERE timestamp BETWEEN ?1 AND ?2"@
}

/// Builds the range query for a table name, rejecting any name that is not a
/// plain identifier with `QueryPrepare`.
pub fn build_query(table: &str) -> (r: Result<String, ExportError>)
    ensures
        r is Ok <==> valid_table_name(table@),
        r is Ok ==> r->Ok_0@ == query_text(table@),
        r is Err ==> r->Err_0 == ExportError::QueryPrepare,
{
    if !validate_table_name(table) {
        return Err(ExportError::QueryPrepare);
    }
    let q = String::from_str("SELECT * FROM ").concat(table).concat(
        " WHERE timestamp BETWEEN ?1 AND ?2",
    );
    Ok(q)
}

} // verus!
