//! The text of the membership query.
//!
//! The query is parameterized: candidate keys are bound as positional
//! parameters and never become part of the text, which depends on the number
//! of keys alone. Batches of one size therefore share one text, and with it
//! one prepared query.

use vstd::prelude::*;
use vstd::string::StringExecFns;

verus! {

/// The query up to the parameter list.
pub const QUERY_HEAD: &'static str = "SELECT address FROM addresses WHERE address IN (";

/// The query after the parameter list.
pub const QUERY_TAIL: &'static str = ")";

/// `n` positional placeholders, separated by commas.
pub open spec fn placeholders(n: nat) -> Seq<char>
    decreases n,
{
    if n == 0 {
        Seq::empty()
    } else if n == 1 {
        seq!['?']
    } else {
        placeholders((n - 1) as nat) + seq![',', '?']
    }
}

/// The text of the query that selects, among `n` bound keys, those that the
/// store holds.
pub open spec fn membership_sql(n: nat) -> Seq<char> {
    QUERY_HEAD@ + placeholders(n) + QUERY_TAIL@
}

/// A list of `n` placeholders takes one character for each placeholder and
/// one for each comma between two of them.
pub proof fn lemma_placeholders_len(n: nat)
    ensures
        placeholders(n).len() == if n == 0 {
            0
        } else {
            2 * n - 1
        },
    decreases n,
{
    if n > 1 {
        lemma_placeholders_len((n - 1) as nat);
    }
}

/// Batches of different sizes have different query texts, so that a
/// prepared query kept under its text is reused for batches of its own size
/// and for no other.
pub proof fn lemma_membership_sql_injective(n: nat, m: nat)
    requires
        membership_sql(n) == membership_sql(m),
    ensures
        n == m,
{
    lemma_placeholders_len(n);
    lemma_placeholders_len(m);
    assert(membership_sql(n).len() == QUERY_HEAD@.len() + placeholders(n).len() + QUERY_TAIL@.len());
    assert(membership_sql(m).len() == QUERY_HEAD@.len() + placeholders(m).len() + QUERY_TAIL@.len());
}

/// Builds the membership query for a batch of `n` keys.
pub fn membership_query(n: usize) -> (sql: String)
    ensures
        sql@ == membership_sql(n as nat),
{
    let mut sql = QUERY_HEAD.to_owned();
    let mut i: usize = 0;
    while i < n
        invariant
            i <= n,
            sql@ == QUERY_HEAD@ + placeholders(i as nat),
        decreases n - i,
    {
        proof {
            reveal_strlit(",");
            reveal_strlit("?");
            assert(","@ =~= seq![',']);
            assert("?"@ =~= seq!['?']);
        }
        if i > 0 {
            sql.append(",");
        }
        sql.append("?");
        i += 1;
        assert(sql@ =~= QUERY_HEAD@ + placeholders(i as nat));
    }
    sql.append(QUERY_TAIL);
    sql
}

} // verus!
