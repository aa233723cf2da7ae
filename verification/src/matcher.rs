//! The batch matcher: one membership query per batch, answers concatenated
//! in batch order.

use vstd::prelude::*;
use crate::batch::{batch_end, batches, lemma_batches_unfold};
use crate::error::{CheckError, ErrorKind};
use crate::keys::{keys_of, Key};
use crate::loader::{candidates_of, load_candidates};
use crate::query::membership_query;
use crate::store::{failure, query_keys, Fetched};

verus! {

/// Whether a row was read in full: stepping to it succeeded and its first
/// column is a string.
pub open spec fn is_read(row: Fetched) -> bool {
    row matches Ok(Ok(_))
}

/// The string that a row holds, where it was read in full.
pub open spec fn key_read(row: Fetched) -> Key {
    match row {
        Ok(Ok(key)) => key@,
        _ => Seq::empty(),
    }
}

/// The kind of failure that a row stands for: a query failure where stepping
/// to it failed, a decode failure where its value is not a string.
pub open spec fn failure_kind(row: Fetched) -> ErrorKind {
    match row {
        Err(_) => ErrorKind::Query,
        Ok(_) => ErrorKind::Decode,
    }
}

/// Whether `i` is the position of the first row that was not read in full.
pub open spec fn is_first_failure(rows: Seq<Fetched>, i: int) -> bool {
    &&& 0 <= i < rows.len()
    &&& !is_read(rows[i])
    &&& forall|j: int| 0 <= j < i ==> is_read(#[trigger] rows[j])
}

/// Turns the rows of one query into its answer: the strings in row order
/// when every row was read in full, else the failure of the first row that
/// was not.
pub fn collect_rows(rows: Vec<Fetched>) -> (res: Result<Vec<String>, CheckError>)
    ensures
        match res {
            Ok(found) => {
                &&& forall|i: int| 0 <= i < rows@.len() ==> is_read(#[trigger] rows@[i])
                &&& keys_of(found@) == rows@.map_values(|row: Fetched| key_read(row))
            },
            Err(e) => exists|i: int|
                is_first_failure(rows@, i) && e.kind == failure_kind(#[trigger] rows@[i]),
        },
{
    let mut found: Vec<String> = Vec::new();
    for row in it: rows
        invariant
            forall|j: int| 0 <= j < it.index() ==> is_read(#[trigger] rows@[j]),
            keys_of(found@) == rows@.take(it.index() as int).map_values(
                |row: Fetched| key_read(row),
            ),
    {
        match row {
            Ok(Ok(key)) => {
                let ghost seen = it.index() as int;
                let ghost before = found@;
                found.push(key);
                assert(keys_of(found@) =~= keys_of(before).push(key@));
                assert(rows@.take(seen + 1).map_values(|row: Fetched| key_read(row))
                    =~= rows@.take(seen).map_values(|row: Fetched| key_read(row)).push(key@));
            },
            Ok(Err(err)) => {
                return Err(failure(ErrorKind::Decode, &err));
            },
            Err(err) => {
                return Err(failure(ErrorKind::Query, &err));
            },
        }
    }
    Ok(found)
}

/// What may come back when a batch is asked for: a relation between the keys
/// of the batch and the answer, be it a list of strings or a failure.
pub type Gives = spec_fn(Seq<Key>, Result<Vec<String>, CheckError>) -> bool;

/// What `ask` may return for a batch, by its own contract.
pub open spec fn answers_of<F: Fn(&[String]) -> Result<Vec<String>, CheckError>>(ask: F) -> Gives {
    |batch: Seq<Key>, answer: Result<Vec<String>, CheckError>|
        exists|asked: &[String]| keys_of(asked@) == batch && #[trigger] ask.ensures((asked,), answer)
}

/// What `check_batch` may return for a batch on `conn`, by its own contract.
pub open spec fn store_answers(conn: &rusqlite::Connection) -> Gives {
    |batch: Seq<Key>, answer: Result<Vec<String>, CheckError>|
        exists|asked: &[String]|
            keys_of(asked@) == batch && #[trigger] call_ensures(check_batch, (conn, asked), answer)
}

/// The keys of each of a list of answers.
pub open spec fn answer_keys(answers: Seq<Vec<String>>) -> Seq<Seq<Key>> {
    answers.map_values(|answer: Vec<String>| keys_of(answer@))
}

/// Whether `answers` are answers to the first batches of `asked`, position
/// by position: the answer at `i` is one that was given for the batch at `i`.
pub open spec fn answers_tied(gives: Gives, asked: Seq<Seq<Key>>, answers: Seq<Vec<String>>) -> bool {
    &&& answers.len() <= asked.len()
    &&& forall|i: int| 0 <= i < answers.len() ==> gives(asked[i], Ok(#[trigger] answers[i]))
}

/// Whether `found` is the result of a run in which every batch of `asked`
/// was answered: the answers, one for every batch and each given for its own
/// batch, concatenated in batch order.
pub open spec fn answered_by(gives: Gives, asked: Seq<Seq<Key>>, found: Seq<Key>) -> bool {
    exists|answers: Seq<Vec<String>>|
        {
            &&& #[trigger] answers_tied(gives, asked, answers)
            &&& answers.len() == asked.len()
            &&& found == answer_keys(answers).flatten()
        }
}

/// Whether `e` is the failure of a run that ends at its first failing batch:
/// the batches before it were answered, and `e` was given for the batch that
/// follows them.
pub open spec fn failed_by(gives: Gives, asked: Seq<Seq<Key>>, e: CheckError) -> bool {
    exists|answers: Seq<Vec<String>>|
        {
            &&& #[trigger] answers_tied(gives, asked, answers)
            &&& answers.len() < asked.len()
            &&& gives(asked[answers.len() as int], Err(e))
        }
}

/// Asks the store which of `addresses` it holds, in one membership query
/// with one bound parameter per address.
///
/// The store decides the answer, so nothing is promised of the strings that
/// come back. A failure to prepare the query, to bind its parameters or to
/// step through its rows is a query failure; a row whose value is not a
/// string is a decode failure.
pub fn check_batch(conn: &rusqlite::Connection, addresses: &[String]) -> (res: Result<
    Vec<String>,
    CheckError,
>)
    ensures
        res matches Err(e) ==> e.kind == ErrorKind::Query || e.kind == ErrorKind::Decode,
{
    let query = membership_query(addresses.len());
    let rows = match query_keys(conn, query.as_str(), addresses) {
        Ok(rows) => rows,
        Err(err) => {
            return Err(failure(ErrorKind::Query, &err));
        },
    };
    collect_rows(rows)
}

/// Checks `candidates` in consecutive batches of at most `batch_size` keys,
/// asking `ask` once for each batch, in order, and returns the answers,
/// concatenated in batch order.
///
/// With no candidates nothing is asked and the result is empty. The first
/// failure ends the run and is returned; the batches after it are not asked.
/// No answer is dropped and none is deduplicated: a key that two batches are
/// answered with is returned twice. `ask` is only ever handed a batch of at
/// least one key and at most `batch_size`.
pub fn check_candidates_with<F: Fn(&[String]) -> Result<Vec<String>, CheckError>>(
    ask: F,
    candidates: &[String],
    batch_size: usize,
) -> (res: Result<Vec<String>, CheckError>)
    requires
        batch_size > 0,
        forall|batch: &[String]| 0 < batch@.len() <= batch_size ==> ask.requires((batch,)),
    ensures
        candidates@.len() == 0 ==> (res matches Ok(found) && found@.len() == 0),
        res matches Ok(found) ==> answered_by(
            answers_of(ask),
            batches(keys_of(candidates@), batch_size as nat),
            keys_of(found@),
        ),
        res matches Err(e) ==> failed_by(
            answers_of(ask),
            batches(keys_of(candidates@), batch_size as nat),
            e,
        ),
{
    let total = candidates.len();
    let ghost keys = keys_of(candidates@);
    let ghost asked = batches(keys, batch_size as nat);
    let ghost gives = answers_of(ask);
    let ghost mut answers: Seq<Vec<String>> = Seq::empty();
    let mut found: Vec<String> = Vec::new();
    let mut start: usize = 0;
    proof {
        assert(keys.skip(0) =~= keys);
        assert(asked.skip(0) =~= asked);
        assert(keys_of(found@) =~= answer_keys(answers).flatten());
    }
    while start < total
        invariant
            batch_size > 0,
            forall|batch: &[String]| 0 < batch@.len() <= batch_size ==> ask.requires((batch,)),
            total == candidates@.len(),
            keys == keys_of(candidates@),
            asked == batches(keys, batch_size as nat),
            gives == answers_of(ask),
            start <= total,
            answers_tied(gives, asked, answers),
            asked.skip(answers.len() as int) == batches(keys.skip(start as int), batch_size as nat),
            keys_of(found@) == answer_keys(answers).flatten(),
        decreases total - start,
    {
        let end = batch_end(start, total, batch_size);
        let batch = &candidates[start..end];
        proof {
            lemma_batches_unfold(keys, batch_size as nat, start as int);
            assert(keys_of(batch@) =~= keys.subrange(start as int, end as int));
            assert(asked.skip(answers.len() as int).len() > 0);
            assert(asked[answers.len() as int] == asked.skip(answers.len() as int)[0]);
            assert(asked.skip(answers.len() as int + 1) =~= asked.skip(answers.len() as int).skip(1));
            assert(asked.skip(answers.len() as int).skip(1) =~= batches(
                keys.skip(end as int),
                batch_size as nat,
            ));
        }
        let mut batch_found = match ask(batch) {
            Ok(batch_found) => batch_found,
            Err(e) => {
                proof {
                    assert(ask.ensures((batch,), Err::<Vec<String>, CheckError>(e)));
                    assert(gives(asked[answers.len() as int], Err(e)));
                    assert(failed_by(gives, asked, e));
                }
                return Err(e);
            },
        };
        proof {
            let before = found@;
            let answer = batch_found;
            assert(ask.ensures((batch,), Ok::<Vec<String>, CheckError>(answer)));
            assert(gives(asked[answers.len() as int], Ok(answer)));
            answer_keys(answers).lemma_flatten_push(keys_of(answer@));
            assert(answer_keys(answers.push(answer)) =~= answer_keys(answers).push(
                keys_of(answer@),
            ));
            assert(keys_of(before + answer@) =~= keys_of(before) + keys_of(answer@));
            answers = answers.push(answer);
        }
        found.append(&mut batch_found);
        start = end;
    }
    proof {
        assert(batches(keys.skip(total as int), batch_size as nat).len() == 0);
        assert(answers.len() == asked.len());
        assert(answered_by(gives, asked, keys_of(found@)));
        if candidates@.len() == 0 {
            assert(answer_keys(answers).flatten().len() == 0);
        }
    }
    Ok(found)
}

/// Checks `candidates` against the store in consecutive batches of at most
/// `batch_size` keys, one membership query for each batch, and returns the
/// answers, concatenated in batch order.
///
/// With no candidates the result is empty and the store is not asked. A
/// failure in any batch ends the run with that failure. No answer is
/// deduplicated: a key that occurs in two batches may be reported twice.
pub fn check_candidates(
    conn: &rusqlite::Connection,
    candidates: &[String],
    batch_size: usize,
) -> (res: Result<Vec<String>, CheckError>)
    requires
        batch_size > 0,
    ensures
        candidates@.len() == 0 ==> (res matches Ok(found) && found@.len() == 0),
        res matches Ok(found) ==> answered_by(
            store_answers(conn),
            batches(keys_of(candidates@), batch_size as nat),
            keys_of(found@),
        ),
        res matches Err(e) ==> failed_by(
            store_answers(conn),
            batches(keys_of(candidates@), batch_size as nat),
            e,
        ),
        res matches Err(e) ==> e.kind == ErrorKind::Query || e.kind == ErrorKind::Decode,
{
    let ask = |batch: &[String]| -> (answer: Result<Vec<String>, CheckError>)
        ensures
            call_ensures(check_batch, (conn, batch), answer),
        { check_batch(conn, batch) };
    let res = check_candidates_with(ask, candidates, batch_size);
    proof {
        let asked = batches(keys_of(candidates@), batch_size as nat);
        lemma_gives_weaker(answers_of(ask), store_answers(conn), asked);
    }
    res
}

/// Loads the candidate keys from `text` and checks them against the store in
/// batches of at most `batch_size` keys.
///
/// A text without candidates, be it empty or all blank, gives the empty
/// result without a query.
pub fn check_addresses(conn: &rusqlite::Connection, text: &str, batch_size: usize) -> (res: Result<
    Vec<String>,
    CheckError,
>)
    requires
        batch_size > 0,
    ensures
        candidates_of(text@).len() == 0 ==> (res matches Ok(found) && found@.len() == 0),
        res matches Ok(found) ==> answered_by(
            store_answers(conn),
            batches(candidates_of(text@), batch_size as nat),
            keys_of(found@),
        ),
        res matches Err(e) ==> failed_by(
            store_answers(conn),
            batches(candidates_of(text@), batch_size as nat),
            e,
        ),
        res matches Err(e) ==> e.kind == ErrorKind::Query || e.kind == ErrorKind::Decode,
{
    let candidates = load_candidates(text);
    check_candidates(conn, candidates.as_slice(), batch_size)
}

/// Where every answer that one relation admits is admitted by another, a run
/// that the first describes is described by the other.
pub proof fn lemma_gives_weaker(gives: Gives, weaker: Gives, asked: Seq<Seq<Key>>)
    requires
        forall|batch: Seq<Key>, answer: Result<Vec<String>, CheckError>|
            #[trigger] gives(batch, answer) ==> weaker(batch, answer),
    ensures
        forall|answers: Seq<Vec<String>>| #[trigger]
            answers_tied(gives, asked, answers) ==> answers_tied(weaker, asked, answers),
        forall|found: Seq<Key>| #[trigger]
            answered_by(gives, asked, found) ==> answered_by(weaker, asked, found),
        forall|e: CheckError| #[trigger] failed_by(gives, asked, e) ==> failed_by(weaker, asked, e),
{
    assert forall|found: Seq<Key>| #[trigger] answered_by(gives, asked, found) implies answered_by(
        weaker,
        asked,
        found,
    ) by {
        let answers = choose|answers: Seq<Vec<String>>|
            {
                &&& #[trigger] answers_tied(gives, asked, answers)
                &&& answers.len() == asked.len()
                &&& found == answer_keys(answers).flatten()
            };
        assert(answers_tied(weaker, asked, answers));
    }
    assert forall|e: CheckError| #[trigger] failed_by(gives, asked, e) implies failed_by(
        weaker,
        asked,
        e,
    ) by {
        let answers = choose|answers: Seq<Vec<String>>|
            {
                &&& #[trigger] answers_tied(gives, asked, answers)
                &&& answers.len() < asked.len()
                &&& gives(asked[answers.len() as int], Err(e))
            };
        assert(answers_tied(weaker, asked, answers));
    }
}

} // verus!
