//! What a run returns when its batches are answered truthfully.
//!
//! The matcher cannot see into the store: it hands each batch over and takes
//! the answer as it comes. Its contract ties the result to those answers. The
//! statements here start from that contract and from what is known of the
//! answers: where every answer names only keys that the store holds, so does
//! the result; where every answer names all of them, so does the result; and
//! where both hold, the result names exactly the candidates that the store
//! holds, whatever the batch size.

use vstd::prelude::*;
use crate::batch::{batches, lemma_batches_cover, lemma_batches_disjoint};
use crate::keys::{keys_of, Key};
use crate::matcher::{answer_keys, answered_by, answers_tied, Gives};

verus! {

/// Whether `found` is what one answer for each of `count` batches, taken in
/// batch order, concatenates to.
pub open spec fn gathered(count: nat, answers: Seq<Seq<Key>>, found: Seq<Key>) -> bool {
    &&& answers.len() == count
    &&& found == answers.flatten()
}

/// Whether `answer` names only keys of `batch` that the store holds.
pub open spec fn is_sound(store: Set<Key>, batch: Seq<Key>, answer: Seq<Key>) -> bool {
    forall|key: Key| #[trigger] answer.contains(key) ==> store.contains(key) && batch.contains(key)
}

/// Whether `answer` names every key of `batch` that the store holds.
pub open spec fn is_complete(store: Set<Key>, batch: Seq<Key>, answer: Seq<Key>) -> bool {
    forall|key: Key| #[trigger] batch.contains(key) && store.contains(key) ==> answer.contains(key)
}

/// Whether every one of `answers` is sound for the batch at its position.
pub open spec fn all_sound(store: Set<Key>, asked: Seq<Seq<Key>>, answers: Seq<Seq<Key>>) -> bool {
    &&& answers.len() == asked.len()
    &&& forall|i: int| 0 <= i < asked.len() ==> is_sound(store, #[trigger] asked[i], answers[i])
}

/// Whether every one of `answers` is complete for the batch at its position.
pub open spec fn all_complete(
    store: Set<Key>,
    asked: Seq<Seq<Key>>,
    answers: Seq<Seq<Key>>,
) -> bool {
    &&& answers.len() == asked.len()
    &&& forall|i: int| 0 <= i < asked.len() ==> is_complete(store, #[trigger] asked[i], answers[i])
}

/// The candidates that the store holds, as a set.
pub open spec fn present(store: Set<Key>, candidates: Seq<Key>) -> Set<Key> {
    Set::new(|key: Key| candidates.contains(key) && store.contains(key))
}

/// A key occurs in a concatenation exactly when it occurs in one of the
/// parts.
pub proof fn lemma_flatten_contains<T>(parts: Seq<Seq<T>>, item: T)
    ensures
        parts.flatten().contains(item) <==> exists|i: int|
            0 <= i < parts.len() && #[trigger] parts[i].contains(item),
    decreases parts.len(),
{
    if parts.len() > 0 {
        let head = parts.first();
        let tail = parts.drop_first();
        lemma_flatten_contains(tail, item);
        if parts.flatten().contains(item) {
            let k = choose|k: int| 0 <= k < parts.flatten().len() && parts.flatten()[k] == item;
            if k < head.len() {
                assert(head[k] == item);
                assert(parts[0].contains(item));
            } else {
                assert(tail.flatten()[k - head.len()] == item);
                let j = choose|j: int| 0 <= j < tail.len() && #[trigger] tail[j].contains(item);
                assert(parts[j + 1] == tail[j]);
                assert(parts[j + 1].contains(item));
            }
        }
        if exists|i: int| 0 <= i < parts.len() && #[trigger] parts[i].contains(item) {
            let i = choose|i: int| 0 <= i < parts.len() && #[trigger] parts[i].contains(item);
            if i == 0 {
                let k = choose|k: int| 0 <= k < head.len() && head[k] == item;
                assert(parts.flatten()[k] == item);
            } else {
                assert(tail[i - 1] == parts[i]);
                assert(tail[i - 1].contains(item));
                let k = choose|k: int| 0 <= k < tail.flatten().len() && tail.flatten()[k] == item;
                assert(parts.flatten()[head.len() + k] == item);
            }
        }
    }
}

/// Soundness: where every batch is answered soundly, no key that the store
/// lacks is reported, nor one that is no candidate.
pub proof fn lemma_run_sound(
    store: Set<Key>,
    candidates: Seq<Key>,
    size: nat,
    answers: Seq<Seq<Key>>,
    found: Seq<Key>,
    key: Key,
)
    requires
        size > 0,
        gathered(batches(candidates, size).len(), answers, found),
        all_sound(store, batches(candidates, size), answers),
        found.contains(key),
    ensures
        store.contains(key),
        candidates.contains(key),
{
    let asked = batches(candidates, size);
    lemma_flatten_contains(answers, key);
    let i = choose|i: int| 0 <= i < answers.len() && #[trigger] answers[i].contains(key);
    assert(is_sound(store, asked[i], answers[i]));
    assert(asked[i].contains(key));
    lemma_batches_cover(candidates, size, key);
}

/// Completeness: where every batch is answered completely, every candidate
/// that the store holds is reported at least once.
pub proof fn lemma_run_complete(
    store: Set<Key>,
    candidates: Seq<Key>,
    size: nat,
    answers: Seq<Seq<Key>>,
    found: Seq<Key>,
    key: Key,
)
    requires
        size > 0,
        gathered(batches(candidates, size).len(), answers, found),
        all_complete(store, batches(candidates, size), answers),
        candidates.contains(key),
        store.contains(key),
    ensures
        found.contains(key),
{
    let asked = batches(candidates, size);
    lemma_batches_cover(candidates, size, key);
    let i = choose|i: int| 0 <= i < asked.len() && #[trigger] asked[i].contains(key);
    assert(is_complete(store, asked[i], answers[i]));
    assert(answers[i].contains(key));
    lemma_flatten_contains(answers, key);
}

/// Where every batch is answered soundly and completely, the keys reported
/// are, as a set, the candidates that the store holds.
pub proof fn lemma_run_exact(
    store: Set<Key>,
    candidates: Seq<Key>,
    size: nat,
    answers: Seq<Seq<Key>>,
    found: Seq<Key>,
)
    requires
        size > 0,
        gathered(batches(candidates, size).len(), answers, found),
        all_sound(store, batches(candidates, size), answers),
        all_complete(store, batches(candidates, size), answers),
    ensures
        found.to_set() == present(store, candidates),
{
    assert forall|key: Key| found.to_set().contains(key) <==> present(store, candidates).contains(
        key,
    ) by {
        if found.contains(key) {
            lemma_run_sound(store, candidates, size, answers, found, key);
        }
        if candidates.contains(key) && store.contains(key) {
            lemma_run_complete(store, candidates, size, answers, found, key);
        }
    }
    assert(found.to_set() =~= present(store, candidates));
}

/// Batching is transparent: two runs over the same candidates against the
/// same store, with any two batch sizes, report the same set of keys. This
/// holds in particular of a run in one batch and a run in many.
pub proof fn lemma_batching_transparent(
    store: Set<Key>,
    candidates: Seq<Key>,
    size_a: nat,
    answers_a: Seq<Seq<Key>>,
    found_a: Seq<Key>,
    size_b: nat,
    answers_b: Seq<Seq<Key>>,
    found_b: Seq<Key>,
)
    requires
        size_a > 0,
        size_b > 0,
        gathered(batches(candidates, size_a).len(), answers_a, found_a),
        all_sound(store, batches(candidates, size_a), answers_a),
        all_complete(store, batches(candidates, size_a), answers_a),
        gathered(batches(candidates, size_b).len(), answers_b, found_b),
        all_sound(store, batches(candidates, size_b), answers_b),
        all_complete(store, batches(candidates, size_b), answers_b),
    ensures
        found_a.to_set() == found_b.to_set(),
{
    lemma_run_exact(store, candidates, size_a, answers_a, found_a);
    lemma_run_exact(store, candidates, size_b, answers_b, found_b);
}

/// Parts without duplicates of which no two share an item concatenate to a
/// sequence without duplicates.
pub proof fn lemma_flatten_distinct<T>(parts: Seq<Seq<T>>)
    requires
        forall|i: int| 0 <= i < parts.len() ==> (#[trigger] parts[i]).no_duplicates(),
        forall|i: int, j: int, item: T|
            #![trigger parts[i].contains(item), parts[j].contains(item)]
            0 <= i < j < parts.len() && parts[i].contains(item) ==> !parts[j].contains(item),
    ensures
        parts.flatten().no_duplicates(),
    decreases parts.len(),
{
    if parts.len() > 0 {
        let head = parts.first();
        let tail = parts.drop_first();
        assert forall|i: int| 0 <= i < tail.len() implies (#[trigger] tail[i]).no_duplicates() by {
            assert(tail[i] == parts[i + 1]);
        }
        assert forall|i: int, j: int, item: T|
            #![trigger tail[i].contains(item), tail[j].contains(item)]
            0 <= i < j < tail.len() && tail[i].contains(item) implies !tail[j].contains(item) by {
            assert(tail[i] == parts[i + 1] && tail[j] == parts[j + 1]);
            assert(parts[i + 1].contains(item));
        }
        lemma_flatten_distinct(tail);
        assert forall|a: int, b: int| 0 <= a < head.len() && 0 <= b < tail.flatten().len() implies head[a]
            != tail.flatten()[b] by {
            let item = tail.flatten()[b];
            if head[a] == item {
                assert(tail.flatten().contains(item));
                lemma_flatten_contains(tail, item);
                let j = choose|j: int| 0 <= j < tail.len() && #[trigger] tail[j].contains(item);
                assert(tail[j] == parts[j + 1]);
                assert(parts[0].contains(item));
                assert(parts[j + 1].contains(item));
            }
        }
        vstd::seq_lib::lemma_no_dup_in_concat(head, tail.flatten());
    }
}

/// Where the candidates are distinct, every batch is answered soundly and no
/// answer names a key twice, no key is reported twice. A candidate that
/// occurs in two batches, in contrast, may be reported once for each.
pub proof fn lemma_run_distinct(
    store: Set<Key>,
    candidates: Seq<Key>,
    size: nat,
    answers: Seq<Seq<Key>>,
    found: Seq<Key>,
)
    requires
        size > 0,
        gathered(batches(candidates, size).len(), answers, found),
        all_sound(store, batches(candidates, size), answers),
        candidates.no_duplicates(),
        forall|i: int| 0 <= i < answers.len() ==> (#[trigger] answers[i]).no_duplicates(),
    ensures
        found.no_duplicates(),
{
    let asked = batches(candidates, size);
    assert forall|i: int, j: int, key: Key|
        #![trigger answers[i].contains(key), answers[j].contains(key)]
        0 <= i < j < answers.len() && answers[i].contains(key) implies !answers[j].contains(
            key,
        ) by {
        assert(is_sound(store, asked[i], answers[i]));
        assert(is_sound(store, asked[j], answers[j]));
        lemma_batches_disjoint(candidates, size, i, j, key);
    }
    lemma_flatten_distinct(answers);
}

/// Without candidates nothing is asked and nothing is reported.
pub proof fn lemma_run_without_candidates(
    candidates: Seq<Key>,
    size: nat,
    answers: Seq<Seq<Key>>,
    found: Seq<Key>,
)
    requires
        candidates.len() == 0,
        gathered(batches(candidates, size).len(), answers, found),
    ensures
        answers.len() == 0,
        found.len() == 0,
{
}

/// Whether every list of strings that may come back for a batch names only
/// keys of that batch that the store holds.
pub open spec fn gives_sound(gives: Gives, store: Set<Key>) -> bool {
    forall|batch: Seq<Key>, answer: Vec<String>| #[trigger]
        gives(batch, Ok(answer)) ==> is_sound(store, batch, keys_of(answer@))
}

/// Whether every list of strings that may come back for a batch names every
/// key of that batch that the store holds.
pub open spec fn gives_complete(gives: Gives, store: Set<Key>) -> bool {
    forall|batch: Seq<Key>, answer: Vec<String>| #[trigger]
        gives(batch, Ok(answer)) ==> is_complete(store, batch, keys_of(answer@))
}

/// Whether no list of strings that may come back for a batch names a key
/// twice.
pub open spec fn gives_distinct(gives: Gives) -> bool {
    forall|batch: Seq<Key>, answer: Vec<String>| #[trigger]
        gives(batch, Ok(answer)) ==> keys_of(answer@).no_duplicates()
}

/// Whether the only list of keys that may come back for a batch is the one
/// that `exact` assigns to it.
pub open spec fn gives_exactly(gives: Gives, exact: spec_fn(Seq<Key>) -> Seq<Key>) -> bool {
    forall|batch: Seq<Key>, answer: Vec<String>| #[trigger]
        gives(batch, Ok(answer)) ==> keys_of(answer@) == exact(batch)
}

/// The answers behind the result of a run in which every batch was
/// answered: one for every batch, each given for its own batch, and the
/// result is their concatenation.
pub proof fn lemma_answers_behind(gives: Gives, asked: Seq<Seq<Key>>, found: Seq<Key>) -> (answers:
    Seq<Vec<String>>)
    requires
        answered_by(gives, asked, found),
    ensures
        answers.len() == asked.len(),
        forall|i: int| 0 <= i < asked.len() ==> gives(asked[i], Ok(#[trigger] answers[i])),
        gathered(asked.len(), answer_keys(answers), found),
{
    choose|answers: Seq<Vec<String>>|
        {
            &&& #[trigger] answers_tied(gives, asked, answers)
            &&& answers.len() == asked.len()
            &&& found == answer_keys(answers).flatten()
        }
}

/// Soundness of a run: where every answer is sound, the result names no key
/// that the store lacks, nor one that is no candidate.
pub proof fn lemma_answered_sound(
    gives: Gives,
    store: Set<Key>,
    candidates: Seq<Key>,
    size: nat,
    found: Seq<Key>,
    key: Key,
)
    requires
        size > 0,
        answered_by(gives, batches(candidates, size), found),
        gives_sound(gives, store),
        found.contains(key),
    ensures
        store.contains(key),
        candidates.contains(key),
{
    let asked = batches(candidates, size);
    let answers = lemma_answers_behind(gives, asked, found);
    assert forall|i: int| 0 <= i < asked.len() implies is_sound(
        store,
        #[trigger] asked[i],
        answer_keys(answers)[i],
    ) by {
        assert(gives(asked[i], Ok(answers[i])));
    }
    lemma_run_sound(store, candidates, size, answer_keys(answers), found, key);
}

/// Completeness of a run: where every answer is complete, the result names
/// every candidate that the store holds at least once.
pub proof fn lemma_answered_complete(
    gives: Gives,
    store: Set<Key>,
    candidates: Seq<Key>,
    size: nat,
    found: Seq<Key>,
    key: Key,
)
    requires
        size > 0,
        answered_by(gives, batches(candidates, size), found),
        gives_complete(gives, store),
        candidates.contains(key),
        store.contains(key),
    ensures
        found.contains(key),
{
    let asked = batches(candidates, size);
    let answers = lemma_answers_behind(gives, asked, found);
    assert forall|i: int| 0 <= i < asked.len() implies is_complete(
        store,
        #[trigger] asked[i],
        answer_keys(answers)[i],
    ) by {
        assert(gives(asked[i], Ok(answers[i])));
    }
    lemma_run_complete(store, candidates, size, answer_keys(answers), found, key);
}

/// Where every answer is sound and complete, the result names, as a set,
/// exactly the candidates that the store holds.
pub proof fn lemma_answered_exact(
    gives: Gives,
    store: Set<Key>,
    candidates: Seq<Key>,
    size: nat,
    found: Seq<Key>,
)
    requires
        size > 0,
        answered_by(gives, batches(candidates, size), found),
        gives_sound(gives, store),
        gives_complete(gives, store),
    ensures
        found.to_set() == present(store, candidates),
{
    assert forall|key: Key| found.to_set().contains(key) <==> present(store, candidates).contains(
        key,
    ) by {
        if found.contains(key) {
            lemma_answered_sound(gives, store, candidates, size, found, key);
        }
        if candidates.contains(key) && store.contains(key) {
            lemma_answered_complete(gives, store, candidates, size, found, key);
        }
    }
    assert(found.to_set() =~= present(store, candidates));
}

/// Batching is transparent to the result of a run: with sound and complete
/// answers, two runs over the same candidates with any two batch sizes name
/// the same set of keys, be it one batch for all or many small ones.
pub proof fn lemma_answered_batching_transparent(
    gives: Gives,
    store: Set<Key>,
    candidates: Seq<Key>,
    size_a: nat,
    found_a: Seq<Key>,
    size_b: nat,
    found_b: Seq<Key>,
)
    requires
        size_a > 0,
        size_b > 0,
        answered_by(gives, batches(candidates, size_a), found_a),
        answered_by(gives, batches(candidates, size_b), found_b),
        gives_sound(gives, store),
        gives_complete(gives, store),
    ensures
        found_a.to_set() == found_b.to_set(),
{
    lemma_answered_exact(gives, store, candidates, size_a, found_a);
    lemma_answered_exact(gives, store, candidates, size_b, found_b);
}

/// Where the candidates are distinct, every answer is sound and none names
/// a key twice, the result names no key twice.
pub proof fn lemma_answered_distinct(
    gives: Gives,
    store: Set<Key>,
    candidates: Seq<Key>,
    size: nat,
    found: Seq<Key>,
)
    requires
        size > 0,
        answered_by(gives, batches(candidates, size), found),
        gives_sound(gives, store),
        gives_distinct(gives),
        candidates.no_duplicates(),
    ensures
        found.no_duplicates(),
{
    let asked = batches(candidates, size);
    let answers = lemma_answers_behind(gives, asked, found);
    assert forall|i: int| 0 <= i < asked.len() implies is_sound(
        store,
        #[trigger] asked[i],
        answer_keys(answers)[i],
    ) by {
        assert(gives(asked[i], Ok(answers[i])));
    }
    assert forall|i: int| 0 <= i < answer_keys(answers).len() implies (
    #[trigger] answer_keys(answers)[i]).no_duplicates() by {
        assert(gives(asked[i], Ok(answers[i])));
    }
    lemma_run_distinct(store, candidates, size, answer_keys(answers), found);
}

/// Where each batch has one possible answer, the result of a run is fixed:
/// the answers to the batches, in batch order, one after the other, with
/// nothing dropped and nothing deduplicated.
pub proof fn lemma_answered_exactly(
    gives: Gives,
    exact: spec_fn(Seq<Key>) -> Seq<Key>,
    candidates: Seq<Key>,
    size: nat,
    found: Seq<Key>,
)
    requires
        answered_by(gives, batches(candidates, size), found),
        gives_exactly(gives, exact),
    ensures
        found == batches(candidates, size).map_values(exact).flatten(),
{
    let asked = batches(candidates, size);
    let answers = lemma_answers_behind(gives, asked, found);
    assert forall|i: int| 0 <= i < asked.len() implies answer_keys(answers)[i] == exact(
        asked[i],
    ) by {
        assert(gives(asked[i], Ok(answers[i])));
    }
    assert(answer_keys(answers) =~= asked.map_values(exact));
}

} // verus!
