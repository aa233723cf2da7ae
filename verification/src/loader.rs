//! The candidate loader: from the text of a candidate list to its keys.
//!
//! The text is split at line breaks. Every line is trimmed of surrounding
//! whitespace, and the lines of which nothing is left are dropped. What
//! remains, in the order of the text, are the candidate keys.

use vstd::prelude::*;
use vstd::string::StringExecFns;
use crate::keys::{keys_of, Key};
use crate::trim::{is_blank, is_trimmed, lemma_trimmed_core, lemma_trimmed_is_trimmed, trimmed};

verus! {

/// The character that ends a line.
pub const LINE_BREAK: char = '\n';

/// Number of characters before the first line break of `text`, or the
/// length of `text` where it has none.
pub open spec fn line_len(text: Seq<char>) -> nat
    decreases text.len(),
{
    if text.len() == 0 || text.first() == LINE_BREAK {
        0
    } else {
        1 + line_len(text.drop_first())
    }
}

/// The lines of `text`: the stretches between its line breaks, without the
/// breaks themselves. A text with `n` line breaks has `n + 1` lines, some of
/// which may be empty.
pub open spec fn lines_of(text: Seq<char>) -> Seq<Seq<char>>
    decreases text.len(),
{
    let n = line_len(text) as int;
    if n >= text.len() {
        seq![text]
    } else {
        seq![text.take(n)] + lines_of(text.skip(n + 1))
    }
}

/// The candidate keys that `text` holds: its lines, each trimmed, without
/// those that are empty after trimming.
pub open spec fn candidates_of(text: Seq<char>) -> Seq<Key> {
    lines_of(text).map_values(|line: Seq<char>| trimmed(line)).filter(
        |key: Seq<char>| key.len() > 0,
    )
}

/// The keys that one line contributes: what trimming leaves of it, unless
/// that is nothing.
pub open spec fn line_keys(line: Seq<char>) -> Seq<Key> {
    if trimmed(line).len() > 0 {
        seq![trimmed(line)]
    } else {
        Seq::empty()
    }
}

/// A stretch without a line break that ends at a break, or at the end of the
/// text, is the first line.
pub proof fn lemma_line_len(text: Seq<char>, n: int)
    requires
        0 <= n <= text.len(),
        forall|i: int| 0 <= i < n ==> text[i] != LINE_BREAK,
        n < text.len() ==> text[n] == LINE_BREAK,
    ensures
        line_len(text) == n,
    decreases n,
{
    if n > 0 {
        let rest = text.drop_first();
        assert forall|i: int| 0 <= i < n - 1 implies rest[i] != LINE_BREAK by {
            assert(rest[i] == text[i + 1]);
        }
        lemma_line_len(rest, n - 1);
    }
}

/// The keys of a text are those of its first line, followed by those of the
/// text after the first line break.
pub proof fn lemma_candidates_unfold(text: Seq<char>)
    ensures
        ({
            let n = line_len(text) as int;
            if n >= text.len() {
                candidates_of(text) == line_keys(text)
            } else {
                candidates_of(text) == line_keys(text.take(n)) + candidates_of(text.skip(n + 1))
            }
        }),
{
    let n = line_len(text) as int;
    let trim = |line: Seq<char>| trimmed(line);
    let kept = |key: Seq<char>| key.len() > 0;
    let first = if n >= text.len() {
        text
    } else {
        text.take(n)
    };
    let rest = if n >= text.len() {
        Seq::<Seq<char>>::empty()
    } else {
        lines_of(text.skip(n + 1))
    };
    assert(lines_of(text) =~= seq![first] + rest);
    assert((seq![first] + rest).map_values(trim) =~= seq![trimmed(first)] + rest.map_values(trim));
    Seq::filter_distributes_over_add(seq![trimmed(first)], rest.map_values(trim), kept);
    assert(seq![trimmed(first)].filter(kept) =~= line_keys(first)) by {
        reveal_with_fuel(Seq::filter, 2);
    }
    if n >= text.len() {
        assert(rest.map_values(trim).filter(kept) =~= Seq::<Seq<char>>::empty()) by {
            reveal_with_fuel(Seq::filter, 1);
        }
        assert(line_keys(first) + Seq::<Seq<char>>::empty() =~= line_keys(first));
    }
}

/// Every candidate key is non-empty, neither starts nor ends with
/// whitespace, and is what trimming leaves of some line of the text.
pub proof fn lemma_candidates_are_trimmed_lines(text: Seq<char>, i: int)
    requires
        0 <= i < candidates_of(text).len(),
    ensures
        candidates_of(text)[i].len() > 0,
        is_trimmed(candidates_of(text)[i]),
        exists|j: int|
            0 <= j < lines_of(text).len() && candidates_of(text)[i] == trimmed(
                #[trigger] lines_of(text)[j],
            ),
{
    let trim = |line: Seq<char>| trimmed(line);
    let kept = |key: Key| key.len() > 0;
    let all = lines_of(text).map_values(trim);
    let key = candidates_of(text)[i];
    all.lemma_filter_pred(kept, i);
    assert(all.filter(kept).contains(key));
    all.lemma_filter_contains_rev(kept, key);
    let j = choose|j: int| 0 <= j < all.len() && all[j] == key;
    assert(key == trimmed(lines_of(text)[j]));
    lemma_trimmed_is_trimmed(lines_of(text)[j]);
}

/// Blank lines are ignored: they give no candidate, and every other line
/// gives one, so that the candidates are the lines that are not blank, each
/// trimmed.
pub proof fn lemma_blank_lines_ignored(text: Seq<char>)
    ensures
        candidates_of(text) == lines_of(text).filter(|line: Seq<char>| !is_blank(line)).map_values(
            |line: Seq<char>| trimmed(line),
        ),
{
    lemma_trim_then_keep(lines_of(text));
}

/// Trimming every line and keeping what is not empty gives what trimming
/// the lines that are not blank gives.
proof fn lemma_trim_then_keep(lines: Seq<Seq<char>>)
    ensures
        lines.map_values(|line: Seq<char>| trimmed(line)).filter(|key: Key| key.len() > 0)
            == lines.filter(|line: Seq<char>| !is_blank(line)).map_values(
            |line: Seq<char>| trimmed(line),
        ),
    decreases lines.len(),
{
    let trim = |line: Seq<char>| trimmed(line);
    let kept = |key: Key| key.len() > 0;
    let inked = |line: Seq<char>| !is_blank(line);
    reveal_with_fuel(Seq::filter, 1);
    if lines.len() == 0 {
        assert(lines.map_values(trim).filter(kept) =~= lines.filter(inked).map_values(trim));
    } else {
        let front = lines.drop_last();
        let last = lines.last();
        lemma_trim_then_keep(front);
        lemma_trimmed_is_trimmed(last);
        assert(lines.map_values(trim).drop_last() =~= front.map_values(trim));
        assert(lines.map_values(trim).last() == trimmed(last));
        if !is_blank(last) {
            assert(lines.filter(inked) == front.filter(inked).push(last));
            assert(front.filter(inked).push(last).map_values(trim) =~= front.filter(
                inked,
            ).map_values(trim).push(trimmed(last)));
        }
    }
}

/// A text of blank lines alone holds no candidate.
pub proof fn lemma_blank_text_has_no_candidates(text: Seq<char>)
    requires
        forall|j: int| 0 <= j < lines_of(text).len() ==> is_blank(#[trigger] lines_of(text)[j]),
    ensures
        candidates_of(text).len() == 0,
{
    if candidates_of(text).len() > 0 {
        lemma_candidates_are_trimmed_lines(text, 0);
        let j = choose|j: int|
            0 <= j < lines_of(text).len() && candidates_of(text)[0] == trimmed(
                #[trigger] lines_of(text)[j],
            );
        lemma_trimmed_is_trimmed(lines_of(text)[j]);
    }
}

/// The line that starts at `start` and ends at the line break at `end`
/// contributes its keys, and the rest of the text follows.
proof fn lemma_line_done(text: Seq<char>, start: int, end: int)
    requires
        0 <= start <= end < text.len(),
        forall|i: int| start <= i < end ==> text[i] != LINE_BREAK,
        text[end] == LINE_BREAK,
    ensures
        candidates_of(text.skip(start)) == line_keys(text.subrange(start, end)) + candidates_of(
            text.skip(end + 1),
        ),
{
    let rest = text.skip(start);
    lemma_line_len(rest, end - start);
    lemma_candidates_unfold(rest);
    assert(rest.take(end - start) =~= text.subrange(start, end));
    assert(rest.skip(end - start + 1) =~= text.skip(end + 1));
}

/// The stretch from `start` to the end of the text, where it holds no line
/// break, is the last line.
proof fn lemma_last_line(text: Seq<char>, start: int)
    requires
        0 <= start <= text.len(),
        forall|i: int| start <= i < text.len() ==> text[i] != LINE_BREAK,
    ensures
        candidates_of(text.skip(start)) == line_keys(text.subrange(start, text.len() as int)),
{
    let rest = text.skip(start);
    lemma_line_len(rest, text.len() - start);
    lemma_candidates_unfold(rest);
    assert(rest =~= text.subrange(start, text.len() as int));
}

/// Reads the candidate keys from the text of a candidate list, in the order
/// of the text. Blank lines give no key; a text without any other line gives
/// the empty list.
pub fn load_candidates(text: &str) -> (out: Vec<String>)
    ensures
        keys_of(out@) == candidates_of(text@),
{
    let mut out: Vec<String> = Vec::new();
    // The current line, trimmed, as far as it has been read, and the
    // whitespace read since its last other character.
    let mut core = String::new();
    let mut gap = String::new();
    let ghost mut start: int = 0;
    let ghost mut lead: Seq<char> = Seq::empty();
    proof {
        assert(text@.skip(0) =~= text@);
        assert(keys_of(out@) + candidates_of(text@) =~= candidates_of(text@));
        assert(text@.subrange(0, 0) =~= lead + core@ + gap@);
    }
    let chars = text.chars();
    proof {
        vstd::string::axiom_spec_iter(text);
    }
    for c in it: chars
        invariant
            it.seq() == text@,
            0 <= start <= it.index() <= text@.len(),
            forall|i: int| start <= i < it.index() ==> text@[i] != LINE_BREAK,
            candidates_of(text@) == keys_of(out@) + candidates_of(text@.skip(start)),
            text@.subrange(start, it.index() as int) == lead + core@ + gap@,
            is_blank(lead),
            is_blank(gap@),
            is_trimmed(core@),
            core@.len() == 0 ==> gap@.len() == 0,
    {
        let ghost at = it.index() as int;
        let ghost line = text@.subrange(start, at);
        assert(c == text@[at]);
        assert(text@.subrange(start, at + 1) =~= line.push(c));
        if c == LINE_BREAK {
            proof {
                lemma_line_done(text@, start, at);
                lemma_trimmed_core(lead, core@, gap@);
            }
            if !core.as_str().is_empty() {
                let ghost before = out@;
                out.push(core);
                core = String::new();
                assert(keys_of(out@) =~= keys_of(before) + line_keys(line));
            } else {
                assert(keys_of(out@) + line_keys(line) =~= keys_of(out@));
            }
            gap = String::new();
            proof {
                start = at + 1;
                lead = Seq::empty();
                assert(text@.subrange(start, at + 1) =~= lead + core@ + gap@);
            }
        } else if c.is_whitespace() {
            if core.as_str().is_empty() {
                proof {
                    lead = lead.push(c);
                    assert(line.push(c) =~= lead + core@ + gap@);
                }
            } else {
                gap.push(c);
                assert(line.push(c) =~= lead + core@ + gap@);
            }
        } else {
            let ghost before = core@;
            core.append(gap.as_str());
            core.push(c);
            gap = String::new();
            assert(line.push(c) =~= lead + core@ + gap@);
            assert(core@.first() == if before.len() > 0 {
                before.first()
            } else {
                c
            });
        }
    }
    proof {
        lemma_last_line(text@, start);
        lemma_trimmed_core(lead, core@, gap@);
    }
    if !core.as_str().is_empty() {
        let ghost before = out@;
        let ghost key = core@;
        out.push(core);
        assert(keys_of(out@) =~= keys_of(before) + seq![key]);
    } else {
        assert(keys_of(out@) + Seq::<Key>::empty() =~= keys_of(out@));
    }
    out
}

} // verus!
