//! Whitespace and trimming.

use vstd::prelude::*;

verus! {

/// Whether `c` is whitespace as Unicode defines it: one of the 25 code
/// points with the property `White_Space`.
pub open spec fn is_space(c: char) -> bool {
    let n: u32 = c as u32;
    ||| 0x09 <= n <= 0x0D
    ||| n == 0x20
    ||| n == 0x85
    ||| n == 0xA0
    ||| n == 0x1680
    ||| 0x2000 <= n <= 0x200A
    ||| n == 0x2028
    ||| n == 0x2029
    ||| n == 0x202F
    ||| n == 0x205F
    ||| n == 0x3000
}

/// `char::is_whitespace` tells whether the character has the Unicode
/// property `White_Space`.
pub assume_specification[ char::is_whitespace ](c: char) -> (b: bool)
    ensures
        b == is_space(c),
;

/// `String::push` appends the character at the end of the string.
pub assume_specification[ String::push ](s: &mut String, c: char)
    ensures
        final(s)@ == old(s)@.push(c),
;

/// Whether every character of `s` is whitespace. The empty sequence is
/// blank.
pub open spec fn is_blank(s: Seq<char>) -> bool {
    forall|i: int| 0 <= i < s.len() ==> is_space(#[trigger] s[i])
}

/// `s` without its leading whitespace.
pub open spec fn trim_start(s: Seq<char>) -> Seq<char>
    decreases s.len(),
{
    if s.len() > 0 && is_space(s.first()) {
        trim_start(s.drop_first())
    } else {
        s
    }
}

/// `s` without its trailing whitespace.
pub open spec fn trim_end(s: Seq<char>) -> Seq<char>
    decreases s.len(),
{
    if s.len() > 0 && is_space(s.last()) {
        trim_end(s.drop_last())
    } else {
        s
    }
}

/// `s` without its leading and trailing whitespace. Whitespace between two
/// other characters stays.
pub open spec fn trimmed(s: Seq<char>) -> Seq<char> {
    trim_end(trim_start(s))
}

/// Whether `s` neither starts nor ends with whitespace.
pub open spec fn is_trimmed(s: Seq<char>) -> bool {
    s.len() > 0 ==> !is_space(s.first()) && !is_space(s.last())
}

/// Leading whitespace does not change what is left after trimming at the
/// start.
pub proof fn lemma_trim_start_skips(lead: Seq<char>, rest: Seq<char>)
    requires
        is_blank(lead),
    ensures
        trim_start(lead + rest) == trim_start(rest),
    decreases lead.len(),
{
    if lead.len() == 0 {
        assert(lead + rest =~= rest);
    } else {
        assert((lead + rest).first() == lead[0]);
        assert((lead + rest).drop_first() =~= lead.drop_first() + rest);
        assert forall|i: int| 0 <= i < lead.drop_first().len() implies is_space(
            #[trigger] lead.drop_first()[i],
        ) by {
            assert(lead.drop_first()[i] == lead[i + 1]);
        }
        lemma_trim_start_skips(lead.drop_first(), rest);
    }
}

/// Trailing whitespace does not change what is left after trimming at the
/// end.
pub proof fn lemma_trim_end_skips(rest: Seq<char>, tail: Seq<char>)
    requires
        is_blank(tail),
    ensures
        trim_end(rest + tail) == trim_end(rest),
    decreases tail.len(),
{
    if tail.len() == 0 {
        assert(rest + tail =~= rest);
    } else {
        assert((rest + tail).last() == tail.last());
        assert((rest + tail).drop_last() =~= rest + tail.drop_last());
        assert forall|i: int| 0 <= i < tail.drop_last().len() implies is_space(
            #[trigger] tail.drop_last()[i],
        ) by {
            assert(tail.drop_last()[i] == tail[i]);
        }
        lemma_trim_end_skips(rest, tail.drop_last());
    }
}

/// Trimming takes whitespace away and nothing else: a sequence that is
/// whitespace, then a core that neither starts nor ends with whitespace, then
/// whitespace again, trims to that core.
pub proof fn lemma_trimmed_core(lead: Seq<char>, core: Seq<char>, tail: Seq<char>)
    requires
        is_blank(lead),
        is_blank(tail),
        is_trimmed(core),
    ensures
        trimmed(lead + core + tail) == core,
{
    assert(lead + core + tail =~= lead + (core + tail));
    lemma_trim_start_skips(lead, core + tail);
    if core.len() == 0 {
        assert(core + tail =~= tail);
        lemma_trim_start_skips(tail, Seq::empty());
        assert(tail + Seq::<char>::empty() =~= tail);
        assert(trim_start(tail) =~= Seq::<char>::empty());
        assert(core =~= Seq::<char>::empty());
    } else {
        assert((core + tail).first() == core.first());
        lemma_trim_end_skips(core, tail);
    }
}

/// What trimming leaves neither starts nor ends with whitespace, and it is
/// empty exactly when the sequence is blank.
pub proof fn lemma_trimmed_is_trimmed(s: Seq<char>)
    ensures
        is_trimmed(trimmed(s)),
        trimmed(s).len() == 0 <==> is_blank(s),
{
    lemma_trim_start_shape(s);
    lemma_trim_end_shape(trim_start(s));
    let lead = s.take(s.len() - trim_start(s).len());
    let mid = trim_start(s);
    let core = trim_end(mid);
    let tail = mid.skip(core.len() as int);
    if core.len() > 0 {
        assert(core.first() == mid.first());
        assert(!is_blank(s)) by {
            let i = s.len() - mid.len();
            assert(s[i] == mid[0]);
        }
    } else {
        assert(mid =~= tail);
        assert forall|i: int| 0 <= i < s.len() implies is_space(#[trigger] s[i]) by {
            if i < lead.len() {
                assert(lead[i] == s[i]);
            } else {
                assert(mid[i - lead.len()] == s[i]);
            }
        }
    }
}

/// Trimming at the start removes a blank prefix, and what is left does not
/// start with whitespace.
pub proof fn lemma_trim_start_shape(s: Seq<char>)
    ensures
        trim_start(s).len() <= s.len(),
        trim_start(s) == s.skip(s.len() - trim_start(s).len()),
        is_blank(s.take(s.len() - trim_start(s).len())),
        trim_start(s).len() > 0 ==> !is_space(trim_start(s).first()),
    decreases s.len(),
{
    if s.len() > 0 && is_space(s.first()) {
        let rest = s.drop_first();
        lemma_trim_start_shape(rest);
        let cut = s.len() - trim_start(s).len();
        assert(rest.skip(cut - 1) =~= s.skip(cut));
        assert forall|i: int| 0 <= i < cut implies is_space(#[trigger] s.take(cut)[i]) by {
            if i > 0 {
                assert(rest.take(cut - 1)[i - 1] == s[i]);
            }
        }
    } else {
        assert(s.skip(0) =~= s);
    }
}

/// Trimming at the end removes a blank suffix, and what is left does not end
/// with whitespace.
pub proof fn lemma_trim_end_shape(s: Seq<char>)
    ensures
        trim_end(s).len() <= s.len(),
        trim_end(s) == s.take(trim_end(s).len() as int),
        is_blank(s.skip(trim_end(s).len() as int)),
        trim_end(s).len() > 0 ==> !is_space(trim_end(s).last()),
    decreases s.len(),
{
    if s.len() > 0 && is_space(s.last()) {
        let rest = s.drop_last();
        lemma_trim_end_shape(rest);
        let keep = trim_end(s).len() as int;
        assert(rest.take(keep) =~= s.take(keep));
        assert forall|i: int| 0 <= i < s.len() - keep implies is_space(
            #[trigger] s.skip(keep)[i],
        ) by {
            if i < s.len() - keep - 1 {
                assert(rest.skip(keep)[i] == s[keep + i]);
            }
        }
    } else {
        assert(s.take(s.len() as int) =~= s);
    }
}

} // verus!
