//! Rewriting of a raw identifier string before it is parsed.
//!
//! Inventories and advisories spell "any value" in several ways: with a
//! wildcard character, with an empty attribute, or by leaving the last
//! attribute out. Normalization brings the first and the last of these to the
//! second one, the only spelling that the strict grammar takes.

use vstd::prelude::*;
use vstd::string::*;

verus! {

/// The character that a raw identifier uses for "any value".
pub const WILDCARD: char = '*';

/// The character that separates two attributes of an identifier.
pub const SEPARATOR: char = ':';

/// `s` without its wildcard characters, the others in their order.
pub open spec fn without_wildcards(s: Seq<char>) -> Seq<char> {
    s.filter(|c: char| c != WILDCARD)
}

/// Whether the last character of `s` is the separator.
pub open spec fn ends_with_separator(s: Seq<char>) -> bool {
    s.len() > 0 && s.last() == SEPARATOR
}

/// `s` without one trailing separator, if it has one.
pub open spec fn without_trailing_separator(s: Seq<char>) -> Seq<char> {
    if ends_with_separator(s) {
        s.drop_last()
    } else {
        s
    }
}

/// The normal form of a raw identifier: the wildcard characters are taken
/// out, then a single trailing separator is.
pub open spec fn normalized(s: Seq<char>) -> Seq<char> {
    without_trailing_separator(without_wildcards(s))
}

/// Taking the wildcards out of a prefix that is one character longer.
proof fn lemma_without_wildcards_step(s: Seq<char>, i: int)
    requires
        0 <= i < s.len(),
    ensures
        without_wildcards(s.take(i + 1)) == if s[i] != WILDCARD {
            without_wildcards(s.take(i)).push(s[i])
        } else {
            without_wildcards(s.take(i))
        },
{
    assert(s.take(i + 1) =~= s.take(i).push(s[i]));
    s.take(i).lemma_filter_push(s[i], |c: char| c != WILDCARD);
}

/// A string that holds no wildcard loses nothing.
proof fn lemma_without_wildcards_identity(s: Seq<char>)
    requires
        forall|i: int| 0 <= i < s.len() ==> s[i] != WILDCARD,
    ensures
        without_wildcards(s) == s,
    decreases s.len(),
{
    reveal(Seq::filter);
    if s.len() > 0 {
        lemma_without_wildcards_identity(s.drop_last());
        assert(s.drop_last().push(s.last()) =~= s);
    }
}

/// Nothing that is left after the wildcards went is a wildcard.
proof fn lemma_without_wildcards_clean(s: Seq<char>)
    ensures
        forall|i: int|
            0 <= i < without_wildcards(s).len() ==> #[trigger] without_wildcards(s)[i] != WILDCARD,
{
    let pred = |c: char| c != WILDCARD;
    assert forall|i: int| 0 <= i < without_wildcards(s).len() implies #[trigger] without_wildcards(
        s,
    )[i] != WILDCARD by {
        s.lemma_filter_pred(pred, i);
    }
}

/// What a second normalization does to a normal form: nothing, unless the
/// first one left a trailing separator behind, which the second one takes.
pub proof fn lemma_normalized_twice(s: Seq<char>)
    ensures
        normalized(normalized(s)) == without_trailing_separator(normalized(s)),
{
    let once = normalized(s);
    lemma_without_wildcards_clean(s);
    assert forall|i: int| 0 <= i < once.len() implies once[i] != WILDCARD by {
        assert(once[i] == without_wildcards(s)[i]);
    }
    lemma_without_wildcards_identity(once);
}

/// Normalization is idempotent on every string whose normal form does not
/// itself end with a separator. (On the others, raw identifiers that close
/// with two or more empty attributes, each pass takes one separator more:
/// see `lemma_normalized_twice`.)
pub proof fn lemma_normalized_idempotent(s: Seq<char>)
    requires
        !ends_with_separator(normalized(s)),
    ensures
        normalized(normalized(s)) == normalized(s),
{
    lemma_normalized_twice(s);
}

/// A stretch without wildcards goes through untouched.
proof fn lemma_without_wildcards_run(s: Seq<char>, start: int, end: int)
    requires
        0 <= start <= end <= s.len(),
        forall|k: int| start <= k < end ==> s[k] != WILDCARD,
    ensures
        without_wildcards(s.take(end)) == without_wildcards(s.take(start)) + s.subrange(start, end),
{
    let run = s.subrange(start, end);
    assert(s.take(end) =~= s.take(start) + run);
    Seq::filter_distributes_over_add(s.take(start), run, |c: char| c != WILDCARD);
    lemma_without_wildcards_identity(run);
}

/// Brings a raw identifier to its normal form.
pub fn fixup_cpe(cpe: String) -> (fixed: String)
    ensures
        fixed@ == normalized(cpe@),
{
    let raw = cpe.as_str();
    let len = raw.unicode_len();
    let mut kept = String::new();
    let mut start: usize = 0;
    let mut i: usize = 0;
    for c in chars: raw.chars()
        invariant
            i == chars.index(),
            chars.seq() == raw@,
            len == raw@.len(),
            start <= i <= len,
            kept@ == without_wildcards(raw@.take(start as int)),
            forall|k: int| start <= k < i ==> raw@[k] != WILDCARD,
    {
        if c == WILDCARD {
            proof {
                lemma_without_wildcards_run(raw@, start as int, i as int);
                lemma_without_wildcards_step(raw@, i as int);
            }
            if start < i {
                kept.append(raw.substring_char(start, i));
            }
            assert(raw@.subrange(start as int, i as int) + Seq::<char>::empty() =~= raw@.subrange(
                start as int,
                i as int,
            ));
            start = i + 1;
        }
        i += 1;
    }
    proof {
        lemma_without_wildcards_run(raw@, start as int, i as int);
        assert(raw@.take(i as int) =~= raw@);
    }
    if start < i {
        kept.append(raw.substring_char(start, i));
    }
    let kept_len = kept.as_str().unicode_len();
    if kept_len > 0 && kept.as_str().get_char(kept_len - 1) == SEPARATOR {
        let trimmed = String::from_str(kept.as_str().substring_char(0, kept_len - 1));
        assert(trimmed@ =~= kept@.drop_last());
        trimmed
    } else {
        kept
    }
}

} // verus!
