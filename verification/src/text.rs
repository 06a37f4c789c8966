//! Text primitives the protocol relies on: whitespace trimming, case folding
//! and UTF-8 decoding, each with the contract the rest of the crate builds on.

use vstd::prelude::*;
use vstd::string::StringSliceAdditionalSpecFns;
use vstd::utf8::*;

verus! {

/// Whether `c` carries the Unicode `White_Space` property.
pub open spec fn is_whitespace(c: char) -> bool {
    ||| '\u{0009}' <= c <= '\u{000D}'
    ||| c == '\u{0020}'
    ||| c == '\u{0085}'
    ||| c == '\u{00A0}'
    ||| c == '\u{1680}'
    ||| '\u{2000}' <= c <= '\u{200A}'
    ||| c == '\u{2028}'
    ||| c == '\u{2029}'
    ||| c == '\u{202F}'
    ||| c == '\u{205F}'
    ||| c == '\u{3000}'
}

/// `s` without its leading run of whitespace.
pub open spec fn trimmed_start(s: Seq<char>) -> Seq<char>
    decreases s.len(),
{
    if s.len() > 0 && is_whitespace(s[0]) {
        trimmed_start(s.drop_first())
    } else {
        s
    }
}

/// `s` without its trailing run of whitespace.
pub open spec fn trimmed_end(s: Seq<char>) -> Seq<char>
    decreases s.len(),
{
    if s.len() > 0 && is_whitespace(s.last()) {
        trimmed_end(s.drop_last())
    } else {
        s
    }
}

/// `s` without surrounding whitespace.
pub open spec fn trimmed(s: Seq<char>) -> Seq<char> {
    trimmed_end(trimmed_start(s))
}

/// How many characters of `s` the trimming removes at its start.
pub open spec fn leading_whitespace(s: Seq<char>) -> int {
    s.len() - trimmed_start(s).len()
}

/// `trimmed_start` removes a run of whitespace at the start and stops at the
/// first character that is none.
pub proof fn lemma_trimmed_start(s: Seq<char>)
    ensures
        0 <= leading_whitespace(s) <= s.len(),
        trimmed_start(s) == s.skip(leading_whitespace(s)),
        forall|i: int| 0 <= i < leading_whitespace(s) ==> is_whitespace(#[trigger] s[i]),
        trimmed_start(s).len() > 0 ==> !is_whitespace(trimmed_start(s)[0]),
    decreases s.len(),
{
    if s.len() > 0 && is_whitespace(s[0]) {
        let rest = s.drop_first();
        lemma_trimmed_start(rest);
        assert(rest.skip(leading_whitespace(rest)) =~= s.skip(leading_whitespace(s)));
        assert forall|i: int| 0 <= i < leading_whitespace(s) implies is_whitespace(
            #[trigger] s[i],
        ) by {
            if i > 0 {
                assert(s[i] == rest[i - 1]);
            }
        }
    } else {
        assert(s.skip(0) =~= s);
    }
}

/// `trimmed_end` removes a run of whitespace at the end and stops at the last
/// character that is none.
pub proof fn lemma_trimmed_end(s: Seq<char>)
    ensures
        trimmed_end(s).len() <= s.len(),
        trimmed_end(s) == s.take(trimmed_end(s).len() as int),
        forall|i: int| trimmed_end(s).len() <= i < s.len() ==> is_whitespace(#[trigger] s[i]),
        trimmed_end(s).len() > 0 ==> !is_whitespace(trimmed_end(s).last()),
    decreases s.len(),
{
    if s.len() > 0 && is_whitespace(s.last()) {
        let rest = s.drop_last();
        lemma_trimmed_end(rest);
        assert(rest.take(trimmed_end(rest).len() as int) =~= s.take(trimmed_end(s).len() as int));
        assert forall|i: int| trimmed_end(s).len() <= i < s.len() implies is_whitespace(
            #[trigger] s[i],
        ) by {
            if i < s.len() - 1 {
                assert(s[i] == rest[i]);
            }
        }
    } else {
        assert(s.take(s.len() as int) =~= s);
    }
}

/// Trimming keeps one stretch of the text: everything before it and
/// everything after it is whitespace, and what is kept neither begins nor
/// ends with whitespace.
pub proof fn lemma_trimmed_is_the_core(s: Seq<char>)
    ensures
        0 <= leading_whitespace(s) <= leading_whitespace(s) + trimmed(s).len() <= s.len(),
        trimmed(s) == s.subrange(leading_whitespace(s), leading_whitespace(s) + trimmed(s).len()),
        forall|i: int| 0 <= i < leading_whitespace(s) ==> is_whitespace(#[trigger] s[i]),
        forall|i: int|
            leading_whitespace(s) + trimmed(s).len() <= i < s.len() ==> is_whitespace(
                #[trigger] s[i],
            ),
        trimmed(s).len() > 0 ==> !is_whitespace(trimmed(s)[0]) && !is_whitespace(
            trimmed(s).last(),
        ),
{
    let start = leading_whitespace(s);
    let middle = trimmed_start(s);
    lemma_trimmed_start(s);
    lemma_trimmed_end(middle);
    let kept = trimmed(s).len() as int;
    assert(trimmed(s) =~= s.subrange(start, start + kept));
    assert forall|i: int| start + kept <= i < s.len() implies is_whitespace(#[trigger] s[i]) by {
        assert(s[i] == middle[i - start]);
    }
    if kept > 0 {
        assert(trimmed(s)[0] == middle[0]);
    }
}

/// The uppercase form of `s` under the Unicode case mapping of
/// `str::to_uppercase`, which may change the number of characters.
pub uninterp spec fn uppercase(s: Seq<char>) -> Seq<char>;

/// Trusted: calls `str::trim`. The contract is taken from its documentation
/// and is not proved: the result is the text without its leading and trailing
/// characters of the `White_Space` property, which [`is_whitespace`] lists.
#[verifier::external_body]
pub(crate) fn trim(s: &str) -> (t: &str)
    ensures
        t@ == trimmed(s@),
{
    s.trim()
}

/// Trusted: calls `str::to_uppercase`. Nothing is claimed of the result but
/// that it depends on the text alone; the contract gives it the name
/// [`uppercase`].
#[verifier::external_body]
pub(crate) fn to_uppercase(s: &str) -> (upper: String)
    ensures
        upper@ == uppercase(s@),
{
    s.to_uppercase()
}

/// Trusted: calls `core::str::from_utf8`. The contract is taken from its
/// documentation and is not proved: the call succeeds exactly on well-formed
/// UTF-8, and the text it yields holds the characters that the bytes encode.
#[verifier::external_body]
pub(crate) fn from_utf8(bytes: &[u8]) -> (text: Option<&str>)
    ensures
        text is Some <==> valid_utf8(bytes@),
        text is Some ==> text->0@ == decode_utf8(bytes@),
{
    core::str::from_utf8(bytes).ok()
}

/// Decides whether two string slices hold the same characters.
pub fn same_text(left: &str, right: &str) -> (same: bool)
    ensures
        same == (left@ == right@),
{
    let first = left.as_bytes();
    let second = right.as_bytes();
    proof {
        encode_utf8_decode_utf8(left@);
        encode_utf8_decode_utf8(right@);
    }
    if first.len() != second.len() {
        return false;
    }
    let mut index: usize = 0;
    while index < first.len()
        invariant
            first@ == left.spec_bytes(),
            second@ == right.spec_bytes(),
            first@.len() == second@.len(),
            index <= first@.len(),
            forall|i: int| 0 <= i < index ==> first@[i] == second@[i],
        decreases first@.len() - index,
    {
        if first[index] != second[index] {
            return false;
        }
        index += 1;
    }
    assert(first@ =~= second@);
    true
}

/// Trusted: the specification of `String::clear`, taken from its
/// documentation: afterwards the string holds no character.
pub assume_specification[ String::clear ](s: &mut String)
    ensures
        final(s)@ == Seq::<char>::empty(),
;

} // verus!
