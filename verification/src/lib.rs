//! Extraction of the leading space-delimited token of a string.
//!
//! The extractor scans a string from the front and returns the prefix that
//! precedes the first ASCII space, borrowed from the input; when no space
//! occurs anywhere, the whole string is returned. The scan looks for the
//! plain space character only: no other whitespace, and no Unicode-aware
//! word-boundary handling.

use vstd::prelude::*;
use vstd::std_specs::iter::IteratorSpec;

verus! {

/// The leading token of `s`: the maximal prefix of `s` that holds no space,
/// cut off at the first space when one occurs.
pub open spec fn leading_token(s: Seq<char>) -> Seq<char>
    decreases s.len(),
{
    if s.len() == 0 || s[0] == ' ' {
        Seq::<char>::empty()
    } else {
        seq![s[0]] + leading_token(s.drop_first())
    }
}

/// The leading token is the prefix `[0, i)`, where `i` is the position of the
/// first space, or the length of `s` when no space occurs.
pub proof fn lemma_leading_token_at_first_space(s: Seq<char>, i: int)
    requires
        0 <= i <= s.len(),
        forall|j: int| 0 <= j < i ==> s[j] != ' ',
        i < s.len() ==> s[i] == ' ',
    ensures
        leading_token(s) == s.subrange(0, i),
    decreases s.len(),
{
    if i == 0 {
        assert(s.subrange(0, 0) =~= Seq::<char>::empty());
    } else {
        let t = s.drop_first();
        assert(forall|j: int| 0 <= j < i - 1 ==> t[j] != ' ');
        lemma_leading_token_at_first_space(t, i - 1);
        assert(seq![s[0]] + t.subrange(0, i - 1) =~= s.subrange(0, i));
    }
}

/// A buffer that holds no space is its own leading token.
pub proof fn lemma_no_space_full_buffer(s: Seq<char>)
    requires
        forall|j: int| 0 <= j < s.len() ==> s[j] != ' ',
    ensures
        leading_token(s) == s,
{
    lemma_leading_token_at_first_space(s, s.len() as int);
    assert(s.subrange(0, s.len() as int) =~= s);
}

/// A buffer that begins with a space has the empty leading token.
pub proof fn lemma_leading_space_empty_token(s: Seq<char>)
    requires
        s.len() > 0,
        s[0] == ' ',
    ensures
        leading_token(s) == Seq::<char>::empty(),
{
}

/// When a buffer is a space-free prefix, then a space, then anything, its
/// leading token is exactly that prefix, whatever `rest` holds.
pub proof fn lemma_prefix_before_space(prefix: Seq<char>, rest: Seq<char>)
    requires
        forall|j: int| 0 <= j < prefix.len() ==> prefix[j] != ' ',
    ensures
        leading_token(prefix + seq![' '] + rest) == prefix,
{
    let s = prefix + seq![' '] + rest;
    let i = prefix.len() as int;
    assert(forall|j: int| 0 <= j < i ==> s[j] == prefix[j]);
    assert(s[i] == ' ');
    lemma_leading_token_at_first_space(s, i);
    assert(s.subrange(0, i) =~= prefix);
}

/// The leading token itself holds no space character.
pub proof fn lemma_token_has_no_space(s: Seq<char>)
    ensures
        forall|j: int| 0 <= j < leading_token(s).len() ==> leading_token(s)[j] != ' ',
    decreases s.len(),
{
    if s.len() == 0 || s[0] == ' ' {
    } else {
        let t = s.drop_first();
        lemma_token_has_no_space(t);
        assert forall|j: int| 0 <= j < leading_token(s).len() implies leading_token(s)[j]
            != ' ' by {
            if j > 0 {
                assert(leading_token(s)[j] == leading_token(t)[j - 1]);
            }
        }
    }
}

/// Extracting the leading token of an already extracted token changes
/// nothing: the token holds no space, so it is its own leading token.
pub proof fn lemma_extract_idempotent(s: Seq<char>)
    ensures
        leading_token(leading_token(s)) == leading_token(s),
{
    lemma_token_has_no_space(s);
    lemma_no_space_full_buffer(leading_token(s));
}

/// Returns the leading token of `s`: the prefix up to, and not including,
/// the first space, or all of `s` when no space occurs. The result borrows
/// from `s`; nothing is copied and `s` is not changed. Total: every string
/// is accepted, the empty one included.
#[verifier::loop_isolation(false)]
pub fn first_word(s: &String) -> (r: &str)
    ensures
        r@ == leading_token(s@),
        r@.len() <= s@.len(),
        r@ == s@.subrange(0, r@.len() as int),
        forall|j: int| 0 <= j < r@.len() ==> s@[j] != ' ',
        r@.len() < s@.len() ==> s@[r@.len() as int] == ' ',
{
    let text = s.as_str();
    let n = text.unicode_len();
    let mut it = text.chars();
    let mut i: usize = 0;
    loop
        invariant
            i <= n,
            it.remaining() == s@.subrange(i as int, s@.len() as int),
            forall|j: int| 0 <= j < i ==> s@[j] != ' ',
        decreases s@.len() - i,
    {
        match it.next() {
            Some(c) => {
                if c == ' ' {
                    let r = text.substring_char(0, i);
                    proof {
                        lemma_leading_token_at_first_space(s@, i as int);
                    }
                    return r;
                }
                i += 1;
                proof {
                    assert(it.remaining() =~= s@.subrange(i as int, s@.len() as int));
                }
            },
            None => {
                proof {
                    lemma_leading_token_at_first_space(s@, i as int);
                    assert(s@.subrange(0, s@.len() as int) =~= s@);
                }
                return text;
            },
        }
    }
}

} // verus!
