//! What the printer yields.
use vstd::prelude::*;

verus! {

/// What the printer yields: a character by its code point, or an inexact
/// real by the bits of its double, for the caller to spell.
#[derive(Clone, Copy, PartialEq, Eq, Structural, Debug)]
pub enum PrintToken {
    Char(u32),
    Real(u64),
}

/// The characters of `s` as tokens.
pub open spec fn text_tokens(s: Seq<char>) -> Seq<PrintToken>
    decreases s.len(),
{
    if s.len() == 0 {
        Seq::empty()
    } else {
        text_tokens(s.drop_last()).push(PrintToken::Char(s.last() as u32))
    }
}

/// The length and elements of `text_tokens(s)`.
pub broadcast proof fn lemma_tokens(s: Seq<char>)
    ensures
        #[trigger] text_tokens(s).len() == s.len(),
        forall|i: int| 0 <= i < s.len() ==> #[trigger] text_tokens(s)[i] == PrintToken::Char(s[i] as u32),
    decreases s.len(),
{
    if s.len() > 0 {
        lemma_tokens(s.drop_last());
        assert forall|i: int| 0 <= i < s.len() implies #[trigger] text_tokens(s)[i] == PrintToken::Char(
            s[i] as u32,
        ) by {
            if i < s.len() - 1 {
                assert(text_tokens(s.drop_last())[i] == PrintToken::Char(s.drop_last()[i] as u32));
            }
        }
    }
}

} // verus!
