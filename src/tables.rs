//! Helpers for the tables of emoji metadata that the loaders fill.
use vstd::prelude::*;
use vstd::string::*;
use crate::codepoints::{is_whitespace, is_ws};

verus! {

/// The key of an emoji table: a codepoint sequence.
pub type EmojiTableKey = Vec<u32>;

/// The variation selector that asks for emoji presentation.
pub const FE0F: u32 = 0xfe0f;

/// An error while parsing or using emoji tables.
#[derive(Debug)]
pub enum EmojiTableError {
    /// No emoji with the given sequence is in the table.
    KeyNotFound(EmojiTableKey),
}

/// How lookups treat the emoji presentation selector U+FE0F.
#[derive(Debug, Clone, Copy, PartialEq, Eq, Structural)]
pub enum Fe0fHandling {
    /// Remove every U+FE0F from the key.
    RemoveFe0f,
    /// Try the key with and without U+FE0F.
    WithWithoutFe0f,
    /// Use the key as it is.
    Default,
}

/// The error of a conversion that cannot fail.
#[derive(Debug, Clone, Copy)]
pub struct NoError;

impl From<()> for NoError {
    fn from(u: ()) -> (r: NoError) {
        NoError
    }
}

impl vstd::std_specs::convert::FromSpecImpl<()> for NoError {
    open spec fn obeys_from_spec() -> bool {
        true
    }

    open spec fn from_spec(u: ()) -> NoError {
        NoError
    }
}

/// The sequence without its emoji presentation selectors.
pub fn strip_fe0f(codepoint_with_fe0f: &[u32]) -> (r: EmojiTableKey)
    ensures
        r@ == codepoint_with_fe0f@.filter(|c: u32| c != FE0F),
{
    let ghost s = codepoint_with_fe0f@;
    let mut out: Vec<u32> = Vec::new();
    let mut i: usize = 0;
    while i < codepoint_with_fe0f.len()
        invariant
            i <= s.len(),
            s == codepoint_with_fe0f@,
            out@ == s.take(i as int).filter(|c: u32| c != FE0F),
        decreases codepoint_with_fe0f.len() - i,
    {
        let c = codepoint_with_fe0f[i];
        proof {
            assert(s.take(i + 1) =~= s.take(i as int).push(c));
            s.take(i as int).lemma_filter_push(c, |c: u32| c != FE0F);
        }
        if c != FE0F {
            out.push(c);
        }
        i = i + 1;
    }
    assert(s.take(i as int) =~= s);
    out
}

/// Whether the text holds a character that is no whitespace.
pub open spec fn has_content(s: Seq<char>) -> bool {
    exists|i: int| 0 <= i < s.len() && !is_ws(#[trigger] s[i])
}

/// Whether the text is empty after trimming whitespace.
pub fn is_blank(s: &str) -> (r: bool)
    ensures
        r == !has_content(s@),
{
    let n = s.unicode_len();
    let mut i: usize = 0;
    while i < n
        invariant
            i <= n == s@.len(),
            forall|j: int| 0 <= j < i ==> is_ws(#[trigger] s@[j]),
        decreases n - i,
    {
        if !is_whitespace(s.get_char(i)) {
            return false;
        }
        i = i + 1;
    }
    true
}

/// Updates a description: an absent description takes the new one (or stays
/// absent); a present one is replaced only by a new one that is not blank.
pub fn update_description(old_description: &mut Option<String>, new_description: Option<&str>)
    ensures
        (*old(old_description)) is None ==> (match new_description {
            Some(n) => (*final(old_description)) matches Some(d) && d@ == n@,
            None => (*final(old_description)) is None,
        }),
        (*old(old_description)) is Some ==> (match new_description {
            Some(n) => if has_content(n@) {
                (*final(old_description)) matches Some(d) && d@ == n@
            } else {
                *final(old_description) == *old(old_description)
            },
            None => *final(old_description) == *old(old_description),
        }),
{
    match new_description {
        Some(n) => {
            if old_description.is_none() || !is_blank(n) {
                *old_description = Some(String::from_str(n));
            }
        },
        None => {},
    }
}

} // verus!
