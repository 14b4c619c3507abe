use vstd::prelude::*;
use vstd::string::*;
use crate::codepoints::{trim, trim_bounds};
use crate::hexfmt::push_char;

verus! {

/// The qualification status of an emoji sequence in the Unicode test data.
#[derive(Debug, PartialEq, Eq, Clone, Copy, Structural)]
pub enum EmojiStatus {
    /// A component (skin tone, hair style) that is not shown on its own.
    Component,
    /// A regular, recommended emoji.
    FullyQualified,
    /// An emoji that lacks some of its presentation selectors.
    MinimallyQualified,
    /// A sequence that is not displayed as an emoji.
    Unqualified,
}

impl EmojiStatus {
    /// Whether a sequence with this status is displayed as an emoji.
    pub fn is_emoji(&self) -> (r: bool)
        ensures
            r == !(*self is Unqualified),
    {
        match self {
            EmojiStatus::Component => true,
            EmojiStatus::FullyQualified => true,
            EmojiStatus::MinimallyQualified => true,
            EmojiStatus::Unqualified => false,
        }
    }
}

/// The name of a status in the Unicode test data.
pub open spec fn status_name(s: EmojiStatus) -> Seq<char> {
    match s {
        EmojiStatus::Component => "component"@,
        EmojiStatus::FullyQualified => "fully-qualified"@,
        EmojiStatus::MinimallyQualified => "minimally-qualified"@,
        EmojiStatus::Unqualified => "unqualified"@,
    }
}

/// The status that a (trimmed, lowercase) name denotes.
pub open spec fn status_of_name(t: Seq<char>) -> Option<EmojiStatus> {
    if t == "component"@ {
        Some(EmojiStatus::Component)
    } else if t == "unqualified"@ {
        Some(EmojiStatus::Unqualified)
    } else if t == "fully-qualified"@ {
        Some(EmojiStatus::FullyQualified)
    } else if t == "minimally-qualified"@ {
        Some(EmojiStatus::MinimallyQualified)
    } else {
        None
    }
}

/// `c` in lower case if it is an ASCII capital letter.
pub open spec fn ascii_lower(c: char) -> char {
    if 'A' as u32 <= c as u32 && c as u32 <= 'Z' as u32 { ((c as u32) + 32) as char } else { c }
}

impl EmojiStatus {
    /// The name of this status in the Unicode test data.
    pub fn to_string(&self) -> (r: String)
        ensures
            r@ == status_name(*self),
    {
        proof {
            reveal_strlit("component");
            reveal_strlit("fully-qualified");
            reveal_strlit("minimally-qualified");
            reveal_strlit("unqualified");
        }
        match self {
            EmojiStatus::Component => String::from_str("component"),
            EmojiStatus::FullyQualified => String::from_str("fully-qualified"),
            EmojiStatus::MinimallyQualified => String::from_str("minimally-qualified"),
            EmojiStatus::Unqualified => String::from_str("unqualified"),
        }
    }

    /// Reads a status name, ignoring surrounding whitespace and ASCII case; an
    /// unknown name is returned (trimmed and in lower case) as the error.
    pub fn parse(s: &str) -> (r: Result<EmojiStatus, String>)
        ensures
            status_of_name(trim(s@).map_values(|c: char| ascii_lower(c))) matches Some(st) ==> r == Ok::<EmojiStatus, String>(st),
            status_of_name(trim(s@).map_values(|c: char| ascii_lower(c))) is None
                ==> (r matches Err(e) && e@ == trim(s@).map_values(|c: char| ascii_lower(c))),
    {
        let t = trimmed_lower(s);
        let component = String::from_str("component");
        let unqualified = String::from_str("unqualified");
        let fully = String::from_str("fully-qualified");
        let minimally = String::from_str("minimally-qualified");
        if t == component {
            Ok(EmojiStatus::Component)
        } else if t == unqualified {
            Ok(EmojiStatus::Unqualified)
        } else if t == fully {
            Ok(EmojiStatus::FullyQualified)
        } else if t == minimally {
            Ok(EmojiStatus::MinimallyQualified)
        } else {
            Err(t)
        }
    }
}

/// The text without surrounding whitespace, with ASCII capitals in lower case.
pub fn trimmed_lower(s: &str) -> (r: String)
    ensures
        r@ == trim(s@).map_values(|c: char| ascii_lower(c)),
{
    let (start, end) = trim_bounds(s);
    let ghost t = s@.subrange(start as int, end as int);
    let mut out = String::new();
    let mut i = start;
    while i < end
        invariant
            start <= i <= end <= s@.len(),
            t == s@.subrange(start as int, end as int),
            out@ == s@.subrange(start as int, i as int).map_values(|c: char| ascii_lower(c)),
        decreases end - i,
    {
        let c = s.get_char(i);
        let u = c as u32;
        let l = if 'A' as u32 <= u && u <= 'Z' as u32 { ((u + 32) as u8) as char } else { c };
        assert(l == ascii_lower(c));
        push_char(&mut out, l);
        assert(s@.subrange(start as int, i + 1) =~= s@.subrange(start as int, i as int).push(c));
        assert(out@ =~= s@.subrange(start as int, i + 1).map_values(|c: char| ascii_lower(c)));
        i = i + 1;
    }
    out
}

impl std::str::FromStr for EmojiStatus {
    type Err = String;

    fn from_str(s: &str) -> Result<Self, String> {
        EmojiStatus::parse(s)
    }
}

impl Default for EmojiStatus {
    fn default() -> (r: Self)
        ensures
            r is Unqualified,
    {
        EmojiStatus::Unqualified
    }
}

} // verus!
