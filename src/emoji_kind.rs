//! The categories that the Unicode data files assign to emoji sequences.
use vstd::prelude::*;
use vstd::string::*;
use crate::codepoints::{trim, trim_bounds};
use crate::hexfmt::push_char;

verus! {

/// The kind of an emoji, as the Unicode data files name it.
#[derive(Debug, Clone)]
pub enum EmojiKind {
    /// A single character that is an emoji.
    Emoji,
    /// A sequence joined by zero width joiners.
    EmojiZwjSequence,
    /// A sequence of multiple characters.
    EmojiSequence,
    /// Something that is displayed as an emoji by default.
    EmojiPresentation,
    /// Something that can be combined with a modifier.
    ModifierBase,
    /// A part of other emojis (a skin tone, a hair style).
    EmojiComponent,
    /// A sequence that ends in the combining keycap.
    EmojiKeycapSequence,
    /// A flag.
    EmojiFlagSequence,
    /// An emoji with a modifier (a skin tone).
    EmojiModifierSequence,
    /// A character that is reserved for emoji use.
    ExtendedPictographic,
    /// Something else, that is not mapped here.
    Other(String),
}

/// The position of a kind's variant in the declaration.
pub open spec fn kind_rank(k: EmojiKind) -> nat {
    match k {
        EmojiKind::Emoji => 0,
        EmojiKind::EmojiZwjSequence => 1,
        EmojiKind::EmojiSequence => 2,
        EmojiKind::EmojiPresentation => 3,
        EmojiKind::ModifierBase => 4,
        EmojiKind::EmojiComponent => 5,
        EmojiKind::EmojiKeycapSequence => 6,
        EmojiKind::EmojiFlagSequence => 7,
        EmojiKind::EmojiModifierSequence => 8,
        EmojiKind::ExtendedPictographic => 9,
        EmojiKind::Other(_) => 10,
    }
}

/// Two kinds are equal when they are the same variant and, for `Other`, carry the same text.
pub open spec fn kind_eq(a: EmojiKind, b: EmojiKind) -> bool {
    match (a, b) {
        (EmojiKind::Other(x), EmojiKind::Other(y)) => x@ == y@,
        _ => kind_rank(a) == kind_rank(b),
    }
}

impl EmojiKind {
    /// A copy of this kind.
    pub fn copy(&self) -> (r: EmojiKind)
        ensures
            r == *self,
    {
        match self {
            EmojiKind::Emoji => EmojiKind::Emoji,
            EmojiKind::EmojiZwjSequence => EmojiKind::EmojiZwjSequence,
            EmojiKind::EmojiSequence => EmojiKind::EmojiSequence,
            EmojiKind::EmojiPresentation => EmojiKind::EmojiPresentation,
            EmojiKind::ModifierBase => EmojiKind::ModifierBase,
            EmojiKind::EmojiComponent => EmojiKind::EmojiComponent,
            EmojiKind::EmojiKeycapSequence => EmojiKind::EmojiKeycapSequence,
            EmojiKind::EmojiFlagSequence => EmojiKind::EmojiFlagSequence,
            EmojiKind::EmojiModifierSequence => EmojiKind::EmojiModifierSequence,
            EmojiKind::ExtendedPictographic => EmojiKind::ExtendedPictographic,
            EmojiKind::Other(name) => EmojiKind::Other(name.clone()),
        }
    }

    /// The position of this kind's variant in the declaration.
    pub fn rank(&self) -> (r: u8)
        ensures
            r as nat == kind_rank(*self),
    {
        match self {
            EmojiKind::Emoji => 0,
            EmojiKind::EmojiZwjSequence => 1,
            EmojiKind::EmojiSequence => 2,
            EmojiKind::EmojiPresentation => 3,
            EmojiKind::ModifierBase => 4,
            EmojiKind::EmojiComponent => 5,
            EmojiKind::EmojiKeycapSequence => 6,
            EmojiKind::EmojiFlagSequence => 7,
            EmojiKind::EmojiModifierSequence => 8,
            EmojiKind::ExtendedPictographic => 9,
            EmojiKind::Other(_) => 10,
        }
    }
}

impl PartialEq for EmojiKind {
    fn eq(&self, o: &EmojiKind) -> (r: bool) {
        match self {
            EmojiKind::Other(x) => match o {
                EmojiKind::Other(y) => x.eq(y),
                _ => false,
            },
            _ => self.rank() == o.rank(),
        }
    }
}

impl vstd::std_specs::cmp::PartialEqSpecImpl for EmojiKind {
    open spec fn obeys_eq_spec() -> bool {
        true
    }

    open spec fn eq_spec(&self, o: &EmojiKind) -> bool {
        kind_eq(*self, *o)
    }
}

impl Eq for EmojiKind {
}

/// The text in lower case, as `str::to_lowercase` gives it.
pub uninterp spec fn lower_of(s: Seq<char>) -> Seq<char>;

/// Relies on `str::to_lowercase`: the result depends on the characters alone.
#[verifier::external_body]
pub(crate) fn to_lowercase(s: &str) -> (r: String)
    ensures
        r@ == lower_of(s@),
{
    s.to_lowercase()
}

/// The text with every occurrence of `rgi` removed, matched from the left.
pub open spec fn remove_rgi(s: Seq<char>) -> Seq<char>
    decreases s.len(),
{
    if s.len() == 0 {
        s
    } else if s.len() >= 3 && s[0] == 'r' && s[1] == 'g' && s[2] == 'i' {
        remove_rgi(s.skip(3))
    } else {
        seq![s[0]] + remove_rgi(s.skip(1))
    }
}

/// `c`, with an underscore read as a space.
pub open spec fn underscore_to_space(c: char) -> char {
    if c == '_' { ' ' } else { c }
}

/// `c`, with a space written as an underscore.
pub open spec fn space_to_underscore(c: char) -> char {
    if c == ' ' { '_' } else { c }
}

/// The normalized form of a kind's name: in lower case, without `rgi`, with
/// spaces for underscores, without surrounding whitespace.
pub open spec fn normalized_kind(s: Seq<char>) -> Seq<char> {
    trim(remove_rgi(lower_of(s)).map_values(|c: char| underscore_to_space(c)))
}

/// The kind that a normalized name denotes.
pub open spec fn kind_of_name(t: Seq<char>) -> Option<EmojiKind> {
    if t == "emoji"@ || t == "basic emoji"@ {
        Some(EmojiKind::Emoji)
    } else if t == "emoji zwj sequence"@ {
        Some(EmojiKind::EmojiZwjSequence)
    } else if t == "emoji sequence"@ {
        Some(EmojiKind::EmojiSequence)
    } else if t == "emoji presentation"@ {
        Some(EmojiKind::EmojiPresentation)
    } else if t == "modifier base"@ || t == "emoji modifier base"@ {
        Some(EmojiKind::ModifierBase)
    } else if t == "emoji component"@ {
        Some(EmojiKind::EmojiComponent)
    } else if t == "emoji keycap sequence"@ {
        Some(EmojiKind::EmojiKeycapSequence)
    } else if t == "emoji flag sequence"@ {
        Some(EmojiKind::EmojiFlagSequence)
    } else if t == "emoji modifier sequence"@ {
        Some(EmojiKind::EmojiModifierSequence)
    } else if t == "extended pictographic"@ {
        Some(EmojiKind::ExtendedPictographic)
    } else {
        None
    }
}

/// The name of a kind as the Unicode data files write it.
pub open spec fn kind_name(k: EmojiKind) -> Seq<char> {
    match k {
        EmojiKind::Emoji => "Emoji"@,
        EmojiKind::EmojiZwjSequence => "Emoji_ZWJ_Sequence"@,
        EmojiKind::EmojiSequence => "Emoji_Sequence"@,
        EmojiKind::EmojiPresentation => "Emoji_Presentation"@,
        EmojiKind::ModifierBase => "Emoji_Modifier_Base"@,
        EmojiKind::EmojiComponent => "Emoji_Component"@,
        EmojiKind::EmojiKeycapSequence => "Emoji_Keycap_Sequence"@,
        EmojiKind::EmojiFlagSequence => "Emoji_Flag_Sequence"@,
        EmojiKind::EmojiModifierSequence => "Emoji_Modifier_Sequence"@,
        EmojiKind::ExtendedPictographic => "Extended_Pictographic"@,
        EmojiKind::Other(name) => name@.map_values(|c: char| space_to_underscore(c)),
    }
}

/// Removes every `rgi` from the text and reads underscores as spaces.
fn strip_rgi(s: &str) -> (r: String)
    ensures
        r@ == remove_rgi(s@).map_values(|c: char| underscore_to_space(c)),
{
    let ghost t = s@;
    let n = s.unicode_len();
    let mut out = String::new();
    let mut i: usize = 0;
    assert(t.skip(0) =~= t);
    assert(out@ + remove_rgi(t).map_values(|c: char| underscore_to_space(c))
        =~= remove_rgi(t).map_values(|c: char| underscore_to_space(c)));
    while i < n
        invariant
            i <= n == t.len(),
            t == s@,
            out@ + remove_rgi(t.skip(i as int)).map_values(|c: char| underscore_to_space(c))
                == remove_rgi(t).map_values(|c: char| underscore_to_space(c)),
        decreases n - i,
    {
        let ghost rest = t.skip(i as int);
        let c = s.get_char(i);
        if n - i >= 3 && c == 'r' && s.get_char(i + 1) == 'g' && s.get_char(i + 2) == 'i' {
            assert(rest.skip(3) =~= t.skip(i + 3));
            i = i + 3;
        } else {
            assert(rest.skip(1) =~= t.skip(i + 1));
            let ghost tail = remove_rgi(t.skip(i + 1));
            assert((seq![c] + tail).map_values(|c: char| underscore_to_space(c))
                =~= seq![underscore_to_space(c)] + tail.map_values(|c: char| underscore_to_space(c)));
            let m = if c == '_' { ' ' } else { c };
            let ghost before = out@;
            push_char(&mut out, m);
            assert(out@ + tail.map_values(|c: char| underscore_to_space(c))
                =~= before + (seq![underscore_to_space(c)] + tail.map_values(|c: char| underscore_to_space(c))));
            i = i + 1;
        }
    }
    assert(t.skip(i as int) =~= Seq::<char>::empty());
    assert(remove_rgi(Seq::<char>::empty()).map_values(|c: char| underscore_to_space(c)) =~= Seq::<char>::empty());
    assert(out@ + Seq::<char>::empty() =~= out@);
    out
}

/// The characters of `s` from `start` to `end`, as a new string.
pub(crate) fn substring(s: &str, start: usize, end: usize) -> (r: String)
    requires
        start <= end <= s@.len(),
    ensures
        r@ == s@.subrange(start as int, end as int),
{
    let mut out = String::new();
    let mut i = start;
    while i < end
        invariant
            start <= i <= end <= s@.len(),
            out@ == s@.subrange(start as int, i as int),
        decreases end - i,
    {
        push_char(&mut out, s.get_char(i));
        assert(s@.subrange(start as int, i + 1) =~= s@.subrange(start as int, i as int).push(s@[i as int]));
        i = i + 1;
    }
    out
}

impl EmojiKind {
    /// Reads a kind's name, whatever its case, with or without an `RGI`
    /// prefix, with spaces or underscores. A name that is none of the known
    /// kinds is returned, normalized, as [`EmojiKind::Other`] in the error.
    pub fn parse(kind: &str) -> (r: Result<EmojiKind, UnknownEmojiKind>)
        ensures
            kind_of_name(normalized_kind(kind@)) matches Some(k) ==> r == Ok::<EmojiKind, UnknownEmojiKind>(k),
            kind_of_name(normalized_kind(kind@)) is None
                ==> (r matches Err(UnknownEmojiKind(EmojiKind::Other(t))) && t@ == normalized_kind(kind@)),
    {
        let lower = to_lowercase(kind);
        let mapped = strip_rgi(lower.as_str());
        let (start, end) = trim_bounds(mapped.as_str());
        let t = substring(mapped.as_str(), start, end);
        if t == String::from_str("emoji") || t == String::from_str("basic emoji") {
            Ok(EmojiKind::Emoji)
        } else if t == String::from_str("emoji zwj sequence") {
            Ok(EmojiKind::EmojiZwjSequence)
        } else if t == String::from_str("emoji sequence") {
            Ok(EmojiKind::EmojiSequence)
        } else if t == String::from_str("emoji presentation") {
            Ok(EmojiKind::EmojiPresentation)
        } else if t == String::from_str("modifier base") || t == String::from_str("emoji modifier base") {
            Ok(EmojiKind::ModifierBase)
        } else if t == String::from_str("emoji component") {
            Ok(EmojiKind::EmojiComponent)
        } else if t == String::from_str("emoji keycap sequence") {
            Ok(EmojiKind::EmojiKeycapSequence)
        } else if t == String::from_str("emoji flag sequence") {
            Ok(EmojiKind::EmojiFlagSequence)
        } else if t == String::from_str("emoji modifier sequence") {
            Ok(EmojiKind::EmojiModifierSequence)
        } else if t == String::from_str("extended pictographic") {
            Ok(EmojiKind::ExtendedPictographic)
        } else {
            Err(UnknownEmojiKind(EmojiKind::Other(t)))
        }
    }

    /// The name of this kind as the Unicode data files write it; an unknown
    /// kind is written with underscores for its spaces.
    pub fn to_string(&self) -> (r: String)
        ensures
            r@ == kind_name(*self),
    {
        proof {
            reveal_strlit("Emoji");
            reveal_strlit("Emoji_ZWJ_Sequence");
            reveal_strlit("Emoji_Sequence");
            reveal_strlit("Emoji_Presentation");
            reveal_strlit("Emoji_Modifier_Base");
            reveal_strlit("Emoji_Component");
            reveal_strlit("Emoji_Keycap_Sequence");
            reveal_strlit("Emoji_Flag_Sequence");
            reveal_strlit("Emoji_Modifier_Sequence");
            reveal_strlit("Extended_Pictographic");
        }
        match self {
            EmojiKind::Emoji => String::from_str("Emoji"),
            EmojiKind::EmojiZwjSequence => String::from_str("Emoji_ZWJ_Sequence"),
            EmojiKind::EmojiSequence => String::from_str("Emoji_Sequence"),
            EmojiKind::EmojiPresentation => String::from_str("Emoji_Presentation"),
            EmojiKind::ModifierBase => String::from_str("Emoji_Modifier_Base"),
            EmojiKind::EmojiComponent => String::from_str("Emoji_Component"),
            EmojiKind::EmojiKeycapSequence => String::from_str("Emoji_Keycap_Sequence"),
            EmojiKind::EmojiFlagSequence => String::from_str("Emoji_Flag_Sequence"),
            EmojiKind::EmojiModifierSequence => String::from_str("Emoji_Modifier_Sequence"),
            EmojiKind::ExtendedPictographic => String::from_str("Extended_Pictographic"),
            EmojiKind::Other(name) => {
                let text = name.as_str();
                let n = text.unicode_len();
                let mut out = String::new();
                let mut i: usize = 0;
                while i < n
                    invariant
                        i <= n == text@.len(),
                        text@ == name@,
                        out@ == text@.take(i as int).map_values(|c: char| space_to_underscore(c)),
                    decreases n - i,
                {
                    let c = text.get_char(i);
                    push_char(&mut out, if c == ' ' { '_' } else { c });
                    assert(text@.take(i + 1) =~= text@.take(i as int).push(c));
                    assert(out@ =~= text@.take(i + 1).map_values(|c: char| space_to_underscore(c)));
                    i = i + 1;
                }
                assert(text@.take(n as int) =~= text@);
                out
            },
        }
    }
}

impl std::str::FromStr for EmojiKind {
    type Err = UnknownEmojiKind;

    fn from_str(kind: &str) -> Result<Self, UnknownEmojiKind> {
        EmojiKind::parse(kind)
    }
}

impl From<UnknownEmojiKind> for EmojiKind {
    fn from(kind: UnknownEmojiKind) -> (r: EmojiKind) {
        kind.0
    }
}

impl vstd::std_specs::convert::FromSpecImpl<UnknownEmojiKind> for EmojiKind {
    open spec fn obeys_from_spec() -> bool {
        true
    }

    open spec fn from_spec(kind: UnknownEmojiKind) -> EmojiKind {
        kind.0
    }
}

/// A wrapper that indicates that a given text did not name any of the known
/// emoji kinds; it holds that text as [`EmojiKind::Other`].
#[derive(Debug)]
pub struct UnknownEmojiKind(pub EmojiKind);

impl UnknownEmojiKind {
    /// Returns the unknown emoji kind.
    pub fn get(self) -> (r: EmojiKind)
        ensures
            r == self.0,
    {
        self.0
    }
}

} // verus!
