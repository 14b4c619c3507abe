//! Build items: an emoji, identified by its codepoint sequence alone.
use vstd::prelude::*;
use vstd::string::*;
use crate::codepoints::{name_codes, parse_name_codes, trim, trim_bounds};
use crate::emoji_kind::{lower_of, to_lowercase, substring, EmojiKind};
use crate::hexfmt::{push_char, u32_hex_upper, u32_to_hex_upper};
use std::path::PathBuf;

verus! {

#[verifier::external_type_specification]
#[verifier::external_body]
pub struct ExPathBuf(PathBuf);

/// The offset from a lowercase ASCII letter to its regional indicator symbol.
pub const FLAG_OFFSET: u32 = 0x1f185;
/// The offset from an ASCII character to its tag character.
pub const REGIONAL_OFFSET: u32 = 0xe0000;
/// The tag that ends a subdivision flag.
pub const CANCEL_TAG: u32 = 0xe007f;
/// The black flag that starts a subdivision flag.
pub const BLACK_FLAG: u32 = 0x1f3f4;
/// The zero width joiner.
pub const ZWJ: u32 = 0x200d;
/// The combining enclosing keycap.
pub const KEYCAP: u32 = 0x20e3;

/// One build item: an emoji (or emoji sequence) with optional metadata.
///
/// Its identity is its codepoint sequence alone: two emojis with the same
/// sequence are equal whatever their other fields hold.
#[derive(Debug, Clone)]
pub struct Emoji {
    /// The sequence of Unicode codepoints that represents this emoji.
    pub sequence: Vec<u32>,
    /// The name or description of the emoji, if one is known.
    pub name: Option<String>,
    /// The kinds that are known for this sequence.
    pub kinds: Option<Vec<EmojiKind>>,
    /// The path of the source file for this emoji.
    pub svg_path: Option<PathBuf>,
}

/// An error that can occur while creating an [`Emoji`].
#[derive(Debug)]
pub enum EmojiError {
    /// No codepoint sequence was found.
    NoValidCodepointsFound(String),
    /// The text is no ISO 3166-1 or ISO 3166-2 code.
    NoValidFlagSequence,
    /// The path does not end in a file name.
    NotAFileName(PathBuf),
}

/// Whether `c` is a regional indicator symbol.
pub open spec fn is_regional_indicator(c: u32) -> bool {
    0x1f1e6 <= c && c <= 0x1f1ff
}

/// Whether `c` is a tag letter or a tag digit.
pub open spec fn is_tag_char(c: u32) -> bool {
    (0xe0061 <= c && c <= 0xe007a) || (0xe0030 <= c && c <= 0xe0039)
}

/// A country flag: a non-empty run of regional indicator symbols.
pub open spec fn is_country_seq(s: Seq<u32>) -> bool {
    s.len() > 0 && forall|i: int| 0 <= i < s.len() ==> #[trigger] is_regional_indicator(s[i])
}

/// A subdivision flag: the black flag, tag letters and digits, and the cancel tag.
pub open spec fn is_subdiv_seq(s: Seq<u32>) -> bool {
    &&& s.len() >= 5
    &&& s[0] == BLACK_FLAG
    &&& s.last() == CANCEL_TAG
    &&& forall|i: int| 1 <= i < s.len() - 1 ==> #[trigger] is_tag_char(s[i])
}

/// Whether `kinds` holds the flag kind.
pub open spec fn has_flag_kind(kinds: Option<Vec<EmojiKind>>) -> bool {
    match kinds {
        Some(k) => exists|i: int| 0 <= i < k@.len() && #[trigger] k@[i] is EmojiFlagSequence,
        None => false,
    }
}

/// Whether an emoji is a flag, by its kinds or by the shape of its sequence.
pub open spec fn is_flag_spec(e: Emoji) -> bool {
    has_flag_kind(e.kinds) || is_country_seq(e.sequence@) || is_subdiv_seq(e.sequence@)
}

/// The kinds that the shape of a sequence of two or more codepoints suggests.
pub open spec fn guessed_kinds(s: Seq<u32>, flag: bool) -> Seq<EmojiKind> {
    (if flag { seq![EmojiKind::EmojiFlagSequence] } else { seq![] })
    + (if s.contains(KEYCAP) { seq![EmojiKind::EmojiKeycapSequence] } else { seq![] })
    + (if s.contains(ZWJ) { seq![EmojiKind::EmojiZwjSequence] } else { seq![EmojiKind::EmojiSequence] })
}

/// Whether `u` is the code of a Unicode scalar value.
pub open spec fn is_scalar(u: u32) -> bool {
    u < 0xd800 || (0xdfff < u && u <= 0x10ffff)
}

/// Whether the characters of `r` have exactly the codes `codes`.
pub open spec fn chars_are(r: Seq<char>, codes: Seq<u32>) -> bool {
    r.len() == codes.len() && forall|i: int| 0 <= i < r.len() ==> #[trigger] r[i] as u32 == codes[i]
}

/// The upper case letter that a regional indicator symbol stands for.
pub open spec fn country_letter(c: u32) -> u32 {
    (c - (FLAG_OFFSET + 0x20)) as u32
}

/// The upper case letter or digit that a tag character stands for.
pub open spec fn tag_letter(c: u32) -> u32 {
    if 0xe0061 <= c && c <= 0xe007a { (c - (REGIONAL_OFFSET + 0x20)) as u32 } else { (c - REGIONAL_OFFSET) as u32 }
}

/// The ISO 3166-2 code of a subdivision flag: two country characters, a dash, the rest.
pub open spec fn subdiv_codes(s: Seq<u32>) -> Seq<u32> {
    s.subrange(1, 3).map_values(|c: u32| tag_letter(c)) + seq![0x2du32]
        + s.subrange(3, s.len() - 1).map_values(|c: u32| tag_letter(c))
}

/// The codepoints in uppercase hexadecimal, joined by dashes (`1F3F3-FE0F`).
pub open spec fn upper_join(v: Seq<u32>) -> Seq<char>
    decreases v.len(),
{
    if v.len() == 0 {
        seq![]
    } else if v.len() == 1 {
        u32_hex_upper(v[0] as nat)
    } else {
        upper_join(v.drop_last()) + seq!['-'] + u32_hex_upper(v.last() as nat)
    }
}

/// The text before the first dot.
pub open spec fn before_dot(s: Seq<char>) -> Seq<char>
    decreases s.len(),
{
    if s.len() == 0 {
        s
    } else if s[0] == '.' {
        seq![]
    } else {
        seq![s[0]] + before_dot(s.skip(1))
    }
}

/// The normalized flag code of a file name: before the first dot, trimmed, in lower case.
pub open spec fn flag_text(s: Seq<char>) -> Seq<char> {
    lower_of(trim(before_dot(s)))
}

/// Whether `c` is an ASCII lowercase letter.
pub open spec fn is_lower(c: char) -> bool {
    'a' as u32 <= c as u32 && c as u32 <= 'z' as u32
}

/// Whether `c` is an ASCII lowercase letter or digit.
pub open spec fn is_lower_or_digit(c: char) -> bool {
    is_lower(c) || ('0' as u32 <= c as u32 && c as u32 <= '9' as u32)
}

/// An ISO 3166-1 code: one or more lowercase letters.
pub open spec fn is_country_code(t: Seq<char>) -> bool {
    t.len() > 0 && forall|i: int| 0 <= i < t.len() ==> #[trigger] is_lower(t[i])
}

/// An ISO 3166-2 code with its dash at `p`: letters, a dash, letters and digits.
pub open spec fn is_subdiv_code(t: Seq<char>, p: int) -> bool {
    &&& 0 < p < t.len() - 1
    &&& t[p] == '-'
    &&& forall|i: int| 0 <= i < p ==> #[trigger] is_lower(t[i])
    &&& forall|i: int| p < i < t.len() ==> #[trigger] is_lower_or_digit(t[i])
}

/// The regional indicator symbols of a country code.
pub open spec fn country_flag_codes(t: Seq<char>) -> Seq<u32> {
    t.map_values(|c: char| (c as u32 + FLAG_OFFSET) as u32)
}

/// The tag sequence of a subdivision code with its dash at `p`.
pub open spec fn subdiv_flag_codes(t: Seq<char>, p: int) -> Seq<u32> {
    seq![BLACK_FLAG] + t.take(p).map_values(|c: char| (c as u32 + REGIONAL_OFFSET) as u32)
        + t.skip(p + 1).map_values(|c: char| (c as u32 + REGIONAL_OFFSET) as u32) + seq![CANCEL_TAG]
}

/// Relies on `char::from_u32`: a character exactly for the codes of Unicode scalar values.
#[verifier::external_body]
pub(crate) fn char_of(u: u32) -> (r: Option<char>)
    ensures
        r is Some <==> is_scalar(u),
        r is Some ==> r->0 as u32 == u,
{
    char::from_u32(u)
}

/// Relies on `PathBuf::clone`: a path equal to the given one.
#[verifier::external_body]
fn clone_path(p: &PathBuf) -> (r: PathBuf)
    ensures
        r == *p,
{
    p.clone()
}

/// A copy of a list of kinds.
pub fn copy_kinds(kinds: &Vec<EmojiKind>) -> (r: Vec<EmojiKind>)
    ensures
        r@ == kinds@,
{
    let mut out: Vec<EmojiKind> = Vec::new();
    let mut i: usize = 0;
    while i < kinds.len()
        invariant
            i <= kinds@.len(),
            out@ == kinds@.take(i as int),
        decreases kinds.len() - i,
    {
        out.push(kinds[i].copy());
        assert(kinds@.take(i + 1) =~= kinds@.take(i as int).push(kinds@[i as int]));
        i = i + 1;
    }
    assert(kinds@.take(i as int) =~= kinds@);
    out
}

impl From<Vec<u32>> for Emoji {
    fn from(sequence: Vec<u32>) -> (r: Emoji) {
        Emoji { sequence, name: None, kinds: None, svg_path: None }
    }
}

impl vstd::std_specs::convert::FromSpecImpl<Vec<u32>> for Emoji {
    open spec fn obeys_from_spec() -> bool {
        true
    }

    open spec fn from_spec(v: Vec<u32>) -> Emoji {
        Emoji { sequence: v, name: None, kinds: None, svg_path: None }
    }
}

impl PartialEq for Emoji {
    /// Compares two emojis by their codepoint sequences.
    fn eq(&self, o: &Emoji) -> (r: bool) {
        same_sequence(&self.sequence, &o.sequence)
    }
}

impl vstd::std_specs::cmp::PartialEqSpecImpl for Emoji {
    open spec fn obeys_eq_spec() -> bool {
        true
    }

    open spec fn eq_spec(&self, o: &Emoji) -> bool {
        self.sequence@ == o.sequence@
    }
}

impl Eq for Emoji {
}

/// Whether two codepoint sequences are equal.
pub fn same_sequence(a: &Vec<u32>, b: &Vec<u32>) -> (r: bool)
    ensures
        r == (a@ == b@),
{
    if a.len() != b.len() {
        return false;
    }
    let mut i: usize = 0;
    while i < a.len()
        invariant
            a.len() == b.len(),
            i <= a.len(),
            a@.take(i as int) == b@.take(i as int),
        decreases a.len() - i,
    {
        if a[i] != b[i] {
            assert(a@.take(i + 1)[i as int] != b@.take(i + 1)[i as int]);
            return false;
        }
        assert(a@.take(i + 1) =~= a@.take(i as int).push(a[i as int]));
        assert(b@.take(i + 1) =~= b@.take(i as int).push(b[i as int]));
        i = i + 1;
    }
    assert(a@.take(a.len() as int) =~= a@);
    assert(b@.take(b.len() as int) =~= b@);
    true
}

/// Whether `v` holds `x`.
pub fn contains_code(v: &Vec<u32>, x: u32) -> (r: bool)
    ensures
        r == v@.contains(x),
{
    let mut i: usize = 0;
    while i < v.len()
        invariant
            i <= v.len(),
            forall|j: int| 0 <= j < i ==> v@[j] != x,
        decreases v.len() - i,
    {
        if v[i] == x {
            return true;
        }
        i = i + 1;
    }
    false
}

impl Emoji {
    /// Creates an emoji from a codepoint sequence; an empty sequence is refused.
    pub fn from_u32_sequence(code_sequence: Vec<u32>) -> (r: Result<Emoji, EmojiError>)
        ensures
            code_sequence@.len() > 0 <==> r is Ok,
            r is Ok ==> r->Ok_0.sequence@ == code_sequence@ && r->Ok_0.name is None
                && r->Ok_0.kinds is None && r->Ok_0.svg_path is None,
            r is Err ==> r->Err_0 is NoValidCodepointsFound,
    {
        if code_sequence.len() > 0 {
            Ok(Emoji::from(code_sequence))
        } else {
            Err(EmojiError::NoValidCodepointsFound(String::from_str("Empty code sequence")))
        }
    }

    /// Parses a codepoint sequence from a file name (`emoji_u1f973.svg`,
    /// `1f3f3-fe0f-200d-1f308.png`): each codepoint is one to eight hexadecimal
    /// digits followed by `-`, `_`, `.`, a space or the end of the name.
    pub fn from_sequence(sequence: &str) -> (r: Result<Emoji, EmojiError>)
        ensures
            name_codes(sequence@, 0).len() > 0 <==> r is Ok,
            r matches Ok(e) ==> e.sequence@ == name_codes(sequence@, 0) && e.name is None
                && e.kinds is None && e.svg_path is None,
            r is Err ==> r->Err_0 is NoValidCodepointsFound,
    {
        let codes = parse_name_codes(sequence);
        Emoji::from_u32_sequence(codes)
    }

    /// Creates a flag emoji from an ISO 3166-1 country code (`DE`) or an
    /// ISO 3166-2 subdivision code (`DE-NW`). Everything from the first dot on
    /// (a file extension) is ignored, as are surrounding whitespace and case.
    pub fn from_flag(flag: &str) -> (r: Result<Emoji, EmojiError>)
        ensures
            is_country_code(flag_text(flag@)) ==> (r matches Ok(e)
                && e.sequence@ == country_flag_codes(flag_text(flag@)) && e.name is None
                && e.kinds is None && e.svg_path is None),
            forall|p: int| !is_country_code(flag_text(flag@)) && is_subdiv_code(flag_text(flag@), p)
                ==> (r matches Ok(e) && e.sequence@ == subdiv_flag_codes(flag_text(flag@), p)
                && e.name is None && e.kinds is None && e.svg_path is None),
            !is_country_code(flag_text(flag@)) && !(exists|p: int| is_subdiv_code(flag_text(flag@), p))
                ==> r matches Err(EmojiError::NoValidFlagSequence),
    {
        let n = flag.unicode_len();
        let mut dot: usize = 0;
        assert(flag@.skip(0) =~= flag@);
        assert(flag@.take(0) + before_dot(flag@) =~= before_dot(flag@));
        while dot < n && flag.get_char(dot) != '.'
            invariant
                dot <= n == flag@.len(),
                before_dot(flag@) == flag@.take(dot as int) + before_dot(flag@.skip(dot as int)),
            decreases n - dot,
        {
            proof {
                let rest = flag@.skip(dot as int);
                assert(rest.skip(1) =~= flag@.skip(dot + 1));
                assert(flag@.take(dot + 1) =~= flag@.take(dot as int) + seq![rest[0]]);
            }
            dot = dot + 1;
        }
        proof {
            let rest = flag@.skip(dot as int);
            if dot < n {
                assert(rest[0] == '.');
            } else {
                assert(rest.len() == 0);
            }
            assert(flag@.take(dot as int) + before_dot(rest) =~= flag@.take(dot as int));
            assert(flag@.take(dot as int) =~= flag@.subrange(0, dot as int));
        }
        let stem = substring(flag, 0, dot);
        let (start, end) = trim_bounds(stem.as_str());
        let trimmed = substring(stem.as_str(), start, end);
        let text = to_lowercase(trimmed.as_str());
        let ghost t = text@;
        assert(t == flag_text(flag@));
        let len = text.unicode_len();
        let mut dash: usize = 0;
        let mut letters = true;
        while dash < len && text.get_char(dash) != '-'
            invariant
                dash <= len == t.len(),
                t == text@,
                letters <==> forall|i: int| 0 <= i < dash ==> #[trigger] is_lower(t[i]),
                forall|i: int| 0 <= i < dash ==> t[i] != '-',
            decreases len - dash,
        {
            let c = text.get_char(dash);
            let u = c as u32;
            let ghost was = letters;
            if !('a' as u32 <= u && u <= 'z' as u32) {
                letters = false;
            }
            proof {
                assert(is_lower(t[dash as int]) == ('a' as u32 <= u && u <= 'z' as u32));
                if !was {
                    let k = choose|k: int| 0 <= k < dash && !is_lower(t[k]);
                    assert(0 <= k < dash + 1 && !is_lower(t[k]));
                }
            }
            dash = dash + 1;
        }
        if dash == len {
            if letters && len > 0 {
                let mut codes: Vec<u32> = Vec::new();
                let mut i: usize = 0;
                while i < len
                    invariant
                        i <= len == t.len(),
                        t == text@,
                        is_country_code(t),
                        codes@ == country_flag_codes(t).take(i as int),
                    decreases len - i,
                {
                    let c = text.get_char(i);
                    assert(is_lower(t[i as int]));
                    codes.push(c as u32 + FLAG_OFFSET);
                    assert(codes@ =~= country_flag_codes(t).take(i + 1));
                    i = i + 1;
                }
                assert(codes@ =~= country_flag_codes(t));
                return Ok(Emoji::from(codes));
            }
            proof {
                assert forall|p: int| !is_subdiv_code(t, p) by {
                    if is_subdiv_code(t, p) {
                        assert(t[p] == '-');
                    }
                }
                if is_country_code(t) {
                    assert(letters);
                }
            }
            return Err(EmojiError::NoValidFlagSequence);
        }
        assert(!is_country_code(t)) by {
            assert(!is_lower(t[dash as int]));
        }
        let mut ok = letters && dash > 0 && dash + 1 < len;
        let mut j: usize = dash + 1;
        while j < len
            invariant
                dash < len == t.len(),
                t == text@,
                dash + 1 <= j <= len,
                ok <==> (letters && dash > 0 && dash + 1 < len
                    && forall|i: int| dash < i < j ==> #[trigger] is_lower_or_digit(t[i])),
            decreases len - j,
        {
            let c = text.get_char(j);
            let u = c as u32;
            let ghost was = ok;
            if !(('a' as u32 <= u && u <= 'z' as u32) || ('0' as u32 <= u && u <= '9' as u32)) {
                ok = false;
            }
            proof {
                assert(is_lower_or_digit(t[j as int]) == (('a' as u32 <= u && u <= 'z' as u32) || ('0' as u32 <= u && u <= '9' as u32)));
                if !was && letters && dash > 0 && dash + 1 < len {
                    let k = choose|k: int| dash < k < j && !is_lower_or_digit(t[k]);
                    assert(dash < k < j + 1 && !is_lower_or_digit(t[k]));
                }
            }
            j = j + 1;
        }
        proof {
            assert forall|p: int| is_subdiv_code(t, p) implies p == dash by {
                if p < dash {
                    assert(t[p] != '-');
                } else if p > dash {
                    assert(!is_lower(t[dash as int]));
                }
            }
        }
        if !ok {
            proof {
                assert forall|p: int| !is_subdiv_code(t, p) by {
                    if is_subdiv_code(t, p) {
                        assert(p == dash);
                        assert(letters);
                    }
                }
            }
            return Err(EmojiError::NoValidFlagSequence);
        }
        let ghost dp = dash as int;
        let mut codes: Vec<u32> = Vec::new();
        codes.push(BLACK_FLAG);
        let mut i: usize = 0;
        while i < len
            invariant
                i <= len == t.len(),
                t == text@,
                dp == dash as int,
                is_subdiv_code(t, dp),
                i <= dash ==> codes@ == seq![BLACK_FLAG] + t.take(i as int).map_values(|c: char| (c as u32 + REGIONAL_OFFSET) as u32),
                i > dash ==> codes@ == seq![BLACK_FLAG] + t.take(dp).map_values(|c: char| (c as u32 + REGIONAL_OFFSET) as u32)
                    + t.subrange(dp + 1, i as int).map_values(|c: char| (c as u32 + REGIONAL_OFFSET) as u32),
            decreases len - i,
        {
            let c = text.get_char(i);
            if i != dash {
                if i < dash {
                    assert(is_lower(t[i as int]));
                } else {
                    assert(is_lower_or_digit(t[i as int]));
                }
                codes.push(c as u32 + REGIONAL_OFFSET);
            }
            proof {
                if i < dash {
                    assert(t.take(i + 1) =~= t.take(i as int).push(c));
                    assert(codes@ =~= seq![BLACK_FLAG] + t.take(i + 1).map_values(|c: char| (c as u32 + REGIONAL_OFFSET) as u32));
                } else if i == dash {
                    assert(t.subrange(dp + 1, i + 1) =~= Seq::<char>::empty());
                    assert(codes@ =~= seq![BLACK_FLAG] + t.take(dp).map_values(|c: char| (c as u32 + REGIONAL_OFFSET) as u32)
                        + t.subrange(dp + 1, i + 1).map_values(|c: char| (c as u32 + REGIONAL_OFFSET) as u32));
                } else {
                    assert(t.subrange(dp + 1, i + 1) =~= t.subrange(dp + 1, i as int).push(c));
                    assert(codes@ =~= seq![BLACK_FLAG] + t.take(dp).map_values(|c: char| (c as u32 + REGIONAL_OFFSET) as u32)
                        + t.subrange(dp + 1, i + 1).map_values(|c: char| (c as u32 + REGIONAL_OFFSET) as u32));
                }
            }
            i = i + 1;
        }
        codes.push(CANCEL_TAG);
        assert(t.subrange(dp + 1, len as int) =~= t.skip(dp + 1));
        assert(codes@ =~= subdiv_flag_codes(t, dp));
        Ok(Emoji::from(codes))
    }

    /// Guesses the single kind of this emoji from the shape of its sequence.
    pub fn guess_kind(&self) -> (r: Option<EmojiKind>)
        ensures
            self.sequence@.len() == 0 <==> r is None,
            self.sequence@.len() == 1 ==> r == Some(EmojiKind::Emoji),
            self.sequence@.len() > 1 && self.sequence@.contains(ZWJ) ==> r == Some(EmojiKind::EmojiZwjSequence),
            self.sequence@.len() > 1 && !self.sequence@.contains(ZWJ) ==> r == Some(EmojiKind::EmojiSequence),
    {
        if self.sequence.len() == 0 {
            None
        } else if self.sequence.len() == 1 {
            Some(EmojiKind::Emoji)
        } else if contains_code(&self.sequence, ZWJ) {
            Some(EmojiKind::EmojiZwjSequence)
        } else {
            Some(EmojiKind::EmojiSequence)
        }
    }

    /// Guesses the kinds of this emoji from the shape of its sequence: a single
    /// character is an emoji; a longer sequence may be a flag, a keycap sequence,
    /// and is either a ZWJ sequence or a plain sequence.
    pub fn guess_kinds(&self) -> (r: Option<Vec<EmojiKind>>)
        ensures
            self.sequence@.len() == 0 <==> r is None,
            self.sequence@.len() == 1 ==> r is Some && r->0@ == seq![EmojiKind::Emoji],
            self.sequence@.len() > 1 ==> r is Some
                && r->0@ == guessed_kinds(self.sequence@, is_flag_spec(*self)),
    {
        if self.sequence.len() == 0 {
            None
        } else if self.sequence.len() == 1 {
            Some(vec![EmojiKind::Emoji])
        } else {
            let flag = self.is_flag();
            let keycap = contains_code(&self.sequence, KEYCAP);
            let mut kinds: Vec<EmojiKind> = Vec::new();
            if flag {
                kinds.push(EmojiKind::EmojiFlagSequence);
            }
            if keycap {
                kinds.push(EmojiKind::EmojiKeycapSequence);
            }
            if contains_code(&self.sequence, ZWJ) {
                kinds.push(EmojiKind::EmojiZwjSequence);
            } else {
                kinds.push(EmojiKind::EmojiSequence);
            }
            assert(kinds@ =~= guessed_kinds(self.sequence@, flag));
            Some(kinds)
        }
    }

    /// Assigns a source file path to the emoji.
    pub fn set_path(&mut self, path: PathBuf)
        ensures
            final(self).svg_path == Some(path),
            final(self).sequence == old(self).sequence,
            final(self).name == old(self).name,
            final(self).kinds == old(self).kinds,
    {
        self.svg_path = Some(path);
    }

    /// Whether this emoji is a flag, by its kinds or by the shape of its sequence.
    pub fn is_flag(&self) -> (r: bool)
        ensures
            r == is_flag_spec(*self),
    {
        let kind_flag = match &self.kinds {
            Some(kinds) => {
                let mut found = false;
                let mut i: usize = 0;
                while i < kinds.len()
                    invariant
                        i <= kinds.len(),
                        found <==> exists|j: int| 0 <= j < i && #[trigger] kinds@[j] is EmojiFlagSequence,
                    decreases kinds.len() - i,
                {
                    if let EmojiKind::EmojiFlagSequence = kinds[i] {
                        found = true;
                    }
                    i = i + 1;
                }
                found
            },
            None => false,
        };
        kind_flag || self.is_country_flag() || self.is_subdiv_flag()
    }

    /// Whether this is a country's flag (`DE`, `EU`): regional indicators only.
    pub fn is_country_flag(&self) -> (r: bool)
        ensures
            r == is_country_seq(self.sequence@),
    {
        if self.sequence.len() == 0 {
            return false;
        }
        let mut i: usize = 0;
        while i < self.sequence.len()
            invariant
                i <= self.sequence@.len(),
                forall|j: int| 0 <= j < i ==> #[trigger] is_regional_indicator(self.sequence@[j]),
            decreases self.sequence.len() - i,
        {
            let c = self.sequence[i];
            if !(0x1f1e6 <= c && c <= 0x1f1ff) {
                assert(!is_regional_indicator(self.sequence@[i as int]));
                return false;
            }
            i = i + 1;
        }
        true
    }

    /// Whether this is a subdivision flag (`DE-NW`, `AT-5`, `US-CA`).
    pub fn is_subdiv_flag(&self) -> (r: bool)
        ensures
            r == is_subdiv_seq(self.sequence@),
    {
        let seq = &self.sequence;
        let n = seq.len();
        if n < 5 || seq[0] != BLACK_FLAG || seq[n - 1] != CANCEL_TAG {
            return false;
        }
        let mut i: usize = 1;
        while i < n - 1
            invariant
                1 <= i <= n - 1,
                n == seq@.len(),
                seq@ == self.sequence@,
                forall|j: int| 1 <= j < i ==> #[trigger] is_tag_char(seq@[j]),
            decreases n - 1 - i,
        {
            let c = seq[i];
            if !((0xe0061 <= c && c <= 0xe007a) || (0xe0030 <= c && c <= 0xe0039)) {
                assert(!is_tag_char(seq@[i as int]));
                return false;
            }
            i = i + 1;
        }
        true
    }

    /// The ISO 3166-1 code in upper case, if this is a country flag.
    pub fn get_country_name(&self) -> (r: Option<String>)
        ensures
            r is Some <==> is_country_seq(self.sequence@),
            r is Some ==> chars_are(r->0@, self.sequence@.map_values(|c: u32| country_letter(c))),
    {
        if !self.is_country_flag() {
            return None;
        }
        let ghost codes = self.sequence@.map_values(|c: u32| country_letter(c));
        let mut s = String::new();
        let mut i: usize = 0;
        while i < self.sequence.len()
            invariant
                i <= self.sequence@.len(),
                is_country_seq(self.sequence@),
                codes == self.sequence@.map_values(|c: u32| country_letter(c)),
                chars_are(s@, codes.take(i as int)),
            decreases self.sequence.len() - i,
        {
            let c = self.sequence[i];
            assert(is_regional_indicator(self.sequence@[i as int]));
            let ch = char_of(c - (FLAG_OFFSET + 0x20));
            match ch {
                Some(ch) => push_char(&mut s, ch),
                None => {},
            }
            assert(codes.take(i + 1) =~= codes.take(i as int).push(codes[i as int]));
            i = i + 1;
        }
        assert(codes.take(i as int) =~= codes);
        Some(s)
    }

    /// The ISO 3166-2 code in upper case (`DE-NW`), if this is a subdivision flag.
    pub fn get_subdiv_name(&self) -> (r: Option<String>)
        ensures
            r is Some <==> is_subdiv_seq(self.sequence@),
            r is Some ==> chars_are(r->0@, subdiv_codes(self.sequence@)),
    {
        if !self.is_subdiv_flag() {
            return None;
        }
        let ghost s0 = self.sequence@;
        let ghost codes = subdiv_codes(s0);
        let n = self.sequence.len();
        let mut s = String::new();
        let mut i: usize = 1;
        while i < n - 1
            invariant
                1 <= i <= n - 1,
                n == s0.len(),
                s0 == self.sequence@,
                is_subdiv_seq(s0),
                codes == subdiv_codes(s0),
                i <= 3 ==> chars_are(s@, codes.take(i - 1)),
                i > 3 ==> chars_are(s@, codes.take(i as int)),
            decreases n - 1 - i,
        {
            if i == 3 {
                assert(codes[2] == 0x2d);
                push_char(&mut s, '-');
                assert(codes.take(3) =~= codes.take(2).push(codes[2]));
            }
            let c = self.sequence[i];
            assert(is_tag_char(s0[i as int]));
            let code = if 0xe0061 <= c && c <= 0xe007a { c - (REGIONAL_OFFSET + 0x20) } else { c - REGIONAL_OFFSET };
            let ch = char_of(code);
            match ch {
                Some(ch) => push_char(&mut s, ch),
                None => {},
            }
            proof {
                if i < 3 {
                    assert(codes[i - 1] == tag_letter(s0[i as int]));
                    assert(codes.take(i as int) =~= codes.take(i - 1).push(codes[i - 1]));
                } else {
                    assert(codes[i as int] == tag_letter(s0[i as int]));
                    assert(codes.take(i + 1) =~= codes.take(i as int).push(codes[i as int]));
                }
            }
            i = i + 1;
        }
        assert(codes.len() == n - 1);
        assert(codes.take(i as int) =~= codes);
        Some(s)
    }

    /// The ISO 3166-1 or ISO 3166-2 code in upper case, if this emoji's sequence
    /// is a country or subdivision flag.
    pub fn get_flag_name(&self) -> (r: Option<String>)
        ensures
            r is Some <==> is_country_seq(self.sequence@) || is_subdiv_seq(self.sequence@),
            is_country_seq(self.sequence@) ==> chars_are(r->0@, self.sequence@.map_values(|c: u32| country_letter(c))),
            !is_country_seq(self.sequence@) && is_subdiv_seq(self.sequence@)
                ==> chars_are(r->0@, subdiv_codes(self.sequence@)),
    {
        match self.get_country_name() {
            Some(n) => Some(n),
            None => self.get_subdiv_name(),
        }
    }

    /// The emoji itself, as the characters of its sequence (codes that are no
    /// Unicode scalar value are left out).
    pub fn display_emoji(&self) -> (r: String)
        ensures
            chars_are(r@, self.sequence@.filter(|c: u32| is_scalar(c))),
    {
        let ghost s0 = self.sequence@;
        let mut s = String::new();
        let mut i: usize = 0;
        while i < self.sequence.len()
            invariant
                i <= s0.len(),
                s0 == self.sequence@,
                chars_are(s@, s0.take(i as int).filter(|c: u32| is_scalar(c))),
            decreases self.sequence.len() - i,
        {
            let c = self.sequence[i];
            proof {
                assert(s0.take(i + 1) =~= s0.take(i as int).push(c));
                s0.take(i as int).lemma_filter_push(c, |c: u32| is_scalar(c));
            }
            match char_of(c) {
                Some(ch) => push_char(&mut s, ch),
                None => {},
            }
            i = i + 1;
        }
        assert(s0.take(i as int) =~= s0);
        s
    }

    /// A human-readable name: the emoji's name if it has one, else `Flag `
    /// and the flag's code for a flag sequence, else the codepoints in upper
    /// case hexadecimal joined by dashes in square brackets (`[1F3F3-FE0F]`).
    pub fn to_string(&self) -> (r: String)
        ensures
            self.name matches Some(n) ==> r@ == n@,
            self.name is None && (is_country_seq(self.sequence@) || is_subdiv_seq(self.sequence@))
                ==> r@.take(5) == "Flag "@,
            self.name is None && is_country_seq(self.sequence@)
                ==> chars_are(r@.skip(5), self.sequence@.map_values(|c: u32| country_letter(c))),
            self.name is None && !is_country_seq(self.sequence@) && is_subdiv_seq(self.sequence@)
                ==> chars_are(r@.skip(5), subdiv_codes(self.sequence@)),
            self.name is None && !is_country_seq(self.sequence@) && !is_subdiv_seq(self.sequence@)
                ==> r@ == seq!['['] + upper_join(self.sequence@) + seq![']'],
    {
        proof { reveal_strlit("Flag "); }
        match &self.name {
            Some(n) => n.clone(),
            None => match self.get_flag_name() {
                Some(f) => {
                    let mut s = String::from_str("Flag ");
                    s.append(f.as_str());
                    assert(s@.take(5) =~= "Flag "@);
                    assert(s@.skip(5) =~= f@);
                    s
                },
                None => {
                    let mut s = String::new();
                    push_char(&mut s, '[');
                    let mut i: usize = 0;
                    while i < self.sequence.len()
                        invariant
                            i <= self.sequence@.len(),
                            s@ == seq!['['] + upper_join(self.sequence@.take(i as int)),
                        decreases self.sequence.len() - i,
                    {
                        let ghost before = self.sequence@.take(i as int);
                        assert(self.sequence@.take(i + 1) =~= before.push(self.sequence@[i as int]));
                        assert(self.sequence@.take(i + 1).drop_last() =~= before);
                        if i > 0 {
                            push_char(&mut s, '-');
                        }
                        let h = u32_to_hex_upper(self.sequence[i]);
                        s.append(h.as_str());
                        proof {
                            if i == 0 {
                                assert(upper_join(before) =~= Seq::<char>::empty());
                            }
                            assert(s@ =~= seq!['['] + upper_join(self.sequence@.take(i + 1)));
                        }
                        i = i + 1;
                    }
                    assert(self.sequence@.take(i as int) =~= self.sequence@);
                    push_char(&mut s, ']');
                    s
                },
            },
        }
    }

    /// This emoji under another sequence, with the same metadata.
    pub fn alias(&self, alias_sequence: Vec<u32>) -> (r: Self)
        ensures
            r.sequence@ == alias_sequence@,
            r.name == self.name,
            r.kinds is Some <==> self.kinds is Some,
            r.kinds is Some ==> r.kinds->0@ == self.kinds->0@,
            r.svg_path == self.svg_path,
    {
        let kinds = match &self.kinds {
            Some(k) => Some(copy_kinds(k)),
            None => None,
        };
        let svg_path = match &self.svg_path {
            Some(p) => Some(clone_path(p)),
            None => None,
        };
        Emoji { sequence: alias_sequence, name: self.name.clone(), kinds, svg_path }
    }
}

} // verus!
