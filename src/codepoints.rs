//! The text form of a codepoint sequence: lowercase hexadecimal codepoints
//! separated by single spaces (`1f3f3 fe0f 200d 1f308`).
use vstd::prelude::*;
use vstd::string::*;
use crate::hexfmt::{pow16, all_hex, hex_digit_value, hex_value, hex_digit, hex_val, is_hex_digit, lemma_u32_hex, push_char, u32_hex, u32_to_hex};

verus! {

/// The characters that `char::is_whitespace` accepts (Unicode `White_Space`).
pub open spec fn is_ws(c: char) -> bool {
    let u = c as u32;
    (0x09 <= u && u <= 0x0d) || u == 0x20 || u == 0x85 || u == 0xa0 || u == 0x1680
        || (0x2000 <= u && u <= 0x200a) || u == 0x2028 || u == 0x2029 || u == 0x202f
        || u == 0x205f || u == 0x3000
}

/// `s` without its leading whitespace.
pub open spec fn trim_start(s: Seq<char>) -> Seq<char>
    decreases s.len(),
{
    if s.len() > 0 && is_ws(s[0]) { trim_start(s.drop_first()) } else { s }
}

/// `s` without its trailing whitespace.
pub open spec fn trim_end(s: Seq<char>) -> Seq<char>
    decreases s.len(),
{
    if s.len() > 0 && is_ws(s.last()) { trim_end(s.drop_last()) } else { s }
}

/// `s` without leading and trailing whitespace, as `str::trim` gives it.
pub open spec fn trim(s: Seq<char>) -> Seq<char> {
    trim_end(trim_start(s))
}

/// The digits of a token: all of it but an optional leading `+`.
pub open spec fn token_digits(tok: Seq<char>) -> Seq<char> {
    if tok.len() > 0 && tok[0] == '+' { tok.drop_first() } else { tok }
}

/// What `u32::from_str_radix(tok, 16)` gives: the value of an optional `+` and
/// one or more hexadecimal digits, when it fits in 32 bits.
pub open spec fn token_value(tok: Seq<char>) -> Option<u32> {
    let d = token_digits(tok);
    if d.len() > 0 && all_hex(d) && hex_val(d) < 0x1_0000_0000 {
        Some(hex_val(d) as u32)
    } else {
        None
    }
}

/// The codepoint of a token, if it has one.
pub open spec fn emit(tok: Seq<char>) -> Seq<u32> {
    match token_value(tok) {
        Some(v) => seq![v],
        None => seq![],
    }
}

/// The codepoints of the space-separated tokens of `s`, where `cur` is the part
/// of the first token that was read before `s`; tokens that are no number are skipped.
pub open spec fn parse_tokens(s: Seq<char>, cur: Seq<char>) -> Seq<u32>
    decreases s.len(),
{
    if s.len() == 0 {
        emit(cur)
    } else if s[0] == ' ' {
        emit(cur) + parse_tokens(s.drop_first(), seq![])
    } else {
        parse_tokens(s.drop_first(), cur.push(s[0]))
    }
}

/// The codepoint sequence that a cache row's first column denotes.
pub open spec fn parse_sequence(s: Seq<char>) -> Seq<u32> {
    parse_tokens(trim(s), seq![])
}

/// The text form of a codepoint sequence.
pub open spec fn join_hex(v: Seq<u32>) -> Seq<char>
    decreases v.len(),
{
    if v.len() == 0 {
        seq![]
    } else if v.len() == 1 {
        u32_hex(v[0] as nat)
    } else {
        u32_hex(v[0] as nat) + seq![' '] + join_hex(v.drop_first())
    }
}

proof fn lemma_join_push(v: Seq<u32>, x: u32)
    ensures
        join_hex(v.push(x)) == if v.len() == 0 {
            u32_hex(x as nat)
        } else {
            join_hex(v) + seq![' '] + u32_hex(x as nat)
        },
    decreases v.len(),
{
    if v.len() == 0 {
        assert(v.push(x)[0] == x);
    } else if v.len() == 1 {
        assert(v.push(x).drop_first() =~= seq![x]);
        assert(join_hex(seq![x]) == u32_hex(x as nat));
        assert(v.push(x)[0] == v[0]);
    } else {
        assert(v.push(x)[0] == v[0]);
        lemma_join_push(v.drop_first(), x);
        assert(v.push(x).drop_first() =~= v.drop_first().push(x));
        assert(join_hex(v.push(x)) =~= join_hex(v) + seq![' '] + u32_hex(x as nat));
    }
}

proof fn lemma_token_prefix(tok: Seq<char>, rest: Seq<char>, cur: Seq<char>)
    requires
        forall|i: int| 0 <= i < tok.len() ==> tok[i] != ' ',
    ensures
        parse_tokens(tok + rest, cur) == parse_tokens(rest, cur + tok),
    decreases tok.len(),
{
    if tok.len() == 0 {
        assert(tok + rest =~= rest);
        assert(cur + tok =~= cur);
    } else {
        let t2 = tok.drop_first();
        assert((tok + rest).drop_first() =~= t2 + rest);
        assert((tok + rest)[0] == tok[0]);
        lemma_token_prefix(t2, rest, cur.push(tok[0]));
        assert(cur.push(tok[0]) + t2 =~= cur + tok);
    }
}

proof fn lemma_hex_not_space(s: Seq<char>)
    requires
        all_hex(s),
    ensures
        forall|i: int| 0 <= i < s.len() ==> s[i] != ' ' && !is_ws(s[i]),
{
    assert forall|i: int| 0 <= i < s.len() implies s[i] != ' ' && !is_ws(s[i]) by {
        assert(is_hex_digit(s[i]));
    }
}

proof fn lemma_u32_token(x: u32)
    ensures
        emit(u32_hex(x as nat)) == seq![x],
        !is_ws(u32_hex(x as nat)[0]),
        !is_ws(u32_hex(x as nat).last()),
        forall|i: int| 0 <= i < u32_hex(x as nat).len() ==> u32_hex(x as nat)[i] != ' ',
{
    let h = u32_hex(x as nat);
    lemma_u32_hex(x as nat);
    lemma_hex_not_space(h);
    assert(is_hex_digit(h[0]));
    assert(token_digits(h) == h);
}

proof fn lemma_join_shape(v: Seq<u32>)
    requires
        v.len() > 0,
    ensures
        join_hex(v).len() > 0,
        !is_ws(join_hex(v)[0]),
        !is_ws(join_hex(v).last()),
        parse_tokens(join_hex(v), seq![]) == v,
    decreases v.len(),
{
    let h = u32_hex(v[0] as nat);
    lemma_u32_token(v[0]);
    lemma_u32_hex(v[0] as nat);
    if v.len() == 1 {
        lemma_token_prefix(h, seq![], seq![]);
        assert(h + Seq::<char>::empty() =~= h);
        assert(Seq::<char>::empty() + h =~= h);
        assert(v =~= seq![v[0]]);
    } else {
        let rest = v.drop_first();
        lemma_join_shape(rest);
        let tail = seq![' '] + join_hex(rest);
        assert(join_hex(v) =~= h + tail);
        lemma_token_prefix(h, tail, seq![]);
        assert(Seq::<char>::empty() + h =~= h);
        assert(tail.drop_first() =~= join_hex(rest));
        assert(parse_tokens(tail, h) == emit(h) + parse_tokens(join_hex(rest), seq![]));
        assert(v =~= seq![v[0]] + rest);
        assert(join_hex(v)[0] == h[0]);
        assert(join_hex(v).last() == join_hex(rest).last());
    }
}

/// Writing a sequence and reading it back gives the sequence.
pub proof fn lemma_sequence_round_trip(v: Seq<u32>)
    ensures
        parse_sequence(join_hex(v)) == v,
{
    let j = join_hex(v);
    if v.len() == 0 {
        assert(trim_start(j) == j);
        assert(trim(j) == j);
    } else {
        lemma_join_shape(v);
        assert(trim_start(j) == j);
        assert(trim_end(j) == j);
    }
}

/// Writes a codepoint sequence as lowercase hexadecimal codepoints separated by spaces.
pub fn sequence_to_hex(v: &Vec<u32>) -> (r: String)
    ensures
        r@ == join_hex(v@),
{
    let mut r = String::new();
    let mut i: usize = 0;
    while i < v.len()
        invariant
            i <= v.len(),
            r@ == join_hex(v@.take(i as int)),
        decreases v.len() - i,
    {
        proof {
            lemma_join_push(v@.take(i as int), v[i as int]);
            assert(v@.take(i as int).push(v[i as int]) =~= v@.take(i + 1));
        }
        if i > 0 {
            push_char(&mut r, ' ');
        }
        let h = u32_to_hex(v[i]);
        r.append(h.as_str());
        i = i + 1;
    }
    assert(v@.take(v.len() as int) =~= v@);
    r
}

/// A separator after a codepoint in a file name: `-`, `_`, `.` or a space.
pub open spec fn is_name_delim(c: char) -> bool {
    c == '-' || c == '_' || c == '.' || c == ' '
}

/// The number of hexadecimal digits in a row from position `i` on.
pub open spec fn run_len(s: Seq<char>, i: int) -> nat
    decreases s.len() - i,
{
    if 0 <= i < s.len() && is_hex_digit(s[i]) { 1 + run_len(s, i + 1) } else { 0 }
}

/// The codepoints of a file name from position `i` on: each run of one to
/// eight hexadecimal digits that ends the name or is followed by a separator,
/// found from the left without overlaps; zero is skipped.
pub open spec fn name_codes(s: Seq<char>, i: int) -> Seq<u32>
    decreases s.len() - i,
{
    if i < 0 || i >= s.len() {
        seq![]
    } else {
        let l = run_len(s, i) as int;
        if 1 <= l <= 8 && i + l <= s.len() && (i + l == s.len() || is_name_delim(s[i + l])) {
            let v = hex_val(s.subrange(i, i + l));
            (if v > 0 { seq![v as u32] } else { seq![] })
                + name_codes(s, if i + l == s.len() { i + l } else { i + l + 1 })
        } else {
            name_codes(s, i + 1)
        }
    }
}

proof fn lemma_hex_val_bound(d: Seq<char>)
    requires
        all_hex(d),
    ensures
        hex_val(d) < pow16(d.len()),
    decreases d.len(),
{
    if d.len() > 0 {
        let p = d.drop_last();
        assert(all_hex(p)) by {
            assert forall|i: int| 0 <= i < p.len() implies #[trigger] is_hex_digit(p[i]) by {
                assert(p[i] == d[i]);
            }
        }
        lemma_hex_val_bound(p);
        assert(is_hex_digit(d[d.len() - 1]));
        assert(hex_value(d.last()) < 16);
        assert(pow16(d.len()) == 16 * pow16(p.len()));
        assert(hex_val(p) * 16 + hex_value(d.last()) < 16 * pow16(p.len())) by (nonlinear_arith)
            requires hex_val(p) < pow16(p.len()), hex_value(d.last()) < 16;
    }
}

proof fn lemma_pow16_mono(a: nat, b: nat)
    requires
        a <= b,
    ensures
        pow16(a) <= pow16(b),
    decreases b,
{
    if a < b {
        lemma_pow16_mono(a, (b - 1) as nat);
        assert(pow16(b) == 16 * pow16((b - 1) as nat));
    }
}

/// Whether `c` is whitespace in the sense of `char::is_whitespace`.
pub fn is_whitespace(c: char) -> (r: bool)
    ensures
        r == is_ws(c),
{
    let u = c as u32;
    (0x09 <= u && u <= 0x0d) || u == 0x20 || u == 0x85 || u == 0xa0 || u == 0x1680
        || (0x2000 <= u && u <= 0x200a) || u == 0x2028 || u == 0x2029 || u == 0x202f
        || u == 0x205f || u == 0x3000
}

proof fn lemma_hex_val_push(d: Seq<char>, c: char)
    ensures
        hex_val(d.push(c)) == hex_val(d) * 16 + hex_value(c),
{
    assert(d.push(c).drop_last() =~= d);
}

/// Reads one token as `u32::from_str_radix(token, 16)` does.
fn parse_token(s: &str, from: usize, to: usize) -> (r: Option<u32>)
    requires
        from <= to <= s@.len(),
    ensures
        r == token_value(s@.subrange(from as int, to as int)),
{
    let ghost tok = s@.subrange(from as int, to as int);
    let mut i = from;
    if i < to && s.get_char(i) == '+' {
        i = i + 1;
    }
    let ghost digits = token_digits(tok);
    assert(digits =~= s@.subrange(i as int, to as int));
    if i == to {
        return None;
    }
    let d_start = i;
    let mut v: u64 = 0;
    let mut overflow = false;
    while i < to
        invariant
            from <= d_start <= i <= to <= s@.len(),
            digits == s@.subrange(d_start as int, to as int),
            tok == s@.subrange(from as int, to as int),
            digits == token_digits(tok),
            all_hex(s@.subrange(d_start as int, i as int)),
            !overflow ==> v == hex_val(s@.subrange(d_start as int, i as int)) && v < 0x1_0000_0000,
            overflow ==> hex_val(s@.subrange(d_start as int, i as int)) >= 0x1_0000_0000,
        decreases to - i,
    {
        let ghost d = s@.subrange(d_start as int, i as int);
        let c = s.get_char(i);
        proof {
            assert(s@.subrange(d_start as int, i + 1) =~= d.push(c));
            lemma_hex_val_push(d, c);
        }
        match hex_digit_value(c) {
            None => {
                assert(digits[i - d_start] == c);
                assert(!is_hex_digit(digits[i - d_start]));
                assert(!all_hex(digits));
                return None;
            },
            Some(x) => {
                if !overflow {
                    v = v * 16 + x as u64;
                    if v >= 0x1_0000_0000 {
                        overflow = true;
                    }
                }
            },
        }
        i = i + 1;
    }
    assert(s@.subrange(d_start as int, i as int) == digits);
    if overflow {
        None
    } else {
        Some(v as u32)
    }
}

/// The bounds of the text without its leading and trailing whitespace.
pub fn trim_bounds(text: &str) -> (r: (usize, usize))
    ensures
        r.0 <= r.1 <= text@.len(),
        trim(text@) == text@.subrange(r.0 as int, r.1 as int),
{
    let ghost s = text@;
    let n = text.unicode_len();
    let mut start: usize = 0;
    assert(s.subrange(0, n as int) =~= s);
    while start < n && is_whitespace(text.get_char(start))
        invariant
            start <= n == s.len(),
            s == text@,
            trim_start(s) == trim_start(s.subrange(start as int, n as int)),
        decreases n - start,
    {
        assert(s.subrange(start as int, n as int).drop_first() =~= s.subrange(start + 1, n as int));
        start = start + 1;
    }
    assert(trim_start(s.subrange(start as int, n as int)) == s.subrange(start as int, n as int));
    let mut end: usize = n;
    while end > start && is_whitespace(text.get_char(end - 1))
        invariant
            start <= end <= n == s.len(),
            s == text@,
            trim(s) == trim_end(s.subrange(start as int, end as int)),
        decreases end - start,
    {
        assert(s.subrange(start as int, end as int).drop_last() =~= s.subrange(start as int, end - 1));
        end = end - 1;
    }
    (start, end)
}

/// The codepoints that a file name holds, as [`name_codes`] reads them.
pub fn parse_name_codes(name: &str) -> (r: Vec<u32>)
    ensures
        r@ == name_codes(name@, 0),
{
    let ghost s = name@;
    let n = name.unicode_len();
    let mut out: Vec<u32> = Vec::new();
    let mut i: usize = 0;
    while i < n
        invariant
            i <= n == s.len(),
            s == name@,
            out@ + name_codes(s, i as int) == name_codes(s, 0),
        decreases n - i,
    {
        let mut j = i;
        while j < n && hex_digit_value(name.get_char(j)).is_some()
            invariant
                i <= j <= n == s.len(),
                s == name@,
                run_len(s, i as int) == (j - i) + run_len(s, j as int),
                all_hex(s.subrange(i as int, j as int)),
            decreases n - j,
        {
            proof {
                assert(s.subrange(i as int, j + 1) =~= s.subrange(i as int, j as int).push(s[j as int]));
            }
            j = j + 1;
        }
        assert(run_len(s, j as int) == 0);
        assert(j + 0 <= s.len());
        let l = j - i;
        let ends = j == n || {
            let c = name.get_char(j);
            c == '-' || c == '_' || c == '.' || c == ' '
        };
        if 1 <= l && l <= 8 && ends {
            proof {
                let d = s.subrange(i as int, j as int);
                lemma_hex_val_bound(d);
                lemma_pow16_mono(d.len(), 8);
                reveal_with_fuel(pow16, 9);
                assert(d[0] != '+') by { assert(is_hex_digit(d[0])); }
                assert(token_digits(d) == d);
            }
            let v = parse_token(name, i, j);
            let ghost before = out@;
            match v {
                Some(x) => {
                    if x > 0 {
                        out.push(x);
                    }
                },
                None => {},
            }
            let next = if j == n { j } else { j + 1 };
            proof {
                let d = s.subrange(i as int, j as int);
                let hv = hex_val(d);
                assert(out@ == before + (if hv > 0 { seq![hv as u32] } else { seq![] }));
                assert(out@ + name_codes(s, next as int) =~= before + ((if hv > 0 { seq![hv as u32] } else { seq![] }) + name_codes(s, next as int)));
            }
            i = next;
        } else {
            i = i + 1;
        }
    }
    assert(out@ + name_codes(s, i as int) =~= out@);
    out
}

/// Parses the first column of a cache row: the trimmed text split at single
/// spaces, each token read as a hexadecimal codepoint; tokens that are no
/// number are skipped.
pub fn parse_hex(sequence: &str) -> (r: Vec<u32>)
    ensures
        r@ == parse_sequence(sequence@),
{
    let ghost s = sequence@;
    let (start, end) = trim_bounds(sequence);
    let n = sequence.unicode_len();
    let ghost t = s.subrange(start as int, end as int);
    assert(trim(s) == t);
    let mut out: Vec<u32> = Vec::new();
    let mut tok_start = start;
    let mut i = start;
    assert(s.subrange(start as int, start as int) =~= Seq::<char>::empty());
    assert(s.subrange(i as int, end as int) == t);
    while i < end
        invariant
            start <= tok_start <= i <= end <= n == s.len(),
            s == sequence@,
            t == s.subrange(start as int, end as int),
            trim(s) == t,
            out@ + parse_tokens(s.subrange(i as int, end as int), s.subrange(tok_start as int, i as int))
                == parse_tokens(t, seq![]),
        decreases end - i,
    {
        let ghost rest = s.subrange(i as int, end as int);
        let ghost cur = s.subrange(tok_start as int, i as int);
        let c = sequence.get_char(i);
        assert(rest[0] == c);
        assert(rest.drop_first() =~= s.subrange(i + 1, end as int));
        if c == ' ' {
            let tv = parse_token(sequence, tok_start, i);
            let ghost before = out@;
            match tv {
                Some(x) => { out.push(x); },
                None => {},
            }
            assert(out@ == before + emit(cur));
            assert(s.subrange(i + 1, i + 1) =~= Seq::<char>::empty());
            assert(out@ + parse_tokens(s.subrange(i + 1, end as int), seq![]) =~= before + (emit(cur) + parse_tokens(s.subrange(i + 1, end as int), seq![])));
            tok_start = i + 1;
        } else {
            assert(cur.push(c) =~= s.subrange(tok_start as int, i + 1));
        }
        i = i + 1;
    }
    let tv = parse_token(sequence, tok_start, end);
    let ghost before = out@;
    match tv {
        Some(x) => { out.push(x); },
        None => {},
    }
    assert(parse_tokens(s.subrange(end as int, end as int), s.subrange(tok_start as int, end as int))
        == emit(s.subrange(tok_start as int, end as int)));
    assert(out@ =~= before + emit(s.subrange(tok_start as int, end as int)));
    out
}

} // verus!
