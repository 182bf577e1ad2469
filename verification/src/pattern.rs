//! Pattern tokens and the pattern compiler.
//!
//! A pattern string is a sequence of whitespace-separated tokens, each
//! either a two-hex-digit byte value or the wildcard marker `??`. A
//! replacement string holds byte tokens only. Compiling a pattern and a
//! replacement together pads the replacement with zero bytes up to the
//! pattern's length and rejects a replacement longer than the pattern.

use vstd::prelude::*;

verus! {

/// One position of a pattern: either a concrete byte value that must be
/// equal to the buffer byte, or a wildcard that matches any byte.
#[derive(Clone, Copy, Debug, PartialEq, Eq, Structural)]
pub enum Token {
    Wildcard,
    Literal(u8),
}

/// Whether pattern token `t` accepts the buffer byte `b`.
pub open spec fn token_matches(t: Token, b: u8) -> bool {
    match t {
        Token::Wildcard => true,
        Token::Literal(v) => v == b,
    }
}

/// Why compiling a pattern or replacement string failed.
#[derive(Clone, Copy, Debug, PartialEq, Eq, Structural)]
pub enum PatchError {
    /// A token is neither a two-hex-digit byte nor (in patterns only) the
    /// wildcard marker.
    InvalidToken,
    /// A replacement holds more bytes than its pattern has tokens.
    OversizedReplacement,
}

/// The whitespace characters that separate tokens.
pub open spec fn is_space(c: char) -> bool {
    c == ' ' || c == '\t' || c == '\n' || c == '\r' || c == '\u{c}'
}

/// Whether `c` is a hexadecimal digit, in either case.
pub open spec fn is_hex_digit(c: char) -> bool {
    ||| '0' as u32 <= c as u32 <= '9' as u32
    ||| 'a' as u32 <= c as u32 <= 'f' as u32
    ||| 'A' as u32 <= c as u32 <= 'F' as u32
}

/// The numeric value of the hexadecimal digit `c`.
pub open spec fn hex_digit_value(c: char) -> int
    recommends
        is_hex_digit(c),
{
    if '0' as u32 <= c as u32 <= '9' as u32 {
        c as u32 - '0' as u32
    } else if 'a' as u32 <= c as u32 <= 'f' as u32 {
        10 + c as u32 - 'a' as u32
    } else {
        10 + c as u32 - 'A' as u32
    }
}

/// Whether the token text `t` is the wildcard marker `??`.
pub open spec fn is_wildcard_token(t: Seq<char>) -> bool {
    t.len() == 2 && t[0] == '?' && t[1] == '?'
}

/// Whether the token text `t` is a two-hex-digit byte value.
pub open spec fn is_byte_token(t: Seq<char>) -> bool {
    t.len() == 2 && is_hex_digit(t[0]) && is_hex_digit(t[1])
}

/// The byte value of the two-hex-digit token `t`.
pub open spec fn byte_token_value(t: Seq<char>) -> u8
    recommends
        is_byte_token(t),
{
    (16 * hex_digit_value(t[0]) + hex_digit_value(t[1])) as u8
}

/// The index just past the run of non-whitespace characters that starts at
/// `i`: the end of the token that begins there.
pub open spec fn token_end(s: Seq<char>, i: int) -> int
    decreases s.len() - i,
{
    if i < 0 || i >= s.len() || is_space(s[i]) {
        i
    } else {
        token_end(s, i + 1)
    }
}

/// `token_end` stays within the string and moves strictly past a
/// non-whitespace start.
proof fn lemma_token_end_bounds(s: Seq<char>, i: int)
    requires
        0 <= i <= s.len(),
    ensures
        i <= token_end(s, i) <= s.len(),
        i < s.len() && !is_space(s[i]) ==> i < token_end(s, i),
    decreases s.len() - i,
{
    if i < s.len() && !is_space(s[i]) {
        lemma_token_end_bounds(s, i + 1);
    }
}

/// `token_end(s, i)` is exactly the first index at or after `i` that holds
/// whitespace or falls off the end.
proof fn lemma_token_end_value(s: Seq<char>, i: int, j: int)
    requires
        0 <= i <= j <= s.len(),
        forall|k: int| i <= k < j ==> !is_space(#[trigger] s[k]),
        j == s.len() || is_space(s[j]),
    ensures
        token_end(s, i) == j,
    decreases j - i,
{
    if i < j {
        lemma_token_end_value(s, i + 1, j);
    }
}

/// The tokens denoted by the pattern text starting at index `i`, or `None`
/// if some token there is neither a byte nor the wildcard marker.
pub open spec fn parse_pattern_from(s: Seq<char>, i: int) -> Option<Seq<Token>>
    decreases s.len() - i,
    via parse_pattern_from_decreases
{
    if i < 0 || i >= s.len() {
        Some(Seq::empty())
    } else if is_space(s[i]) {
        parse_pattern_from(s, i + 1)
    } else {
        let t = s.subrange(i, token_end(s, i));
        let rest = parse_pattern_from(s, token_end(s, i));
        if is_wildcard_token(t) {
            match rest {
                Some(ts) => Some(seq![Token::Wildcard] + ts),
                None => None,
            }
        } else if is_byte_token(t) {
            match rest {
                Some(ts) => Some(seq![Token::Literal(byte_token_value(t))] + ts),
                None => None,
            }
        } else {
            None
        }
    }
}

#[via_fn]
proof fn parse_pattern_from_decreases(s: Seq<char>, i: int) {
    if 0 <= i < s.len() && !is_space(s[i]) {
        lemma_token_end_bounds(s, i);
    }
}

/// The tokens denoted by the whole pattern text `s`, or `None` if `s` is
/// not a well-formed pattern string.
pub open spec fn parse_pattern(s: Seq<char>) -> Option<Seq<Token>> {
    parse_pattern_from(s, 0)
}

/// Whether every token of `ts` is a concrete byte.
pub open spec fn all_literals(ts: Seq<Token>) -> bool {
    forall|k: int| 0 <= k < ts.len() ==> (#[trigger] ts[k]) is Literal
}

/// The byte values of a sequence of concrete tokens.
pub open spec fn literal_bytes(ts: Seq<Token>) -> Seq<u8>
    recommends
        all_literals(ts),
{
    Seq::new(ts.len(), |k: int| ts[k]->Literal_0)
}

/// The bytes denoted by the replacement text `s`: its tokens must all be
/// concrete byte values, with no wildcard permitted.
pub open spec fn parse_bytes(s: Seq<char>) -> Option<Seq<u8>> {
    match parse_pattern(s) {
        Some(ts) => if all_literals(ts) {
            Some(literal_bytes(ts))
        } else {
            None
        },
        None => None,
    }
}

/// `rep` right-padded with zero bytes to length `n`.
pub open spec fn padded(rep: Seq<u8>, n: int) -> Seq<u8>
    recommends
        rep.len() <= n,
{
    rep + Seq::new((n - rep.len()) as nat, |k: int| 0u8)
}

/// Tokens already parsed, joined with what the rest of the text denotes.
spec fn with_prefix(pre: Seq<Token>, rest: Option<Seq<Token>>) -> Option<Seq<Token>> {
    match rest {
        Some(ts) => Some(pre + ts),
        None => None,
    }
}

/// Whether `c` is one of the whitespace characters that separate tokens.
fn is_space_char(c: char) -> (r: bool)
    ensures
        r == is_space(c),
{
    c == ' ' || c == '\t' || c == '\n' || c == '\r' || c == '\u{c}'
}

/// Whether `c` is a hexadecimal digit, in either case.
fn is_hex_digit_char(c: char) -> (r: bool)
    ensures
        r == is_hex_digit(c),
{
    let u: u32 = c as u32;
    (48 <= u && u <= 57) || (97 <= u && u <= 102) || (65 <= u && u <= 70)
}

/// The numeric value of the hexadecimal digit `c`.
fn hex_digit_val(c: char) -> (r: u8)
    requires
        is_hex_digit(c),
    ensures
        r as int == hex_digit_value(c),
        r < 16,
{
    let u: u32 = c as u32;
    if u >= 97 {
        (u - 97 + 10) as u8
    } else if u >= 65 {
        (u - 65 + 10) as u8
    } else {
        (u - 48) as u8
    }
}

/// Parse a whitespace-separated pattern string into tokens: each token is
/// either a two-hex-digit byte or the wildcard marker `??`. Returns
/// `InvalidToken` exactly when some token is neither.
pub fn parse_pattern_string(s: &str) -> (r: Result<Vec<Token>, PatchError>)
    ensures
        match r {
            Ok(v) => parse_pattern(s@) == Some(v@),
            Err(e) => e == PatchError::InvalidToken && parse_pattern(s@) is None,
        },
{
    let n: usize = s.unicode_len();
    let mut out: Vec<Token> = Vec::new();
    let mut i: usize = 0;
    proof {
        assert(out@ + parse_pattern_from(s@, 0)->Some_0 =~= parse_pattern_from(s@, 0)->Some_0);
    }
    while i < n
        invariant
            n == s@.len(),
            i <= n,
            parse_pattern(s@) == with_prefix(out@, parse_pattern_from(s@, i as int)),
        decreases n - i,
    {
        let c = s.get_char(i);
        if is_space_char(c) {
            proof {
                assert(parse_pattern_from(s@, i as int) == parse_pattern_from(s@, i + 1));
            }
            i += 1;
        } else {
            let start = i;
            let mut j: usize = i + 1;
            while j < n && !is_space_char(s.get_char(j))
                invariant
                    n == s@.len(),
                    start < j <= n,
                    forall|k: int| start <= k < j ==> !is_space(#[trigger] s@[k]),
                decreases n - j,
            {
                j += 1;
            }
            proof {
                lemma_token_end_value(s@, start as int, j as int);
            }
            let ghost t = s@.subrange(start as int, j as int);
            if j - start != 2 {
                proof {
                    assert(parse_pattern_from(s@, start as int) is None);
                }
                return Err(PatchError::InvalidToken);
            }
            let c1 = s.get_char(start + 1);
            let tok: Token = if c == '?' && c1 == '?' {
                proof {
                    assert(is_wildcard_token(t));
                }
                Token::Wildcard
            } else if is_hex_digit_char(c) && is_hex_digit_char(c1) {
                let v: u8 = 16 * hex_digit_val(c) + hex_digit_val(c1);
                proof {
                    assert(is_byte_token(t));
                    assert(!is_wildcard_token(t));
                    assert(v == byte_token_value(t));
                }
                Token::Literal(v)
            } else {
                proof {
                    assert(!is_wildcard_token(t));
                    assert(!is_byte_token(t));
                    assert(parse_pattern_from(s@, start as int) is None);
                }
                return Err(PatchError::InvalidToken);
            };
            proof {
                let rest = parse_pattern_from(s@, j as int);
                assert(parse_pattern_from(s@, start as int) == with_prefix(seq![tok], rest));
                if rest is Some {
                    assert(out@ + (seq![tok] + rest->Some_0) =~= out@.push(tok) + rest->Some_0);
                }
            }
            out.push(tok);
            i = j;
        }
    }
    proof {
        assert(parse_pattern_from(s@, n as int) == Some(Seq::<Token>::empty()));
        assert(out@ + Seq::<Token>::empty() =~= out@);
    }
    Ok(out)
}

/// Parse a whitespace-separated replacement string into concrete bytes.
/// The wildcard marker is not permitted here: any token that is not a
/// two-hex-digit byte yields `InvalidToken`.
pub fn parse_byte_string(s: &str) -> (r: Result<Vec<u8>, PatchError>)
    ensures
        match r {
            Ok(v) => parse_bytes(s@) == Some(v@),
            Err(e) => e == PatchError::InvalidToken && parse_bytes(s@) is None,
        },
{
    let toks: Vec<Token> = match parse_pattern_string(s) {
        Ok(v) => v,
        Err(e) => {
            return Err(e);
        }
    };
    let mut out: Vec<u8> = Vec::new();
    let mut k: usize = 0;
    while k < toks.len()
        invariant
            k <= toks@.len(),
            out@.len() == k,
            parse_pattern(s@) == Some(toks@),
            forall|t: int|
                0 <= t < k ==> (#[trigger] toks@[t]) is Literal && out@[t] == toks@[t]->Literal_0,
        decreases toks@.len() - k,
    {
        match toks[k] {
            Token::Wildcard => {
                proof {
                    assert(!all_literals(toks@));
                }
                return Err(PatchError::InvalidToken);
            }
            Token::Literal(b) => {
                out.push(b);
            }
        }
        k += 1;
    }
    proof {
        assert(all_literals(toks@));
        assert(out@ =~= literal_bytes(toks@));
    }
    Ok(out)
}

/// A compiled pattern together with its replacement bytes. The replacement
/// is exactly as long as the pattern, padding included, so a successful
/// match always has room for the whole replacement.
#[derive(Clone, Debug, PartialEq, Eq)]
pub struct PatchEntry {
    pub pattern: Vec<Token>,
    pub replace: Vec<u8>,
}

impl PatchEntry {
    /// The compile-time invariant: replacement and pattern have equal
    /// length.
    pub open spec fn wf(self) -> bool {
        self.replace@.len() == self.pattern@.len()
    }
}

/// Compile a pattern string and a replacement string into a `PatchEntry`,
/// right-padding the replacement with zero bytes up to the pattern's
/// length. Fails with `InvalidToken` when either string has a bad token,
/// and with `OversizedReplacement` when the replacement holds more bytes
/// than the pattern has tokens.
pub fn compile_entry(pattern_str: &str, replace_str: &str) -> (r: Result<PatchEntry, PatchError>)
    ensures
        match (parse_pattern(pattern_str@), parse_bytes(replace_str@)) {
            (Some(pat), Some(rep)) => if rep.len() <= pat.len() {
                &&& r matches Ok(e)
                &&& e.pattern@ == pat
                &&& e.replace@ == padded(rep, pat.len() as int)
                &&& e.wf()
            } else {
                r == Err::<PatchEntry, PatchError>(PatchError::OversizedReplacement)
            },
            _ => r == Err::<PatchEntry, PatchError>(PatchError::InvalidToken),
        },
{
    let pattern: Vec<Token> = match parse_pattern_string(pattern_str) {
        Ok(v) => v,
        Err(e) => {
            return Err(e);
        }
    };
    let mut replace: Vec<u8> = match parse_byte_string(replace_str) {
        Ok(v) => v,
        Err(e) => {
            return Err(e);
        }
    };
    if replace.len() > pattern.len() {
        return Err(PatchError::OversizedReplacement);
    }
    let ghost rep0 = replace@;
    proof {
        assert(replace@ =~= padded(rep0, replace@.len() as int));
    }
    while replace.len() < pattern.len()
        invariant
            rep0.len() <= replace@.len() <= pattern@.len(),
            replace@ == padded(rep0, replace@.len() as int),
        decreases pattern@.len() - replace@.len(),
    {
        replace.push(0);
        proof {
            assert(replace@ =~= padded(rep0, replace@.len() as int));
        }
    }
    Ok(PatchEntry { pattern, replace })
}

} // verus!
