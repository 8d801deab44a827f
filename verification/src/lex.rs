//! Raw lexical classes and the scanning table.
//!
//! The scanner works directly on the UTF-8 bytes of the source text.  Its
//! mathematical model is built from vstd's UTF-8 specification: a position in
//! the text is a byte offset on a character boundary, and the scanner reads
//! one Unicode scalar at a time.  Every token class is defined here twice —
//! once as a spec-level decision procedure (`raw_match`, `raw_step`) and once
//! as executable code proved equal to it.

use vstd::prelude::*;
use vstd::utf8::{
    decode_first_scalar, is_char_boundary, length_of_first_scalar, valid_first_scalar, valid_utf8,
};

verus! {

broadcast use vstd::utf8::group_utf8_lib;

/// One raw lexical class.  `Name` and `FancyNameAscii` carry no payload here:
/// the matched slice is recovered from the token's byte range.  `Whitespace`
/// and `Comment` are trivia, recognized but never handed to a consumer;
/// `LexError` stands for a run of input that no class matches.
#[derive(Debug, Clone, Copy, PartialEq, Eq, Structural)]
pub enum Token {
    Dot,
    Def,
    Arrow,
    Iff,
    Neg,
    Abs,
    Conj,
    Disj,
    Top,
    Bot,
    QED,
    Thus,
    Case,
    CaseLeg,
    PropT,
    LParen,
    RParen,
    LBrack,
    RBrack,
    Name,
    FancyNameAscii,
    Colon,
    Semi,
    Whitespace,
    Comment,
    LexError,
}

/// The Unicode whitespace scalars (the `White_Space` property).
pub open spec fn is_whitespace_scalar(c: u32) -> bool {
    c == 0x09 || c == 0x0A || c == 0x0B || c == 0x0C || c == 0x0D || c == 0x20 || c == 0x85
        || c == 0xA0 || c == 0x1680 || (0x2000 <= c && c <= 0x200A) || c == 0x2028 || c == 0x2029
        || c == 0x202F || c == 0x205F || c == 0x3000
}

/// ASCII letters, the only bytes that may follow the leading backslash of a
/// fancy ASCII name.
pub open spec fn is_ascii_letter(b: u8) -> bool {
    (0x41 <= b && b <= 0x5A) || (0x61 <= b && b <= 0x7A)
}

/// Bytes allowed after the first character of a fancy ASCII name:
/// letters, digits and underscore.
pub open spec fn is_ascii_ident_byte(b: u8) -> bool {
    is_ascii_letter(b) || b == 0x5F || (0x30 <= b && b <= 0x39)
}

/// Unicode subscript digits and letters.  A subscript may continue an
/// identifier but may never begin one.
pub open spec fn is_subscript_scalar(c: u32) -> bool {
    (0x207F <= c && c <= 0x2089) || (0x2090 <= c && c <= 0x209C) || (0x1D62 <= c && c <= 0x1D6A)
}

/// Scalars that may begin a broad Unicode identifier: ASCII letters, Greek
/// letters, and the letter-like mathematical alphanumeric symbols
/// (script, fraktur and double-struck ranges).
pub open spec fn is_name_start_scalar(c: u32) -> bool {
    (0x41 <= c && c <= 0x5A) || (0x61 <= c && c <= 0x7A) || (0x370 <= c && c <= 0x3FF) || (0x1F00
        <= c && c <= 0x1FFF) || (0x1D49C <= c && c <= 0x1D59F) || (0x2100 <= c && c <= 0x214F)
}

/// Scalars that may continue a broad Unicode identifier: anything that may
/// begin one, and additionally underscores, digits and subscripts.
pub open spec fn is_name_continue_scalar(c: u32) -> bool {
    is_name_start_scalar(c) || c == 0x5F || (0x30 <= c && c <= 0x39) || is_subscript_scalar(c)
}

/// The suffix of `s` beginning at byte offset `i`.
pub open spec fn suffix_at(s: Seq<u8>, i: int) -> Seq<u8> {
    s.subrange(i, s.len() as int)
}

/// The Unicode scalar whose encoding begins at byte offset `i`.
pub open spec fn scalar_at(s: Seq<u8>, i: int) -> u32 {
    decode_first_scalar(suffix_at(s, i))
}

/// The width in bytes of the scalar whose encoding begins at offset `i`.
pub open spec fn scalar_width_at(s: Seq<u8>, i: int) -> int {
    length_of_first_scalar(suffix_at(s, i))
}

/// The byte offset just after the scalar at offset `i`, clamped so that it
/// always advances and never leaves the text.
pub open spec fn next_pos(s: Seq<u8>, i: int) -> int {
    let w = scalar_width_at(s, i);
    let j = if 1 <= w && w <= 4 {
        i + w
    } else {
        i + 1
    };
    if j > s.len() {
        s.len() as int
    } else {
        j
    }
}

/// At a character boundary inside valid UTF-8, the suffix starts with a
/// well-formed scalar whose width stays inside the text, and the position
/// just after it is again a character boundary.
pub proof fn lemma_scalar_window(s: Seq<u8>, i: int)
    requires
        valid_utf8(s),
        is_char_boundary(s, i),
        0 <= i < s.len(),
    ensures
        valid_first_scalar(suffix_at(s, i)),
        1 <= scalar_width_at(s, i) <= 4,
        i + scalar_width_at(s, i) <= s.len(),
        is_char_boundary(s, i + scalar_width_at(s, i)),
        next_pos(s, i) == i + scalar_width_at(s, i),
        valid_utf8(suffix_at(s, i)),
{
    vstd::utf8::valid_utf8_split(s, i);
    let suf = suffix_at(s, i);
    assert(valid_utf8(suf));
    assert(suf.len() > 0);
    assert(valid_first_scalar(suf) && valid_utf8(vstd::utf8::pop_first_scalar(suf)))
        by { reveal_with_fuel(valid_utf8, 2); }
    let w = length_of_first_scalar(suf);
    assert(1 <= w <= 4);
    assert(w <= suf.len());
    if i + w < s.len() {
        let rest = vstd::utf8::pop_first_scalar(suf);
        assert(rest.len() > 0);
        assert(valid_first_scalar(rest)) by { reveal_with_fuel(valid_utf8, 2); }
        assert(rest[0] == s[i + w]);
        assert(!vstd::utf8::is_continuation_byte(s[i + w]));
        assert(is_char_boundary(s, i + w));
    } else {
        assert(i + w == s.len());
        assert(is_char_boundary(s, s.len() as int));
    }
}

/// An ASCII scalar occupies exactly one byte, equal to its value, and the
/// position after it is a character boundary.
pub proof fn lemma_one_byte_scalar(s: Seq<u8>, i: int)
    requires
        valid_utf8(s),
        is_char_boundary(s, i),
        0 <= i < s.len(),
        scalar_at(s, i) < 0x80 || s[i] < 0x80,
    ensures
        scalar_width_at(s, i) == 1,
        s[i] == scalar_at(s, i),
        is_char_boundary(s, i + 1),
{
    lemma_scalar_window(s, i);
    let suf = suffix_at(s, i);
    assert(suf[0] == s[i]);
    let b = s[i];
    if b < 0x80 {
        assert((b & 0x7F) == b) by (bit_vector)
            requires
                b < 0x80,
        ;
    } else {
        // A leading byte of a wider encoding yields a scalar of 0x80 or
        // more, so a scalar under 0x80 forces a one-byte encoding.
        assert(scalar_at(s, i) < 0x80);
        assert(vstd::utf8::not_overlong_encoding(
            vstd::utf8::decode_first_codepoint(suf),
            vstd::utf8::length_of_first_codepoint(suf),
        ));
        assert(false);
    }
}

/// Reads the scalar that begins at byte offset `i`, returning its value and
/// its width in bytes.
pub(crate) fn scalar_at_exec(s: &[u8], i: usize) -> (r: (u32, usize))
    requires
        valid_utf8(s@),
        is_char_boundary(s@, i as int),
        i < s@.len(),
    ensures
        r.0 == scalar_at(s@, i as int),
        r.1 as int == scalar_width_at(s@, i as int),
        1 <= r.1 <= 4,
        i + r.1 <= s@.len(),
        is_char_boundary(s@, i + r.1),
        next_pos(s@, i as int) == i + r.1,
{
    proof {
        lemma_scalar_window(s@, i as int);
        assert(suffix_at(s@, i as int)[0] == s@[i as int]);
    }
    let b0 = s[i];
    if b0 < 0x80 {
        proof {
            assert((b0 & 0x7F) == b0) by (bit_vector)
                requires
                    b0 < 0x80,
            ;
        }
        (b0 as u32, 1)
    } else if b0 <= 0xDF {
        proof {
            assert(suffix_at(s@, i as int)[1] == s@[i + 1]);
        }
        let b1 = s[i + 1];
        ((((b0 & 0x1F) as u32) << 6) | ((b1 & 0x3F) as u32), 2)
    } else if b0 <= 0xEF {
        proof {
            assert(suffix_at(s@, i as int)[1] == s@[i + 1]);
            assert(suffix_at(s@, i as int)[2] == s@[i + 2]);
        }
        let b1 = s[i + 1];
        let b2 = s[i + 2];
        ((((b0 & 0x0F) as u32) << 12) | (((b1 & 0x3F) as u32) << 6) | ((b2 & 0x3F) as u32), 3)
    } else {
        proof {
            assert(suffix_at(s@, i as int)[1] == s@[i + 1]);
            assert(suffix_at(s@, i as int)[2] == s@[i + 2]);
            assert(suffix_at(s@, i as int)[3] == s@[i + 3]);
        }
        let b1 = s[i + 1];
        let b2 = s[i + 2];
        let b3 = s[i + 3];
        ((((b0 & 0x07) as u32) << 18) | (((b1 & 0x3F) as u32) << 12) | (((b2 & 0x3F) as u32) << 6)
            | ((b3 & 0x3F) as u32), 4)
    }
}

fn is_whitespace_scalar_exec(c: u32) -> (b: bool)
    ensures
        b == is_whitespace_scalar(c),
{
    c == 0x09 || c == 0x0A || c == 0x0B || c == 0x0C || c == 0x0D || c == 0x20 || c == 0x85
        || c == 0xA0 || c == 0x1680 || (0x2000 <= c && c <= 0x200A) || c == 0x2028 || c == 0x2029
        || c == 0x202F || c == 0x205F || c == 0x3000
}

fn is_ascii_letter_exec(b: u8) -> (r: bool)
    ensures
        r == is_ascii_letter(b),
{
    (0x41 <= b && b <= 0x5A) || (0x61 <= b && b <= 0x7A)
}

fn is_ascii_ident_byte_exec(b: u8) -> (r: bool)
    ensures
        r == is_ascii_ident_byte(b),
{
    is_ascii_letter_exec(b) || b == 0x5F || (0x30 <= b && b <= 0x39)
}

fn is_name_start_scalar_exec(c: u32) -> (b: bool)
    ensures
        b == is_name_start_scalar(c),
{
    (0x41 <= c && c <= 0x5A) || (0x61 <= c && c <= 0x7A) || (0x370 <= c && c <= 0x3FF) || (0x1F00
        <= c && c <= 0x1FFF) || (0x1D49C <= c && c <= 0x1D59F) || (0x2100 <= c && c <= 0x214F)
}

fn is_name_continue_scalar_exec(c: u32) -> (b: bool)
    ensures
        b == is_name_continue_scalar(c),
{
    is_name_start_scalar_exec(c) || c == 0x5F || (0x30 <= c && c <= 0x39) || (0x207F <= c && c
        <= 0x2089) || (0x2090 <= c && c <= 0x209C) || (0x1D62 <= c && c <= 0x1D6A)
}

/// End of the whitespace run beginning at `i`.
pub open spec fn ws_run_end(s: Seq<u8>, i: int) -> int
    decreases s.len() - i,
    when 0 <= i <= s.len()
{
    if i >= s.len() {
        i
    } else if is_whitespace_scalar(scalar_at(s, i)) {
        ws_run_end(s, next_pos(s, i))
    } else {
        i
    }
}

/// End of the identifier-continuation run beginning at `i`.
pub open spec fn name_run_end(s: Seq<u8>, i: int) -> int
    decreases s.len() - i,
    when 0 <= i <= s.len()
{
    if i >= s.len() {
        i
    } else if is_name_continue_scalar(scalar_at(s, i)) {
        name_run_end(s, next_pos(s, i))
    } else {
        i
    }
}

/// End of the ASCII identifier-byte run beginning at `i`.
pub open spec fn ascii_run_end(s: Seq<u8>, i: int) -> int
    decreases s.len() - i,
    when 0 <= i <= s.len()
{
    if i >= s.len() {
        i
    } else if is_ascii_ident_byte(s[i]) {
        ascii_run_end(s, i + 1)
    } else {
        i
    }
}

/// End of a comment whose body begins at `i`: just past the next newline,
/// or the end of the text if the comment is unterminated.
pub open spec fn comment_run_end(s: Seq<u8>, i: int) -> int
    decreases s.len() - i,
    when 0 <= i <= s.len()
{
    if i >= s.len() {
        i
    } else if scalar_at(s, i) == 0x0A {
        next_pos(s, i)
    } else {
        comment_run_end(s, next_pos(s, i))
    }
}

fn scan_ws_from(s: &[u8], i: usize) -> (j: usize)
    requires
        valid_utf8(s@),
        is_char_boundary(s@, i as int),
        i <= s@.len(),
    ensures
        j as int == ws_run_end(s@, i as int),
        is_char_boundary(s@, j as int),
        i <= j <= s@.len(),
{
    let mut p: usize = i;
    loop
        invariant
            valid_utf8(s@),
            is_char_boundary(s@, p as int),
            i <= p <= s@.len(),
            ws_run_end(s@, i as int) == ws_run_end(s@, p as int),
        ensures
            is_char_boundary(s@, p as int),
            i <= p <= s@.len(),
            ws_run_end(s@, i as int) == p as int,
        decreases s@.len() - p,
    {
        if p >= s.len() {
            break ;
        }
        let (c, w) = scalar_at_exec(s, p);
        if is_whitespace_scalar_exec(c) {
            p = p + w;
        } else {
            break ;
        }
    }
    p
}

fn scan_name_from(s: &[u8], i: usize) -> (j: usize)
    requires
        valid_utf8(s@),
        is_char_boundary(s@, i as int),
        i <= s@.len(),
    ensures
        j as int == name_run_end(s@, i as int),
        is_char_boundary(s@, j as int),
        i <= j <= s@.len(),
{
    let mut p: usize = i;
    loop
        invariant
            valid_utf8(s@),
            is_char_boundary(s@, p as int),
            i <= p <= s@.len(),
            name_run_end(s@, i as int) == name_run_end(s@, p as int),
        ensures
            is_char_boundary(s@, p as int),
            i <= p <= s@.len(),
            name_run_end(s@, i as int) == p as int,
        decreases s@.len() - p,
    {
        if p >= s.len() {
            break ;
        }
        let (c, w) = scalar_at_exec(s, p);
        if is_name_continue_scalar_exec(c) {
            p = p + w;
        } else {
            break ;
        }
    }
    p
}

fn scan_ascii_from(s: &[u8], i: usize) -> (j: usize)
    requires
        valid_utf8(s@),
        is_char_boundary(s@, i as int),
        i <= s@.len(),
    ensures
        j as int == ascii_run_end(s@, i as int),
        is_char_boundary(s@, j as int),
        i <= j <= s@.len(),
{
    let mut p: usize = i;
    loop
        invariant
            valid_utf8(s@),
            is_char_boundary(s@, p as int),
            i <= p <= s@.len(),
            ascii_run_end(s@, i as int) == ascii_run_end(s@, p as int),
        ensures
            is_char_boundary(s@, p as int),
            i <= p <= s@.len(),
            ascii_run_end(s@, i as int) == p as int,
        decreases s@.len() - p,
    {
        if p >= s.len() {
            break ;
        }
        let b = s[p];
        if is_ascii_ident_byte_exec(b) {
            proof {
                lemma_scalar_window(s@, p as int);
                assert(suffix_at(s@, p as int)[0] == b);
                assert(scalar_width_at(s@, p as int) == 1);
            }
            p = p + 1;
        } else {
            break ;
        }
    }
    p
}

fn scan_comment_from(s: &[u8], i: usize) -> (j: usize)
    requires
        valid_utf8(s@),
        is_char_boundary(s@, i as int),
        i <= s@.len(),
    ensures
        j as int == comment_run_end(s@, i as int),
        is_char_boundary(s@, j as int),
        i <= j <= s@.len(),
{
    let mut p: usize = i;
    loop
        invariant_except_break
            comment_run_end(s@, i as int) == comment_run_end(s@, p as int),
        invariant
            valid_utf8(s@),
            is_char_boundary(s@, p as int),
            i <= p <= s@.len(),
        ensures
            is_char_boundary(s@, p as int),
            i <= p <= s@.len(),
            comment_run_end(s@, i as int) == p as int,
        decreases s@.len() - p,
    {
        if p >= s.len() {
            break ;
        }
        let ghost p0 = p as int;
        let (c, w) = scalar_at_exec(s, p);
        p = p + w;
        if c == 0x0A {
            proof {
                assert(comment_run_end(s@, p0) == next_pos(s@, p0));
            }
            break ;
        }
    }
    p
}

/// A whitespace run never moves backwards and stays inside the text.
pub proof fn lemma_ws_run_lb(s: Seq<u8>, i: int)
    requires
        0 <= i <= s.len(),
    ensures
        i <= ws_run_end(s, i) <= s.len(),
    decreases s.len() - i,
{
    if i < s.len() && is_whitespace_scalar(scalar_at(s, i)) {
        lemma_ws_run_lb(s, next_pos(s, i));
    }
}

/// A name run never moves backwards and stays inside the text.
pub proof fn lemma_name_run_lb(s: Seq<u8>, i: int)
    requires
        0 <= i <= s.len(),
    ensures
        i <= name_run_end(s, i) <= s.len(),
    decreases s.len() - i,
{
    if i < s.len() && is_name_continue_scalar(scalar_at(s, i)) {
        lemma_name_run_lb(s, next_pos(s, i));
    }
}

/// A comment run never moves backwards and stays inside the text.
pub proof fn lemma_comment_run_lb(s: Seq<u8>, i: int)
    requires
        0 <= i <= s.len(),
    ensures
        i <= comment_run_end(s, i) <= s.len(),
    decreases s.len() - i,
{
    if i < s.len() && scalar_at(s, i) != 0x0A {
        lemma_comment_run_lb(s, next_pos(s, i));
    }
}

/// The fixed token whose ASCII escape spelling equals the slice `[i, j)` of
/// `s`, if any.  The slice is known to start with a backslash followed by a
/// run of ASCII identifier bytes, so only the bytes after the backslash are
/// inspected.
pub open spec fn reserved_fancy(s: Seq<u8>, i: int, j: int) -> Option<Token> {
    let n = j - i;
    if n == 3 && s[i + 1] == 0x74 && s[i + 2] == 0x6F {
        Some(Token::Arrow)  // \to
    } else if n == 4 && s[i + 1] == 0x69 && s[i + 2] == 0x66 && s[i + 3] == 0x66 {
        Some(Token::Iff)  // \iff
    } else if n == 4 && s[i + 1] == 0x6E && s[i + 2] == 0x65 && s[i + 3] == 0x67 {
        Some(Token::Neg)  // \neg
    } else if n == 4 && s[i + 1] == 0x6C && s[i + 2] == 0x61 && s[i + 3] == 0x6D {
        Some(Token::Abs)  // \lam
    } else if n == 4 && s[i + 1] == 0x61 && s[i + 2] == 0x6E && s[i + 3] == 0x64 {
        Some(Token::Conj)  // \and
    } else if n == 3 && s[i + 1] == 0x6F && s[i + 2] == 0x72 {
        Some(Token::Disj)  // \or
    } else if n == 4 && s[i + 1] == 0x74 && s[i + 2] == 0x6F && s[i + 3] == 0x70 {
        Some(Token::Top)  // \top
    } else if n == 4 && s[i + 1] == 0x62 && s[i + 2] == 0x6F && s[i + 3] == 0x74 {
        Some(Token::Bot)  // \bot
    } else if n == 4 && s[i + 1] == 0x71 && s[i + 2] == 0x65 && s[i + 3] == 0x64 {
        Some(Token::QED)  // \qed
    } else if n == 5 && s[i + 1] == 0x74 && s[i + 2] == 0x68 && s[i + 3] == 0x75 && s[i + 4]
        == 0x73 {
        Some(Token::Thus)  // \thus
    } else if n == 5 && s[i + 1] == 0x63 && s[i + 2] == 0x61 && s[i + 3] == 0x73 && s[i + 4]
        == 0x65 {
        Some(Token::Case)  // \case
    } else if n == 6 && s[i + 1] == 0x6D && s[i + 2] == 0x61 && s[i + 3] == 0x74 && s[i + 4]
        == 0x63 && s[i + 5] == 0x68 {
        Some(Token::CaseLeg)  // \match
    } else {
        None
    }
}

/// True when the slice `[i, j)` of `s` is exactly the keyword `Prop`.
pub open spec fn is_prop_keyword(s: Seq<u8>, i: int, j: int) -> bool {
    j - i == 4 && s[i] == 0x50 && s[i + 1] == 0x72 && s[i + 2] == 0x6F && s[i + 3] == 0x70
}

/// The token or trivia beginning at offset `i`, with its end offset, or
/// `None` when no lexical class matches there.  This is the scanning table:
/// the first scalar decides the class, and runs extend as far as they can,
/// so the match is always the longest one.  A backslash run or a name run
/// that spells a reserved word collapses to that fixed token.
pub open spec fn raw_match(s: Seq<u8>, i: int) -> Option<(Token, int)> {
    let c = scalar_at(s, i);
    if is_whitespace_scalar(c) {
        Some((Token::Whitespace, ws_run_end(s, i)))
    } else if c == 0x23 {
        Some((Token::Comment, comment_run_end(s, next_pos(s, i))))
    } else if c == 0x2E {
        Some((Token::Dot, next_pos(s, i)))
    } else if c == 0x3A {
        if i + 1 < s.len() && s[i + 1] == 0x3D {
            Some((Token::Def, i + 2))
        } else {
            Some((Token::Colon, next_pos(s, i)))
        }
    } else if c == 0x3B {
        Some((Token::Semi, next_pos(s, i)))
    } else if c == 0x28 {
        Some((Token::LParen, next_pos(s, i)))
    } else if c == 0x29 {
        Some((Token::RParen, next_pos(s, i)))
    } else if c == 0x5B {
        Some((Token::LBrack, next_pos(s, i)))
    } else if c == 0x5D {
        Some((Token::RBrack, next_pos(s, i)))
    } else if c == 0x2254 {
        Some((Token::Def, next_pos(s, i)))
    } else if c == 0x2192 {
        Some((Token::Arrow, next_pos(s, i)))
    } else if c == 0x2194 {
        Some((Token::Iff, next_pos(s, i)))
    } else if c == 0xAC {
        Some((Token::Neg, next_pos(s, i)))
    } else if c == 0x2C97 {
        Some((Token::Abs, next_pos(s, i)))
    } else if c == 0x2227 {
        Some((Token::Conj, next_pos(s, i)))
    } else if c == 0x2228 {
        Some((Token::Disj, next_pos(s, i)))
    } else if c == 0x22A4 {
        Some((Token::Top, next_pos(s, i)))
    } else if c == 0x22A5 {
        Some((Token::Bot, next_pos(s, i)))
    } else if c == 0x25A1 {
        Some((Token::QED, next_pos(s, i)))
    } else if c == 0x2234 {
        Some((Token::Thus, next_pos(s, i)))
    } else if c == 0x2023 {
        Some((Token::CaseLeg, next_pos(s, i)))
    } else if c == 0x5C {
        if i + 1 < s.len() && is_ascii_letter(s[i + 1]) {
            let j = ascii_run_end(s, i + 2);
            match reserved_fancy(s, i, j) {
                Some(t) => Some((t, j)),
                None => Some((Token::FancyNameAscii, j)),
            }
        } else {
            None
        }
    } else if is_name_start_scalar(c) {
        let j = name_run_end(s, next_pos(s, i));
        if is_prop_keyword(s, i, j) {
            Some((Token::PropT, j))
        } else {
            Some((Token::Name, j))
        }
    } else {
        None
    }
}

/// The first offset at or after `i` where some lexical class matches, or the
/// end of the text: the point where scanning resynchronizes after an
/// unrecognized run.
pub open spec fn resync_end(s: Seq<u8>, i: int) -> int
    decreases s.len() - i,
    when 0 <= i <= s.len()
{
    if i >= s.len() {
        i
    } else if raw_match(s, i) is Some {
        i
    } else {
        resync_end(s, next_pos(s, i))
    }
}

/// One raw scanning step at offset `i`: the matched token or trivia, or a
/// `LexError` covering the whole unrecognized run.
pub open spec fn raw_step(s: Seq<u8>, i: int) -> (Token, int) {
    match raw_match(s, i) {
        Some(tw) => tw,
        None => (Token::LexError, resync_end(s, next_pos(s, i))),
    }
}

/// A subscript may never begin an identifier, nor any other token: at a
/// position holding a subscript scalar, the scanner can only report an
/// unrecognized run.
pub proof fn lemma_subscript_never_starts_token(s: Seq<u8>, i: int)
    requires
        0 <= i < s.len(),
        is_subscript_scalar(scalar_at(s, i)),
    ensures
        raw_match(s, i) is None,
        raw_step(s, i).0 == Token::LexError,
{
}

/// A backslash escape that spells a reserved word collapses to that fixed
/// token and never becomes a name: `\to` is the arrow, `\top` the truth
/// constant, and so on; only an unreserved run is a name.
pub proof fn lemma_reserved_escape_is_fixed(s: Seq<u8>, i: int)
    requires
        0 <= i < s.len(),
        scalar_at(s, i) == 0x5C,
        i + 1 < s.len(),
        is_ascii_letter(s[i + 1]),
    ensures
        ({
            let j = ascii_run_end(s, i + 2);
            match reserved_fancy(s, i, j) {
                Some(t) => raw_match(s, i) == Some((t, j)) && t != Token::FancyNameAscii,
                None => raw_match(s, i) == Some((Token::FancyNameAscii, j)),
            }
        }),
{
    assert(!is_whitespace_scalar(0x5C));
    assert(!is_name_start_scalar(0x5C));
}

/// Every byte of an ASCII identifier run is a letter, digit or underscore.
pub proof fn lemma_ascii_run_bytes(s: Seq<u8>, i: int, p: int)
    requires
        0 <= i <= s.len(),
        i <= p < ascii_run_end(s, i),
    ensures
        is_ascii_ident_byte(s[p]),
    decreases s.len() - i,
{
    if i < s.len() && is_ascii_ident_byte(s[i]) {
        if p > i {
            lemma_ascii_run_bytes(s, i + 1, p);
        }
    } else {
        assert(ascii_run_end(s, i) == i);
    }
}

/// No byte of a scalar other than the backslash itself can be the
/// backslash byte: a one-byte scalar is its own byte, and the bytes of a
/// wider encoding all lie above it.
pub proof fn lemma_scalar_bytes_no_backslash(s: Seq<u8>, i: int, p: int)
    requires
        valid_utf8(s),
        is_char_boundary(s, i),
        0 <= i < s.len(),
        scalar_at(s, i) != 0x5C,
        i <= p < i + scalar_width_at(s, i),
    ensures
        s[p] != 0x5C,
{
    lemma_scalar_window(s, i);
    let suf = suffix_at(s, i);
    let w = scalar_width_at(s, i);
    assert(suf[p - i] == s[p]);
    if w == 1 {
        lemma_one_byte_scalar(s, i);
    } else {
        if p == i {
            assert(!vstd::utf8::is_leading_byte_width_1(suf[0]));
            assert(s[p] >= 0xC0);
        } else {
            assert(vstd::utf8::is_continuation_byte(suf[p - i]));
            assert(s[p] >= 0x80);
        }
    }
}

/// Inside a broad Unicode name run, no byte is the backslash byte.
pub proof fn lemma_name_run_no_backslash(s: Seq<u8>, i: int, p: int)
    requires
        valid_utf8(s),
        is_char_boundary(s, i),
        0 <= i <= s.len(),
        i <= p < name_run_end(s, i),
    ensures
        s[p] != 0x5C,
    decreases s.len() - i,
{
    assert(i < s.len());
    assert(is_name_continue_scalar(scalar_at(s, i)));
    lemma_scalar_window(s, i);
    let w = scalar_width_at(s, i);
    assert(!is_name_continue_scalar(0x5C));
    if p < i + w {
        lemma_scalar_bytes_no_backslash(s, i, p);
    } else {
        lemma_name_run_no_backslash(s, i + w, p);
    }
}

/// A literal backslash may stand only first in a name.  For any name token
/// the scanner matches, every byte after the first differs from the
/// backslash byte; so `\A` can be a name, while `\\A` cannot lex as one.
pub proof fn lemma_backslash_only_first(s: Seq<u8>, i: int, p: int)
    requires
        valid_utf8(s),
        is_char_boundary(s, i),
        0 <= i < s.len(),
        ({
            ||| raw_match(s, i) matches Some((Token::Name, j)) && i < p < j
            ||| raw_match(s, i) matches Some((Token::FancyNameAscii, j)) && i < p < j
        }),
    ensures
        s[p] != 0x5C,
{
    let c = scalar_at(s, i);
    if c == 0x5C {
        // the escape form: everything after the backslash is an ASCII
        // identifier byte
        assert(i + 1 < s.len() && is_ascii_letter(s[i + 1]));
        let j = ascii_run_end(s, i + 2);
        if p == i + 1 {
        } else {
            lemma_ascii_run_bytes(s, i + 2, p);
        }
    } else {
        // the broad form: the leading scalar is a name-start scalar, and
        // the rest of the run never holds a backslash byte
        assert(is_name_start_scalar(c));
        lemma_scalar_window(s, i);
        let w = scalar_width_at(s, i);
        assert(!is_name_start_scalar(0x5C));
        if p < i + w {
            lemma_scalar_bytes_no_backslash(s, i, p);
        } else {
            lemma_name_run_no_backslash(s, i + w, p);
        }
    }
}

/// Executable mirror of `raw_match`.
pub(crate) fn match_at(s: &[u8], i: usize) -> (r: Option<(Token, usize)>)
    requires
        valid_utf8(s@),
        is_char_boundary(s@, i as int),
        i < s@.len(),
    ensures
        match r {
            Some(tj) => raw_match(s@, i as int) == Some((tj.0, tj.1 as int)) && i < tj.1
                <= s@.len() && is_char_boundary(s@, tj.1 as int),
            None => raw_match(s@, i as int) is None,
        },
{
    let n = s.len();
    let (c, w) = scalar_at_exec(s, i);
    if is_whitespace_scalar_exec(c) {
        let j = scan_ws_from(s, i);
        proof {
            assert(ws_run_end(s@, i as int) == ws_run_end(s@, i + w));
            lemma_ws_run_lb(s@, i + w);
        }
        Some((Token::Whitespace, j))
    } else if c == 0x23 {
        let j = scan_comment_from(s, i + w);
        proof {
            lemma_comment_run_lb(s@, i + w);
        }
        Some((Token::Comment, j))
    } else if c == 0x2E {
        Some((Token::Dot, i + w))
    } else if c == 0x3A {
        if i + 1 < n && s[i + 1] == 0x3D {
            proof {
                lemma_one_byte_scalar(s@, i as int);
                lemma_one_byte_scalar(s@, i + 1);
            }
            Some((Token::Def, i + 2))
        } else {
            Some((Token::Colon, i + w))
        }
    } else if c == 0x3B {
        Some((Token::Semi, i + w))
    } else if c == 0x28 {
        Some((Token::LParen, i + w))
    } else if c == 0x29 {
        Some((Token::RParen, i + w))
    } else if c == 0x5B {
        Some((Token::LBrack, i + w))
    } else if c == 0x5D {
        Some((Token::RBrack, i + w))
    } else if c == 0x2254 {
        Some((Token::Def, i + w))
    } else if c == 0x2192 {
        Some((Token::Arrow, i + w))
    } else if c == 0x2194 {
        Some((Token::Iff, i + w))
    } else if c == 0xAC {
        Some((Token::Neg, i + w))
    } else if c == 0x2C97 {
        Some((Token::Abs, i + w))
    } else if c == 0x2227 {
        Some((Token::Conj, i + w))
    } else if c == 0x2228 {
        Some((Token::Disj, i + w))
    } else if c == 0x22A4 {
        Some((Token::Top, i + w))
    } else if c == 0x22A5 {
        Some((Token::Bot, i + w))
    } else if c == 0x25A1 {
        Some((Token::QED, i + w))
    } else if c == 0x2234 {
        Some((Token::Thus, i + w))
    } else if c == 0x2023 {
        Some((Token::CaseLeg, i + w))
    } else if c == 0x5C {
        if i + 1 < n && is_ascii_letter_exec(s[i + 1]) {
            proof {
                lemma_one_byte_scalar(s@, i as int);
                lemma_one_byte_scalar(s@, i + 1);
            }
            let j = scan_ascii_from(s, i + 2);
            let n = j - i;
            let t = if n == 3 && s[i + 1] == 0x74 && s[i + 2] == 0x6F {
                Token::Arrow
            } else if n == 4 && s[i + 1] == 0x69 && s[i + 2] == 0x66 && s[i + 3] == 0x66 {
                Token::Iff
            } else if n == 4 && s[i + 1] == 0x6E && s[i + 2] == 0x65 && s[i + 3] == 0x67 {
                Token::Neg
            } else if n == 4 && s[i + 1] == 0x6C && s[i + 2] == 0x61 && s[i + 3] == 0x6D {
                Token::Abs
            } else if n == 4 && s[i + 1] == 0x61 && s[i + 2] == 0x6E && s[i + 3] == 0x64 {
                Token::Conj
            } else if n == 3 && s[i + 1] == 0x6F && s[i + 2] == 0x72 {
                Token::Disj
            } else if n == 4 && s[i + 1] == 0x74 && s[i + 2] == 0x6F && s[i + 3] == 0x70 {
                Token::Top
            } else if n == 4 && s[i + 1] == 0x62 && s[i + 2] == 0x6F && s[i + 3] == 0x74 {
                Token::Bot
            } else if n == 4 && s[i + 1] == 0x71 && s[i + 2] == 0x65 && s[i + 3] == 0x64 {
                Token::QED
            } else if n == 5 && s[i + 1] == 0x74 && s[i + 2] == 0x68 && s[i + 3] == 0x75 && s[i + 4]
                == 0x73 {
                Token::Thus
            } else if n == 5 && s[i + 1] == 0x63 && s[i + 2] == 0x61 && s[i + 3] == 0x73 && s[i + 4]
                == 0x65 {
                Token::Case
            } else if n == 6 && s[i + 1] == 0x6D && s[i + 2] == 0x61 && s[i + 3] == 0x74 && s[i + 4]
                == 0x63 && s[i + 5] == 0x68 {
                Token::CaseLeg
            } else {
                Token::FancyNameAscii
            };
            Some((t, j))
        } else {
            None
        }
    } else if is_name_start_scalar_exec(c) {
        let j = scan_name_from(s, i + w);
        proof {
            lemma_name_run_lb(s@, i + w);
        }
        if j - i == 4 && s[i] == 0x50 && s[i + 1] == 0x72 && s[i + 2] == 0x6F && s[i + 3] == 0x70 {
            Some((Token::PropT, j))
        } else {
            Some((Token::Name, j))
        }
    } else {
        None
    }
}

/// Executable mirror of `raw_step`: the next raw token at offset `i`,
/// resynchronizing after an unrecognized run.
pub(crate) fn raw_step_at(s: &[u8], i: usize) -> (r: (Token, usize))
    requires
        valid_utf8(s@),
        is_char_boundary(s@, i as int),
        i < s@.len(),
    ensures
        raw_step(s@, i as int) == (r.0, r.1 as int),
        i < r.1 <= s@.len(),
        is_char_boundary(s@, r.1 as int),
{
    let n = s.len();
    match match_at(s, i) {
        Some(tj) => tj,
        None => {
            let (c0, w0) = scalar_at_exec(s, i);
            let mut p: usize = i + w0;
            loop
                invariant
                    valid_utf8(s@),
                    is_char_boundary(s@, p as int),
                    i < p <= s@.len(),
                    resync_end(s@, i + w0) == resync_end(s@, p as int),
                ensures
                    is_char_boundary(s@, p as int),
                    i < p <= s@.len(),
                    resync_end(s@, i + w0) == p as int,
                decreases s@.len() - p,
            {
                if p >= s.len() {
                    break ;
                }
                let m = match_at(s, p);
                if m.is_some() {
                    break ;
                }
                let (c, w) = scalar_at_exec(s, p);
                p = p + w;
            }
            (Token::LexError, p)
        },
    }
}

} // verus!
