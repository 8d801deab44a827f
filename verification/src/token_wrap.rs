//! The surface token stream.
//!
//! `Tokens` walks the raw scanning table of [`crate::lex`] over a source
//! text, silently skipping trivia and handing out spanned surface tokens or
//! lexical errors.  The whole emitted stream is pinned down by the spec
//! function [`spec_items`], so re-scanning a text is deterministic by
//! contract.

use crate::lex;
use vstd::prelude::*;
use vstd::string::StringSliceAdditionalSpecFns;
use vstd::utf8::{decode_utf8, encode_utf8, is_char_boundary, valid_utf8};

verus! {

broadcast use vstd::utf8::group_utf8_lib;

/// One surface token.  Fixed-spelling tokens are bare tags; a `Name` carries
/// the matched source slice.
#[derive(Debug, Clone, Copy, PartialEq, Eq)]
pub enum Token<'a> {
    Dot,
    Semi,
    Colon,
    LParen,
    RParen,
    LBrack,
    RBrack,
    Bot,
    Top,
    Disj,
    Conj,
    Abs,
    Neg,
    Iff,
    Arrow,
    Def,
    QED,
    Thus,
    Case,
    CaseLeg,
    PropT,
    Name(&'a str),
}

/// The mathematical value of a surface token: the same tags, with a name's
/// payload as its character sequence.
pub enum TokenModel {
    Dot,
    Semi,
    Colon,
    LParen,
    RParen,
    LBrack,
    RBrack,
    Bot,
    Top,
    Disj,
    Conj,
    Abs,
    Neg,
    Iff,
    Arrow,
    Def,
    QED,
    Thus,
    Case,
    CaseLeg,
    PropT,
    Name(Seq<char>),
}

impl<'a> View for Token<'a> {
    type V = TokenModel;

    open spec fn view(&self) -> TokenModel {
        match *self {
            Token::Dot => TokenModel::Dot,
            Token::Semi => TokenModel::Semi,
            Token::Colon => TokenModel::Colon,
            Token::LParen => TokenModel::LParen,
            Token::RParen => TokenModel::RParen,
            Token::LBrack => TokenModel::LBrack,
            Token::RBrack => TokenModel::RBrack,
            Token::Bot => TokenModel::Bot,
            Token::Top => TokenModel::Top,
            Token::Disj => TokenModel::Disj,
            Token::Conj => TokenModel::Conj,
            Token::Abs => TokenModel::Abs,
            Token::Neg => TokenModel::Neg,
            Token::Iff => TokenModel::Iff,
            Token::Arrow => TokenModel::Arrow,
            Token::Def => TokenModel::Def,
            Token::QED => TokenModel::QED,
            Token::Thus => TokenModel::Thus,
            Token::Case => TokenModel::Case,
            Token::CaseLeg => TokenModel::CaseLeg,
            Token::PropT => TokenModel::PropT,
            Token::Name(s) => TokenModel::Name(s@),
        }
    }
}

/// An unrecognized run of input, as the half-open byte range it covers.
#[derive(Debug, Clone, Copy, PartialEq, Eq, Structural)]
pub struct LexicalError {
    pub start: usize,
    pub end: usize,
}

/// One item of the emitted stream: a spanned token, or the byte range of an
/// unrecognized run.
pub enum LexItem {
    Tok { start: int, token: TokenModel, end: int },
    Bad { start: int, end: int },
}

/// The surface tag for a fixed raw token class.
pub open spec fn fixed_token_model(t: lex::Token) -> TokenModel {
    match t {
        lex::Token::Dot => TokenModel::Dot,
        lex::Token::Def => TokenModel::Def,
        lex::Token::Arrow => TokenModel::Arrow,
        lex::Token::Iff => TokenModel::Iff,
        lex::Token::Neg => TokenModel::Neg,
        lex::Token::Abs => TokenModel::Abs,
        lex::Token::Conj => TokenModel::Conj,
        lex::Token::Disj => TokenModel::Disj,
        lex::Token::Top => TokenModel::Top,
        lex::Token::Bot => TokenModel::Bot,
        lex::Token::QED => TokenModel::QED,
        lex::Token::Thus => TokenModel::Thus,
        lex::Token::Case => TokenModel::Case,
        lex::Token::CaseLeg => TokenModel::CaseLeg,
        lex::Token::PropT => TokenModel::PropT,
        lex::Token::LParen => TokenModel::LParen,
        lex::Token::RParen => TokenModel::RParen,
        lex::Token::LBrack => TokenModel::LBrack,
        lex::Token::RBrack => TokenModel::RBrack,
        lex::Token::Colon => TokenModel::Colon,
        lex::Token::Semi => TokenModel::Semi,
        _ => TokenModel::Dot,
    }
}

/// The sequence of items the scanner emits from byte offset `i` to the end
/// of the text: trivia vanishes, names carry their decoded slice, and an
/// unrecognized run becomes one `Bad` item.
pub open spec fn spec_items(s: Seq<u8>, i: int) -> Seq<LexItem>
    decreases s.len() - i,
    when 0 <= i <= s.len()
{
    if i >= s.len() {
        Seq::empty()
    } else {
        let step = lex::raw_step(s, i);
        let j = if i < step.1 <= s.len() {
            step.1
        } else {
            s.len() as int
        };
        match step.0 {
            lex::Token::Whitespace => spec_items(s, j),
            lex::Token::Comment => spec_items(s, j),
            lex::Token::LexError => seq![LexItem::Bad { start: i, end: j }] + spec_items(s, j),
            lex::Token::Name => seq![
                LexItem::Tok {
                    start: i,
                    token: TokenModel::Name(decode_utf8(s.subrange(i, j))),
                    end: j,
                },
            ] + spec_items(s, j),
            lex::Token::FancyNameAscii => seq![
                LexItem::Tok {
                    start: i,
                    token: TokenModel::Name(decode_utf8(s.subrange(i, j))),
                    end: j,
                },
            ] + spec_items(s, j),
            t => seq![LexItem::Tok { start: i, token: fixed_token_model(t), end: j }] + spec_items(
                s,
                j,
            ),
        }
    }
}

/// The spec value of one emitted exec item.
pub open spec fn item_view<'a>(r: Result<(usize, Token<'a>, usize), LexicalError>) -> LexItem {
    match r {
        Ok(tup) => LexItem::Tok { start: tup.0 as int, token: tup.1@, end: tup.2 as int },
        Err(le) => LexItem::Bad { start: le.start as int, end: le.end as int },
    }
}

/// The spec value of a whole emitted exec stream.
pub open spec fn items_view<'a>(v: Seq<Result<(usize, Token<'a>, usize), LexicalError>>) -> Seq<
    LexItem,
> {
    v.map(|k: int, r: Result<(usize, Token<'a>, usize), LexicalError>| item_view(r))
}

/// A character boundary of a text is a character boundary of any prefix cut
/// at a boundary at or after it.
proof fn lemma_boundary_prefix(s: Seq<u8>, j: int, i: int)
    requires
        valid_utf8(s),
        is_char_boundary(s, j),
        is_char_boundary(s, i),
        0 <= i <= j <= s.len(),
    ensures
        is_char_boundary(s.subrange(0, j), i),
{
    vstd::utf8::valid_utf8_split(s, j);
    let pre = s.subrange(0, j);
    if i == j {
        assert(pre.len() == j);
        vstd::utf8::is_char_boundary_start_end_of_seq(pre);
    } else {
        assert(pre[i] == s[i]);
        vstd::utf8::is_char_boundary_iff_not_is_continuation_byte(s, i);
        vstd::utf8::is_char_boundary_iff_not_is_continuation_byte(pre, i);
    }
}

/// Cuts the slice `[i, j)` out of a source text along character boundaries.
fn substr<'a>(s: &'a str, i: usize, j: usize) -> (r: &'a str)
    requires
        i <= j <= s.spec_bytes().len(),
        is_char_boundary(s.spec_bytes(), i as int),
        is_char_boundary(s.spec_bytes(), j as int),
    ensures
        r.spec_bytes() == s.spec_bytes().subrange(i as int, j as int),
        r@ == decode_utf8(s.spec_bytes().subrange(i as int, j as int)),
{
    proof {
        assert(valid_utf8(s.spec_bytes()));
        lemma_boundary_prefix(s.spec_bytes(), j as int, i as int);
    }
    let (pre, _) = s.split_at(j);
    let (_, mid) = pre.split_at(i);
    proof {
        assert(mid.spec_bytes() =~= s.spec_bytes().subrange(i as int, j as int));
        assert(decode_utf8(encode_utf8(mid@)) == mid@);
    }
    mid
}

/// A restartable scanner over one source text: a cursor that always sits on
/// a character boundary of the text.
pub struct Tokens<'a> {
    src: &'a str,
    pos: usize,
}

impl<'a> Tokens<'a> {
    /// The UTF-8 bytes of the scanned text.
    pub closed spec fn src_bytes(self) -> Seq<u8> {
        self.src.spec_bytes()
    }

    /// The cursor sits on a character boundary.
    pub closed spec fn wf(self) -> bool {
        self.pos <= self.src.spec_bytes().len() && is_char_boundary(
            self.src.spec_bytes(),
            self.pos as int,
        )
    }

    /// Starts a scanner at the beginning of `source`.
    pub fn from_string(source: &'a str) -> (t: Tokens<'a>)
        ensures
            t.wf(),
            t.src_bytes() == source.spec_bytes(),
            t@ == spec_items(source.spec_bytes(), 0),
    {
        proof {
            assert(valid_utf8(source.spec_bytes()));
        }
        Tokens { src: source, pos: 0 }
    }

    /// Emits the next spanned token or lexical error, skipping any run of
    /// trivia before it; `None` once the text is exhausted.
    pub fn next(&mut self) -> (r: Option<Result<(usize, Token<'a>, usize), LexicalError>>)
        requires
            old(self).wf(),
        ensures
            final(self).wf(),
            final(self).src_bytes() == old(self).src_bytes(),
            match r {
                None => old(self)@.len() == 0 && final(self)@.len() == 0,
                Some(item) => old(self)@.len() > 0 && item_view(item) == old(self)@[0]
                    && final(self)@ == old(self)@.drop_first(),
            },
    {
        proof {
            assert(valid_utf8(self.src.spec_bytes()));
        }
        let ghost bs = self.src.spec_bytes();
        let bytes = self.src.as_bytes();
        let n = bytes.len();
        loop
            invariant
                self.wf(),
                self.src == old(self).src,
                bytes@ == bs,
                bs == self.src.spec_bytes(),
                n == bs.len(),
                valid_utf8(bs),
                spec_items(bs, self.pos as int) == old(self)@,
            decreases bs.len() - self.pos,
        {
            if self.pos >= n {
                return None;
            }
            let start = self.pos;
            let (t, j) = lex::raw_step_at(bytes, start);
            match t {
                lex::Token::Whitespace => {
                    proof {
                        assert(spec_items(bs, start as int) == spec_items(bs, j as int));
                    }
                    self.pos = j;
                },
                lex::Token::Comment => {
                    proof {
                        assert(spec_items(bs, start as int) == spec_items(bs, j as int));
                    }
                    self.pos = j;
                },
                lex::Token::LexError => {
                    self.pos = j;
                    proof {
                        assert(spec_items(bs, start as int) =~= seq![
                            LexItem::Bad { start: start as int, end: j as int },
                        ] + spec_items(bs, j as int));
                    }
                    return Some(Err(LexicalError { start, end: j }));
                },
                lex::Token::Name => {
                    let slice = substr(self.src, start, j);
                    self.pos = j;
                    return Some(Ok((start, Token::Name(slice), j)));
                },
                lex::Token::FancyNameAscii => {
                    let slice = substr(self.src, start, j);
                    self.pos = j;
                    return Some(Ok((start, Token::Name(slice), j)));
                },
                _ => {
                    let tok = wrap_fixed(t);
                    self.pos = j;
                    return Some(Ok((start, tok, j)));
                },
            }
        }
    }
}

impl<'a> View for Tokens<'a> {
    type V = Seq<LexItem>;

    /// The items still to be emitted.
    closed spec fn view(&self) -> Seq<LexItem> {
        spec_items(self.src.spec_bytes(), self.pos as int)
    }
}

/// The surface token for a fixed raw class.
fn wrap_fixed<'a>(t: lex::Token) -> (r: Token<'a>)
    requires
        !(t is Name),
        !(t is FancyNameAscii),
        !(t is Whitespace),
        !(t is Comment),
        !(t is LexError),
    ensures
        r@ == fixed_token_model(t),
{
    match t {
        lex::Token::Dot => Token::Dot,
        lex::Token::Def => Token::Def,
        lex::Token::Arrow => Token::Arrow,
        lex::Token::Iff => Token::Iff,
        lex::Token::Neg => Token::Neg,
        lex::Token::Abs => Token::Abs,
        lex::Token::Conj => Token::Conj,
        lex::Token::Disj => Token::Disj,
        lex::Token::Top => Token::Top,
        lex::Token::Bot => Token::Bot,
        lex::Token::QED => Token::QED,
        lex::Token::Thus => Token::Thus,
        lex::Token::Case => Token::Case,
        lex::Token::CaseLeg => Token::CaseLeg,
        lex::Token::PropT => Token::PropT,
        lex::Token::LParen => Token::LParen,
        lex::Token::RParen => Token::RParen,
        lex::Token::LBrack => Token::LBrack,
        lex::Token::RBrack => Token::RBrack,
        lex::Token::Colon => Token::Colon,
        lex::Token::Semi => Token::Semi,
        _ => Token::Dot,
    }
}

/// Scanning is a pure function of the text: any two scans of the same
/// bytes yield the same item sequence, so re-lexing for tooling or a
/// parallel re-parse can never disagree with the first scan.
pub proof fn lemma_rescan_idempotent(s: Seq<u8>, r1: Seq<LexItem>, r2: Seq<LexItem>)
    requires
        r1 == spec_items(s, 0),
        r2 == spec_items(s, 0),
    ensures
        r1 == r2,
{
}

impl<'a> Token<'a> {
    /// The canonical spelling of this token: the Unicode glyph of a fixed
    /// token, or a name's own slice.
    pub open spec fn spec_text(self) -> Seq<char> {
        match self {
            Token::Dot => "."@,
            Token::Abs => "ⲗ"@,
            Token::Bot => "⊥"@,
            Token::Def => "≔"@,
            Token::Iff => "↔"@,
            Token::Neg => "¬"@,
            Token::Top => "⊤"@,
            Token::QED => "□"@,
            Token::Conj => "∧"@,
            Token::Disj => "∨"@,
            Token::Semi => ";"@,
            Token::Thus => "∴"@,
            Token::CaseLeg => "‣"@,
            Token::Case => "case"@,
            Token::Arrow => "→"@,
            Token::Colon => ":"@,
            Token::PropT => "Prop"@,
            Token::LParen => "("@,
            Token::RParen => ")"@,
            Token::LBrack => "["@,
            Token::RBrack => "]"@,
            Token::Name(s) => s@,
        }
    }

    /// The canonical spelling, as an owned string.
    pub fn text(&self) -> (r: String)
        ensures
            r@ == self.spec_text(),
    {
        match self {
            Token::Dot => String::from_str("."),
            Token::Abs => String::from_str("ⲗ"),
            Token::Bot => String::from_str("⊥"),
            Token::Def => String::from_str("≔"),
            Token::Iff => String::from_str("↔"),
            Token::Neg => String::from_str("¬"),
            Token::Top => String::from_str("⊤"),
            Token::QED => String::from_str("□"),
            Token::Conj => String::from_str("∧"),
            Token::Disj => String::from_str("∨"),
            Token::Semi => String::from_str(";"),
            Token::Thus => String::from_str("∴"),
            Token::CaseLeg => String::from_str("‣"),
            Token::Case => String::from_str("case"),
            Token::Arrow => String::from_str("→"),
            Token::Colon => String::from_str(":"),
            Token::PropT => String::from_str("Prop"),
            Token::LParen => String::from_str("("),
            Token::RParen => String::from_str(")"),
            Token::LBrack => String::from_str("["),
            Token::RBrack => String::from_str("]"),
            Token::Name(s) => String::from_str(s),
        }
    }
}

/// Scans a whole source text into its emitted stream.
pub fn tokenize<'a>(source: &'a str) -> (items: Vec<
    Result<(usize, Token<'a>, usize), LexicalError>,
>)
    ensures
        items_view(items@) == spec_items(source.spec_bytes(), 0),
{
    let mut t = Tokens::from_string(source);
    let mut out: Vec<Result<(usize, Token<'a>, usize), LexicalError>> = Vec::new();
    loop
        invariant
            t.wf(),
            items_view(out@) + t@ =~= spec_items(source.spec_bytes(), 0),
        ensures
            items_view(out@) =~= spec_items(source.spec_bytes(), 0),
        decreases t@.len(),
    {
        match t.next() {
            None => {
                proof {
                    assert(items_view(out@) =~= items_view(out@) + t@);
                }
                break ;
            },
            Some(item) => {
                let ghost out0 = out@;
                out.push(item);
                proof {
                    assert(items_view(out@) =~= items_view(out0) + seq![item_view(item)]);
                }
            },
        }
    }
    proof {
        assert(items_view(out@) == spec_items(source.spec_bytes(), 0));
    }
    out
}

} // verus!
