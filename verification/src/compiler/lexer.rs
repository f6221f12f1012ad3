//! The schema language's tokens: identifiers, double-quoted strings with
//! no escapes, keywords, punctuation, comments from `//` to the end of
//! the line. Whitespace and newlines separate tokens and are dropped.

use vstd::prelude::*;

use crate::compiler::semantics::{self, is_alnum, is_alpha, new_string};

verus! {

/// A token's kind.
#[derive(Debug, Clone, Copy, PartialEq, Eq, Structural)]
pub enum TokenKind {
    KwStruct,
    KwEnum,
    KwFlags,
    KwImport,
    KwFrom,
    KwAs,
    Star,
    LBrace,
    RBrace,
    Colon,
    Comma,
    Lt,
    Gt,
    Ident,
    StrLit,
    Unknown,
}

/// One token: its kind, its text (the name of an identifier, the contents
/// of a string, empty otherwise) and the character position it starts at.
#[derive(Debug)]
pub struct Token {
    pub kind: TokenKind,
    pub text: String,
    pub start: usize,
}

/// A token as the model sees it.
pub open spec fn token_view(t: &Token) -> (TokenKind, Seq<char>, int) {
    (t.kind, t.text@, t.start as int)
}

/// The views of a token list.
pub open spec fn token_views(ts: Seq<Token>) -> Seq<(TokenKind, Seq<char>, int)> {
    Seq::new(ts.len(), |k: int| token_view(&ts[k]))
}

/// Whether a character only separates tokens.
pub open spec fn is_trivia(c: char) -> bool {
    c == ' ' || c == '\t' || c == '\n' || c == '\r' || c == '\x0c'
}

/// Whether a character may start an identifier.
pub open spec fn is_ident_start(c: char) -> bool {
    is_alpha(c) || c == '_'
}

/// Whether a character may continue an identifier.
pub open spec fn is_ident_char(c: char) -> bool {
    is_alnum(c) || c == '_'
}

/// The position right after the identifier that starts at `i`.
pub open spec fn ident_end(s: Seq<char>, i: int) -> int
    decreases s.len() - i,
    when 0 <= i <= s.len()
{
    if i == s.len() {
        i
    } else if is_ident_char(s[i]) {
        ident_end(s, i + 1)
    } else {
        i
    }
}

/// The position of the next line break at or after `i`.
pub open spec fn line_end(s: Seq<char>, i: int) -> int
    decreases s.len() - i,
    when 0 <= i <= s.len()
{
    if i == s.len() {
        i
    } else if s[i] == '\n' || s[i] == '\r' {
        i
    } else {
        line_end(s, i + 1)
    }
}

/// The position of the next double quote at or after `i`, or the length.
pub open spec fn quote_end(s: Seq<char>, i: int) -> int
    decreases s.len() - i,
    when 0 <= i <= s.len()
{
    if i == s.len() {
        i
    } else if s[i] == '"' {
        i
    } else {
        quote_end(s, i + 1)
    }
}

pub proof fn lemma_scan_bounds(s: Seq<char>, i: int)
    requires
        0 <= i <= s.len(),
    ensures
        i <= ident_end(s, i) <= s.len(),
        i <= line_end(s, i) <= s.len(),
        i <= quote_end(s, i) <= s.len(),
    decreases s.len() - i,
{
    if i < s.len() {
        lemma_scan_bounds(s, i + 1);
    }
}

/// The kind an identifier's spelling denotes: a keyword's kind, or an
/// identifier.
pub open spec fn kw_kind(text: Seq<char>) -> TokenKind {
    if text == "struct"@ {
        TokenKind::KwStruct
    } else if text == "enum"@ {
        TokenKind::KwEnum
    } else if text == "flags"@ {
        TokenKind::KwFlags
    } else if text == "import"@ {
        TokenKind::KwImport
    } else if text == "from"@ {
        TokenKind::KwFrom
    } else if text == "as"@ {
        TokenKind::KwAs
    } else {
        TokenKind::Ident
    }
}

/// The kind of a punctuation character, or nothing.
pub open spec fn punct_kind(c: char) -> Option<TokenKind> {
    if c == '*' {
        Some(TokenKind::Star)
    } else if c == '{' {
        Some(TokenKind::LBrace)
    } else if c == '}' {
        Some(TokenKind::RBrace)
    } else if c == ':' {
        Some(TokenKind::Colon)
    } else if c == ',' {
        Some(TokenKind::Comma)
    } else if c == '<' {
        Some(TokenKind::Lt)
    } else if c == '>' {
        Some(TokenKind::Gt)
    } else {
        None
    }
}

/// The tokens of the source from position `i` on: trivia and comments
/// dropped, identifiers classified into keywords, an unterminated string
/// turned into one unknown token that ends the scan.
pub open spec fn spec_tokens(s: Seq<char>, i: int) -> Seq<(TokenKind, Seq<char>, int)>
    decreases s.len() - i,
    when 0 <= i <= s.len()
{
    if i >= s.len() {
        Seq::empty()
    } else {
        let c = s[i];
        if is_trivia(c) {
            spec_tokens(s, i + 1)
        } else if c == '/' && i + 1 < s.len() && s[i + 1] == '/' {
            proof {
                lemma_scan_bounds(s, i + 2);
            }
            spec_tokens(s, line_end(s, i + 2))
        } else if is_ident_start(c) {
            proof {
                lemma_scan_bounds(s, i + 1);
            }
            let e = ident_end(s, i + 1);
            seq![(kw_kind(s.subrange(i, e)), s.subrange(i, e), i)] + spec_tokens(s, e)
        } else if c == '"' {
            proof {
                lemma_scan_bounds(s, i + 1);
            }
            let e = quote_end(s, i + 1);
            if e < s.len() {
                seq![(TokenKind::StrLit, s.subrange(i + 1, e), i)] + spec_tokens(s, e + 1)
            } else {
                seq![(TokenKind::Unknown, Seq::empty(), i)]
            }
        } else {
            match punct_kind(c) {
                Some(kind) => seq![(kind, Seq::<char>::empty(), i)] + spec_tokens(s, i + 1),
                None => seq![(TokenKind::Unknown, Seq::<char>::empty(), i)] + spec_tokens(
                    s,
                    i + 1,
                ),
            }
        }
    }
}

fn is_trivia_exec(c: char) -> (r: bool)
    ensures
        r == is_trivia(c),
{
    c == ' ' || c == '\t' || c == '\n' || c == '\r' || c == '\x0c'
}

fn is_ident_start_exec(c: char) -> (r: bool)
    ensures
        r == is_ident_start(c),
{
    ('a' <= c && c <= 'z') || ('A' <= c && c <= 'Z') || c == '_'
}

fn is_ident_char_exec(c: char) -> (r: bool)
    ensures
        r == is_ident_char(c),
{
    is_ident_start_exec(c) || ('0' <= c && c <= '9')
}

/// Classify an identifier's spelling.
fn kw_kind_exec(text: &str) -> (r: TokenKind)
    ensures
        r == kw_kind(text@),
{
    proof {
        reveal_strlit("struct");
        reveal_strlit("enum");
        reveal_strlit("flags");
        reveal_strlit("import");
        reveal_strlit("from");
        reveal_strlit("as");
    }
    if text.eq("struct") {
        TokenKind::KwStruct
    } else if text.eq("enum") {
        TokenKind::KwEnum
    } else if text.eq("flags") {
        TokenKind::KwFlags
    } else if text.eq("import") {
        TokenKind::KwImport
    } else if text.eq("from") {
        TokenKind::KwFrom
    } else if text.eq("as") {
        TokenKind::KwAs
    } else {
        TokenKind::Ident
    }
}

/// Copy the characters of `cs[from..to]` into a fresh string.
fn substring_of(cs: &Vec<char>, from: usize, to: usize) -> (r: String)
    requires
        from <= to <= cs@.len(),
    ensures
        r@ == cs@.subrange(from as int, to as int),
{
    let mut r = new_string();
    let mut k: usize = from;
    while k < to
        invariant
            from <= k <= to,
            to <= cs@.len(),
            r@ == cs@.subrange(from as int, k as int),
        decreases to - k,
    {
        r.push(cs[k]);
        proof {
            assert(r@ =~= cs@.subrange(from as int, k + 1));
        }
        k = k + 1;
    }
    r
}

/// Tokenize schema source text.
pub fn tokenize(source: &str) -> (r: Vec<Token>)
    ensures
        token_views(r@) == spec_tokens(source@, 0),
{
    let cs = semantics::str_to_chars(source);
    let ghost s = source@;
    let n = cs.len();
    let mut out: Vec<Token> = Vec::new();
    let mut i: usize = 0;
    proof {
        assert(token_views(out@) + spec_tokens(s, 0) =~= spec_tokens(s, 0));
    }
    while i < n
        invariant
            i <= n,
            n == s.len(),
            cs@ == s,
            token_views(out@) + spec_tokens(s, i as int) == spec_tokens(s, 0),
        decreases n - i,
    {
        let c = cs[i];
        if is_trivia_exec(c) {
            i = i + 1;
        } else if c == '/' && i + 1 < n && cs[i + 1] == '/' {
            proof {
                lemma_scan_bounds(s, i + 2);
            }
            let mut e: usize = i + 2;
            while e < n && cs[e] != '\n' && cs[e] != '\r'
                invariant
                    i + 2 <= e <= n,
                    n == s.len(),
                    cs@ == s,
                    line_end(s, i + 2) == line_end(s, e as int),
                decreases n - e,
            {
                e = e + 1;
            }
            proof {
                assert(line_end(s, e as int) == e);
            }
            i = e;
        } else if is_ident_start_exec(c) {
            proof {
                lemma_scan_bounds(s, i + 1);
            }
            let mut e: usize = i + 1;
            while e < n && is_ident_char_exec(cs[e])
                invariant
                    i + 1 <= e <= n,
                    n == s.len(),
                    cs@ == s,
                    ident_end(s, i + 1) == ident_end(s, e as int),
                decreases n - e,
            {
                e = e + 1;
            }
            proof {
                assert(ident_end(s, e as int) == e);
            }
            let text = substring_of(&cs, i, e);
            let kind = kw_kind_exec(text.as_str());
            let ghost outseq0 = out@;
            let ghost out0 = token_views(out@);
            out.push(Token { kind, text, start: i });
            proof {
                assert(out@.drop_last() =~= outseq0);
                lemma_views_push(out@, out0);
                assert(token_views(out@) =~= out0 + seq![
                    (kw_kind(s.subrange(i as int, e as int)), s.subrange(i as int, e as int), i as int),
                ]);
                assert(token_views(out@) + spec_tokens(s, e as int) =~= out0 + spec_tokens(
                    s,
                    i as int,
                ));
            }
            i = e;
        } else if c == '"' {
            proof {
                lemma_scan_bounds(s, i + 1);
            }
            let mut e: usize = i + 1;
            while e < n && cs[e] != '"'
                invariant
                    i + 1 <= e <= n,
                    n == s.len(),
                    cs@ == s,
                    quote_end(s, i + 1) == quote_end(s, e as int),
                decreases n - e,
            {
                e = e + 1;
            }
            proof {
                assert(quote_end(s, e as int) == e);
            }
            if e < n {
                let text = substring_of(&cs, i + 1, e);
                let ghost outseq0 = out@;
            let ghost out0 = token_views(out@);
                out.push(Token { kind: TokenKind::StrLit, text, start: i });
                proof {
                    assert(out@.drop_last() =~= outseq0);
                lemma_views_push(out@, out0);
                    assert(token_views(out@) =~= out0 + seq![
                        (TokenKind::StrLit, s.subrange(i + 1, e as int), i as int),
                    ]);
                    assert(token_views(out@) + spec_tokens(s, e + 1) =~= out0 + spec_tokens(
                        s,
                        i as int,
                    ));
                }
                i = e + 1;
            } else {
                let ghost outseq0 = out@;
            let ghost out0 = token_views(out@);
                out.push(Token { kind: TokenKind::Unknown, text: new_string(), start: i });
                proof {
                    assert(out@.drop_last() =~= outseq0);
                lemma_views_push(out@, out0);
                    assert(token_views(out@) =~= out0 + seq![
                        (TokenKind::Unknown, Seq::<char>::empty(), i as int),
                    ]);
                    assert(spec_tokens(s, n as int) =~= Seq::<(TokenKind, Seq<char>, int)>::empty());
                    assert(token_views(out@) + spec_tokens(s, n as int) =~= out0 + spec_tokens(
                        s,
                        i as int,
                    ));
                }
                i = n;
            }
        } else {
            let kind = match c {
                '*' => TokenKind::Star,
                '{' => TokenKind::LBrace,
                '}' => TokenKind::RBrace,
                ':' => TokenKind::Colon,
                ',' => TokenKind::Comma,
                '<' => TokenKind::Lt,
                '>' => TokenKind::Gt,
                _ => TokenKind::Unknown,
            };
            let ghost outseq0 = out@;
            let ghost out0 = token_views(out@);
            out.push(Token { kind, text: new_string(), start: i });
            proof {
                assert(out@.drop_last() =~= outseq0);
                lemma_views_push(out@, out0);
                assert(token_views(out@) =~= out0 + seq![(kind, Seq::<char>::empty(), i as int)]);
                assert(token_views(out@) + spec_tokens(s, i + 1) =~= out0 + spec_tokens(
                    s,
                    i as int,
                ));
            }
            i = i + 1;
        }
    }
    proof {
        assert(spec_tokens(s, n as int) =~= Seq::<(TokenKind, Seq<char>, int)>::empty());
        assert(token_views(out@) =~= token_views(out@) + spec_tokens(s, n as int));
    }
    out
}

/// Pushing one token extends the views by its view.
proof fn lemma_views_push(ts: Seq<Token>, before: Seq<(TokenKind, Seq<char>, int)>)
    requires
        ts.len() >= 1,
        before == token_views(ts.drop_last()),
    ensures
        token_views(ts) == before.push(token_view(&ts[ts.len() - 1])),
{
    assert(token_views(ts) =~= before.push(token_view(&ts[ts.len() - 1])));
}

/// How many recorded line breaks sit at or before a position.
pub open spec fn count_breaks_le(breaks: Seq<usize>, pos: int) -> nat
    decreases breaks.len(),
{
    if breaks.len() == 0 {
        0
    } else {
        count_breaks_le(breaks.drop_last(), pos) + (if breaks.last() <= pos {
            1nat
        } else {
            0nat
        })
    }
}

/// The last recorded line break at or before a position, or zero.
pub open spec fn last_break_le(breaks: Seq<usize>, pos: int) -> int
    decreases breaks.len(),
{
    if breaks.len() == 0 {
        0
    } else if breaks.last() <= pos {
        breaks.last() as int
    } else {
        last_break_le(breaks.drop_last(), pos)
    }
}

/// The positions right after each newline of the source, in order.
pub open spec fn spec_line_breaks(s: Seq<char>, i: int) -> Seq<usize>
    decreases i,
{
    if i <= 0 {
        Seq::empty()
    } else if s[i - 1] == '\n' {
        spec_line_breaks(s, i - 1).push(i as usize)
    } else {
        spec_line_breaks(s, i - 1)
    }
}

/// The recorded newline positions of a source text, for line and column
/// diagnostics: a position's line is one more than the number of breaks
/// at or before it, its column counts from the last such break.
pub struct LineMap {
    breaks: Vec<usize>,
}

impl LineMap {
    pub closed spec fn spec_breaks(&self) -> Seq<usize> {
        self.breaks@
    }

    /// Record the line breaks of a source text.
    pub fn new(source: &str) -> (r: LineMap)
        ensures
            r.spec_breaks() == spec_line_breaks(source@, source@.len() as int),
    {
        let cs = semantics::str_to_chars(source);
        let n = cs.len();
        let mut breaks: Vec<usize> = Vec::new();
        let mut i: usize = 0;
        proof {
            assert(breaks@ =~= spec_line_breaks(cs@, 0));
        }
        while i < n
            invariant
                i <= n,
                n == cs@.len(),
                breaks@ == spec_line_breaks(cs@, i as int),
            decreases n - i,
        {
            if cs[i] == '\n' {
                breaks.push(i + 1);
            }
            i = i + 1;
        }
        LineMap { breaks }
    }

    /// The one-based line and column of a character position.
    pub fn line_col(&self, pos: usize) -> (r: (usize, usize))
        requires
            pos < usize::MAX,
            self.spec_breaks().len() < usize::MAX,
        ensures
            r.0 == 1 + count_breaks_le(self.spec_breaks(), pos as int),
            r.1 == pos - last_break_le(self.spec_breaks(), pos as int) + 1,
    {
        let n = self.breaks.len();
        let mut count: usize = 0;
        let mut last: usize = 0;
        let mut k: usize = 0;
        proof {
            assert(self.spec_breaks().take(0) =~= Seq::<usize>::empty());
        }
        while k < n
            invariant
                k <= n,
                n == self.spec_breaks().len(),
                n < usize::MAX,
                count == count_breaks_le(self.spec_breaks().take(k as int), pos as int),
                last == last_break_le(self.spec_breaks().take(k as int), pos as int),
                count <= k,
                last <= pos,
            decreases n - k,
        {
            proof {
                let pre = self.spec_breaks().take(k + 1);
                assert(pre.drop_last() =~= self.spec_breaks().take(k as int));
                assert(pre.last() == self.spec_breaks()[k as int]);
            }
            if self.breaks[k] <= pos {
                count = count + 1;
                last = self.breaks[k];
            }
            k = k + 1;
        }
        proof {
            assert(self.spec_breaks().take(n as int) =~= self.spec_breaks());
        }
        (1 + count, pos - last + 1)
    }
}

} // verus!
