//! The lexer: a total map from document text to an ordered token stream.
//!
//! Every character of the input falls under exactly one rule: whitespace is
//! dropped as trivia, the delimiters `{ } ( ) , = # "` are single-character
//! tokens, `@` opens a declaration-type token whose kind is chosen by the
//! lowercased word that follows it, `\` opens a command token, and every
//! other character belongs to a maximal word run. No input is rejected; an
//! `@` followed by no letters becomes an `Unknown` token.
//!
//! `spec_tokenize` is the mathematical definition; `tokenize` returns exactly
//! the token sequence that it describes, which makes lexing deterministic.

use vstd::prelude::*;

use crate::text::{Position, PosModel, Range, SpanModel};
use crate::ast::{BibtexToken, BibtexTokenKind, TokenModel, token_view};

verus! {

pub open spec fn is_ws(c: char) -> bool {
    c == ' ' || c == '\t' || c == '\r' || c == '\n'
}

pub open spec fn is_delim(c: char) -> bool {
    c == '{' || c == '}' || c == '(' || c == ')' || c == ',' || c == '=' || c == '#' || c == '"'
}

pub open spec fn delim_kind(c: char) -> BibtexTokenKind {
    if c == '{' { BibtexTokenKind::BeginBrace }
    else if c == '}' { BibtexTokenKind::EndBrace }
    else if c == '(' { BibtexTokenKind::BeginParen }
    else if c == ')' { BibtexTokenKind::EndParen }
    else if c == ',' { BibtexTokenKind::Comma }
    else if c == '=' { BibtexTokenKind::Assign }
    else if c == '#' { BibtexTokenKind::Concat }
    else { BibtexTokenKind::Quote }
}

pub open spec fn is_alpha(c: char) -> bool {
    ('a' <= c && c <= 'z') || ('A' <= c && c <= 'Z')
}

/// A word character: anything that is neither trivia nor one of the
/// characters with a lexical meaning of its own.
pub open spec fn is_word_char(c: char) -> bool {
    !is_ws(c) && !is_delim(c) && c != '@' && c != '\\'
}

pub open spec fn lower_char(c: char) -> char {
    if 'A' <= c && c <= 'Z' {
        (c as u8 + 32) as char
    } else {
        c
    }
}

pub open spec fn lower_seq(s: Seq<char>) -> Seq<char> {
    s.map_values(|c: char| lower_char(c))
}

/// The declaration kind selected by the lowercased word after an `@`.
pub open spec fn at_kind(w: Seq<char>) -> BibtexTokenKind {
    if w.len() == 0 { BibtexTokenKind::Unknown }
    else if w == "preamble"@ { BibtexTokenKind::PreambleType }
    else if w == "string"@ { BibtexTokenKind::StringType }
    else if w == "comment"@ { BibtexTokenKind::CommentType }
    else { BibtexTokenKind::EntryType }
}

/// First index at or after `i` that does not continue an alphabetic run.
pub open spec fn scan_alpha(text: Seq<char>, i: int) -> int
    decreases text.len() - i,
{
    if i < 0 || i >= text.len() || !is_alpha(text[i]) { i } else { scan_alpha(text, i + 1) }
}

/// First index at or after `i` that does not continue a word run.
pub open spec fn scan_word(text: Seq<char>, i: int) -> int
    decreases text.len() - i,
{
    if i < 0 || i >= text.len() || !is_word_char(text[i]) { i } else { scan_word(text, i + 1) }
}

pub proof fn lemma_scan_alpha_bounds(text: Seq<char>, i: int)
    requires
        0 <= i <= text.len(),
    ensures
        i <= scan_alpha(text, i) <= text.len(),
    decreases text.len() - i,
{
    if i < text.len() && is_alpha(text[i]) {
        lemma_scan_alpha_bounds(text, i + 1);
    }
}

pub proof fn lemma_scan_word_bounds(text: Seq<char>, i: int)
    requires
        0 <= i <= text.len(),
    ensures
        i <= scan_word(text, i) <= text.len(),
    decreases text.len() - i,
{
    if i < text.len() && is_word_char(text[i]) {
        lemma_scan_word_bounds(text, i + 1);
    }
}

/// Clamp a claimed continuation index into `(i, n]`, so that every lexing and
/// parsing step makes progress and stays inside the input. On the indices the
/// scanners and parsers actually produce this is the identity.
pub open spec fn step_pos(j: int, i: int, n: int) -> int {
    if j < i + 1 { i + 1 } else if j > n { n } else { j }
}

/// Position advanced by a single character.
pub open spec fn pos_step(p: PosModel, c: char) -> PosModel {
    if c == '\n' {
        PosModel { line: p.line + 1, character: 0 }
    } else {
        PosModel { line: p.line, character: p.character + 1 }
    }
}

/// Position advanced by `k` characters on the same line.
pub open spec fn pos_add(p: PosModel, k: int) -> PosModel {
    PosModel { line: p.line, character: p.character + k }
}

pub open spec fn span_from(p: PosModel, k: int) -> SpanModel {
    SpanModel { start: p, end: pos_add(p, k) }
}

/// The token stream of `text` from index `i` onward, with `p` the position of
/// the character at `i`. The definition of the lexer.
pub open spec fn spec_tokenize(text: Seq<char>, i: int, p: PosModel) -> Seq<TokenModel>
    decreases text.len() - i,
{
    if i < 0 || i >= text.len() {
        Seq::empty()
    } else {
        let c = text[i];
        let n = text.len() as int;
        if is_ws(c) {
            spec_tokenize(text, i + 1, pos_step(p, c))
        } else if is_delim(c) {
            seq![TokenModel { kind: delim_kind(c), text: seq![c], span: span_from(p, 1) }]
                + spec_tokenize(text, i + 1, pos_add(p, 1))
        } else if c == '@' {
            let j = step_pos(scan_alpha(text, i + 1), i, n);
            seq![TokenModel {
                kind: at_kind(lower_seq(text.subrange(i + 1, j))),
                text: text.subrange(i, j),
                span: span_from(p, j - i),
            }] + spec_tokenize(text, j, pos_add(p, j - i))
        } else if c == '\\' {
            let j = step_pos(scan_alpha(text, i + 1), i, n);
            seq![TokenModel {
                kind: BibtexTokenKind::Command,
                text: text.subrange(i, j),
                span: span_from(p, j - i),
            }] + spec_tokenize(text, j, pos_add(p, j - i))
        } else {
            let j = step_pos(scan_word(text, i), i, n);
            seq![TokenModel {
                kind: BibtexTokenKind::Word,
                text: text.subrange(i, j),
                span: span_from(p, j - i),
            }] + spec_tokenize(text, j, pos_add(p, j - i))
        }
    }
}

pub open spec fn toks_view(ts: Seq<BibtexToken>) -> Seq<TokenModel> {
    ts.map_values(|t: BibtexToken| token_view(t))
}

/// The full token stream of a document.
pub open spec fn spec_tokens_of(text: Seq<char>) -> Seq<TokenModel> {
    spec_tokenize(text, 0, PosModel { line: 0, character: 0 })
}

/// Token spans are well formed and ordered: every token of the stream starts
/// no earlier than the position the lexer has reached, no token ends before
/// it starts, and the tokens come in document order, each one ending no later
/// than the next begins. This is the sibling half of span discipline, at the
/// token level: spans of distinct tokens never overlap.
pub proof fn lemma_tokens_ordered(text: Seq<char>, i: int, p: PosModel)
    requires
        0 <= i <= text.len(),
    ensures
        ({
            let ts = spec_tokenize(text, i, p);
            &&& forall|a: int| 0 <= a < ts.len() ==> crate::text::pos_le_m(p, #[trigger] ts[a].span.start)
            &&& forall|a: int| 0 <= a < ts.len()
                ==> crate::text::pos_le_m(#[trigger] ts[a].span.start, ts[a].span.end)
            &&& forall|a: int, b: int| 0 <= a < b < ts.len()
                ==> crate::text::pos_le_m(#[trigger] ts[a].span.end, #[trigger] ts[b].span.start)
        }),
    decreases text.len() - i,
{
    let ts = spec_tokenize(text, i, p);
    if i < text.len() {
        let c = text[i];
        let n = text.len() as int;
        if is_ws(c) {
            lemma_tokens_ordered(text, i + 1, pos_step(p, c));
        } else {
            let j = if is_delim(c) {
                i + 1
            } else if c == '@' || c == '\\' {
                step_pos(scan_alpha(text, i + 1), i, n)
            } else {
                step_pos(scan_word(text, i), i, n)
            };
            let k = j - i;
            let rest = spec_tokenize(text, j, pos_add(p, k));
            lemma_tokens_ordered(text, j, pos_add(p, k));
            assert(ts.len() == 1 + rest.len());
            assert(ts[0].span.start == p && ts[0].span.end == pos_add(p, k));
            assert(forall|a: int| 1 <= a < ts.len() ==> ts[a] == rest[a - 1]);
            assert forall|a: int| 0 <= a < ts.len() implies crate::text::pos_le_m(p, #[trigger] ts[a].span.start) by {
                if a >= 1 {
                    assert(crate::text::pos_le_m(pos_add(p, k), rest[a - 1].span.start));
                }
            }
            assert forall|a: int, b: int| 0 <= a < b < ts.len()
                implies crate::text::pos_le_m(#[trigger] ts[a].span.end, #[trigger] ts[b].span.start) by {
                if a == 0 {
                    assert(crate::text::pos_le_m(pos_add(p, k), rest[b - 1].span.start));
                } else {
                    assert(crate::text::pos_le_m(rest[a - 1].span.end, rest[b - 1].span.start));
                }
            }
        }
    }
}

/// Character-exact string comparison.
pub fn str_eq(a: &str, b: &str) -> (r: bool)
    ensures
        r == (a@ == b@),
{
    let na = a.unicode_len();
    let nb = b.unicode_len();
    if na != nb {
        assert(a@ != b@) by {
            assert(a@.len() != b@.len());
        }
        return false;
    }
    let mut i: usize = 0;
    while i < na
        invariant
            a@.len() == na,
            b@.len() == nb,
            na == nb,
            0 <= i <= na,
            forall|j: int| 0 <= j < i ==> a@[j] == b@[j],
        decreases na - i,
    {
        if a.get_char(i) != b.get_char(i) {
            assert(a@ != b@);
            return false;
        }
        i = i + 1;
    }
    proof {
        assert(a@ =~= b@);
    }
    true
}

fn is_ws_x(c: char) -> (r: bool)
    ensures
        r == is_ws(c),
{
    c == ' ' || c == '\t' || c == '\r' || c == '\n'
}

fn is_delim_x(c: char) -> (r: bool)
    ensures
        r == is_delim(c),
{
    c == '{' || c == '}' || c == '(' || c == ')' || c == ',' || c == '=' || c == '#' || c == '"'
}

fn delim_kind_x(c: char) -> (k: BibtexTokenKind)
    ensures
        k == delim_kind(c),
{
    if c == '{' { BibtexTokenKind::BeginBrace }
    else if c == '}' { BibtexTokenKind::EndBrace }
    else if c == '(' { BibtexTokenKind::BeginParen }
    else if c == ')' { BibtexTokenKind::EndParen }
    else if c == ',' { BibtexTokenKind::Comma }
    else if c == '=' { BibtexTokenKind::Assign }
    else if c == '#' { BibtexTokenKind::Concat }
    else { BibtexTokenKind::Quote }
}

fn is_alpha_x(c: char) -> (r: bool)
    ensures
        r == is_alpha(c),
{
    ('a' <= c && c <= 'z') || ('A' <= c && c <= 'Z')
}

fn is_word_char_x(c: char) -> (r: bool)
    ensures
        r == is_word_char(c),
{
    !is_ws_x(c) && !is_delim_x(c) && c != '@' && c != '\\'
}

fn scan_alpha_x(text: &str, i: usize) -> (j: usize)
    requires
        i <= text@.len(),
    ensures
        j == scan_alpha(text@, i as int),
        i <= j <= text@.len(),
    decreases text@.len() - i,
{
    proof {
        lemma_scan_alpha_bounds(text@, i as int);
    }
    if i < text.unicode_len() && is_alpha_x(text.get_char(i)) {
        scan_alpha_x(text, i + 1)
    } else {
        i
    }
}

fn scan_word_x(text: &str, i: usize) -> (j: usize)
    requires
        i <= text@.len(),
    ensures
        j == scan_word(text@, i as int),
        i <= j <= text@.len(),
    decreases text@.len() - i,
{
    proof {
        lemma_scan_word_bounds(text@, i as int);
    }
    if i < text.unicode_len() && is_word_char_x(text.get_char(i)) {
        scan_word_x(text, i + 1)
    } else {
        i
    }
}

/// Lowercase the characters of a run of text into a fresh vector.
fn lower_chars(text: &str, from: usize, to: usize) -> (r: Vec<char>)
    requires
        from <= to <= text@.len(),
    ensures
        r@ == lower_seq(text@.subrange(from as int, to as int)),
{
    let mut out: Vec<char> = Vec::new();
    let mut i: usize = from;
    while i < to
        invariant
            from <= i <= to <= text@.len(),
            out@ == lower_seq(text@.subrange(from as int, i as int)),
        decreases to - i,
    {
        let c = text.get_char(i);
        let lc: char = if 'A' <= c && c <= 'Z' {
            ((c as u8) + 32) as char
        } else {
            c
        };
        assert(lc == lower_char(c));
        out.push(lc);
        proof {
            assert(text@.subrange(from as int, i as int + 1).drop_last()
                =~= text@.subrange(from as int, i as int));
            assert(text@.subrange(from as int, i as int + 1).last() == c);
            assert(lower_seq(text@.subrange(from as int, i as int + 1))
                =~= lower_seq(text@.subrange(from as int, i as int)).push(lower_char(c)));
        }
        i = i + 1;
    }
    out
}

fn chars_eq_lit(v: &Vec<char>, s: &str) -> (r: bool)
    ensures
        r == (v@ == s@),
{
    let n = s.unicode_len();
    if v.len() != n {
        assert(v@.len() != s@.len());
        return false;
    }
    let mut i: usize = 0;
    while i < n
        invariant
            v@.len() == n,
            s@.len() == n,
            0 <= i <= n,
            forall|j: int| 0 <= j < i ==> v@[j] == s@[j],
        decreases n - i,
    {
        if v[i] != s.get_char(i) {
            return false;
        }
        i = i + 1;
    }
    proof {
        assert(v@ =~= s@);
    }
    true
}

fn at_kind_x(text: &str, from: usize, to: usize) -> (k: BibtexTokenKind)
    requires
        from <= to <= text@.len(),
    ensures
        k == at_kind(lower_seq(text@.subrange(from as int, to as int))),
{
    let low = lower_chars(text, from, to);
    if low.len() == 0 {
        BibtexTokenKind::Unknown
    } else if chars_eq_lit(&low, "preamble") {
        BibtexTokenKind::PreambleType
    } else if chars_eq_lit(&low, "string") {
        BibtexTokenKind::StringType
    } else if chars_eq_lit(&low, "comment") {
        BibtexTokenKind::CommentType
    } else {
        BibtexTokenKind::EntryType
    }
}

/// Tokenize a whole document. Returns exactly the token stream described by
/// `spec_tokens_of`, for any input text.
pub fn tokenize(text: &str) -> (r: Vec<BibtexToken>)
    ensures
        toks_view(r@) == spec_tokens_of(text@),
{
    let n = text.unicode_len();
    let mut out: Vec<BibtexToken> = Vec::new();
    let mut i: usize = 0;
    let mut line: u64 = 0;
    let mut character: u64 = 0;
    while i < n
        invariant
            text@.len() == n,
            0 <= i <= n,
            line as int <= i as int,
            character as int <= i as int,
            toks_view(out@) + spec_tokenize(text@, i as int, PosModel { line: line as int, character: character as int })
                == spec_tokens_of(text@),
        decreases n - i,
    {
        let ghost p = PosModel { line: line as int, character: character as int };
        let c = text.get_char(i);
        if is_ws_x(c) {
            if c == '\n' {
                line = line + 1;
                character = 0;
            } else {
                character = character + 1;
            }
            i = i + 1;
        } else {
            let (kind, j): (BibtexTokenKind, usize) = if is_delim_x(c) {
                (delim_kind_x(c), i + 1)
            } else if c == '@' {
                let j0 = scan_alpha_x(text, i + 1);
                let j = if j0 < i + 1 { i + 1 } else { j0 };
                assert(j == step_pos(scan_alpha(text@, i + 1), i as int, n as int));
                (at_kind_x(text, i + 1, j), j)
            } else if c == '\\' {
                let j0 = scan_alpha_x(text, i + 1);
                let j = if j0 < i + 1 { i + 1 } else { j0 };
                assert(j == step_pos(scan_alpha(text@, i + 1), i as int, n as int));
                (BibtexTokenKind::Command, j)
            } else {
                let j0 = scan_word_x(text, i);
                let j = if j0 < i + 1 { i + 1 } else { j0 };
                assert(j == step_pos(scan_word(text@, i as int), i as int, n as int));
                (BibtexTokenKind::Word, j)
            };
            let width = (j - i) as u64;
            let tok = BibtexToken {
                span: Range {
                    start: Position { line, character },
                    end: Position { line, character: character + width },
                },
                text: String::from_str(text.substring_char(i, j)),
                kind,
            };
            proof {
                let m = spec_tokenize(text@, i as int, p);
                assert(token_view(tok).text =~= text@.subrange(i as int, j as int));
                assert(token_view(tok).kind == kind);
                assert(token_view(tok).span == span_from(p, j - i));
                assert(m =~~= seq![token_view(tok)] + spec_tokenize(text@, j as int, pos_add(p, j - i)));
                assert(toks_view(out@.push(tok)) =~= toks_view(out@).push(token_view(tok)));
                assert(toks_view(out@).push(token_view(tok)) + spec_tokenize(text@, j as int, pos_add(p, j - i))
                    =~= toks_view(out@) + m);
            }
            out.push(tok);
            character = character + width;
            i = j;
        }
    }
    proof {
        assert(spec_tokenize(text@, i as int, PosModel { line: line as int, character: character as int })
            == Seq::<TokenModel>::empty());
        assert(toks_view(out@) + Seq::<TokenModel>::empty() =~= toks_view(out@));
    }
    out
}

} // verus!
