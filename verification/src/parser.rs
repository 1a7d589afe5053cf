//! The parser: error-tolerant recursive descent from tokens to a syntax tree.
//!
//! Parsing never fails. Malformed constructs produce partial nodes whose
//! missing pieces are `None`; an unexpected token closes the current node
//! early and the parser resynchronises at the next declaration marker or the
//! end of input. Every step consumes at least one token, so parsing finishes
//! in a number of steps linear in the token count.
//!
//! The `parse_*` spec functions are the mathematical definition of the
//! grammar; each executable function returns exactly what its spec function
//! describes. Together with the lexer's contract this pins the whole tree
//! down as a function of the input text: parsing is deterministic.
//!
//! The spec functions guard their recursion with `step_pos`/`bound_pos`
//! clamps; on the indices actually produced the clamps are the identity, they
//! only make termination evident.

use vstd::prelude::*;

use crate::text::{PosModel, SpanModel};
use crate::ast::{
    BibtexToken, BibtexTokenKind, TokenModel, token_view,
    BibtexContent, BibtexWord, BibtexCommand, BibtexQuotedContent, BibtexBracedContent,
    BibtexConcat, ContentModel, content_view, contents_view, lemma_contents_view_push,
    BibtexField, FieldModel, field_view, fields_view,
    BibtexPreamble, PreambleModel, preamble_view,
    BibtexString, StringModel, string_view,
    BibtexEntry, EntryModel, entry_view,
    BibtexDeclaration, DeclModel, decl_view, decls_view,
    BibtexRoot, RootModel, root_view,
};
use crate::lexer::{step_pos, toks_view};

verus! {

/// Clamp a continuation index into `[lo, hi]`.
pub open spec fn bound_pos(j: int, lo: int, hi: int) -> int {
    if j < lo { lo } else if j > hi { hi } else { j }
}

pub open spec fn is_open_kind(k: BibtexTokenKind) -> bool {
    k == BibtexTokenKind::BeginBrace || k == BibtexTokenKind::BeginParen
}

pub open spec fn is_close_kind(k: BibtexTokenKind) -> bool {
    k == BibtexTokenKind::EndBrace || k == BibtexTokenKind::EndParen
}

pub open spec fn is_decl_kind(k: BibtexTokenKind) -> bool {
    k == BibtexTokenKind::PreambleType || k == BibtexTokenKind::StringType
        || k == BibtexTokenKind::CommentType || k == BibtexTokenKind::EntryType
}

/// Kinds that may open a field or declaration value.
pub open spec fn can_start_content(k: BibtexTokenKind) -> bool {
    k == BibtexTokenKind::Word || k == BibtexTokenKind::Command
        || k == BibtexTokenKind::Quote || k == BibtexTokenKind::BeginBrace
}

/// Inside a brace or quote group, these kinds open a nested group.
pub open spec fn is_group_child(k: BibtexTokenKind, quoted: bool) -> bool {
    k == BibtexTokenKind::BeginBrace || (!quoted && k == BibtexTokenKind::Quote)
}

/// Inside a group, these kinds are kept verbatim as leaf nodes.
pub open spec fn is_leaf_child(k: BibtexTokenKind) -> bool {
    k == BibtexTokenKind::Word || k == BibtexTokenKind::Command
        || k == BibtexTokenKind::Comma || k == BibtexTokenKind::Assign
        || k == BibtexTokenKind::Concat || k == BibtexTokenKind::BeginParen
        || k == BibtexTokenKind::EndParen
}

pub open spec fn dummy_token() -> TokenModel {
    TokenModel {
        kind: BibtexTokenKind::Unknown,
        text: Seq::empty(),
        span: SpanModel {
            start: PosModel { line: 0, character: 0 },
            end: PosModel { line: 0, character: 0 },
        },
    }
}

pub open spec fn leaf_model(t: TokenModel) -> ContentModel {
    if t.kind == BibtexTokenKind::Command {
        ContentModel::Command { token: t }
    } else {
        ContentModel::Word { token: t }
    }
}

/// A quote or brace group: the opening delimiter, the children up to the
/// matching closing delimiter, and that delimiter if it is present.
pub open spec fn parse_group(ts: Seq<TokenModel>, i: int) -> (ContentModel, int)
    decreases ts.len() - i, 0int,
{
    let n = ts.len() as int;
    if i < 0 || i >= n {
        (leaf_model(dummy_token()), i + 1)
    } else {
        let left = ts[i];
        let quoted = left.kind == BibtexTokenKind::Quote;
        let (children, j0) = parse_content_list(ts, i + 1, quoted);
        let j = bound_pos(j0, i + 1, n);
        let close = if quoted { BibtexTokenKind::Quote } else { BibtexTokenKind::EndBrace };
        let (right, j2) = if j < n && ts[j].kind == close {
            (Option::Some(ts[j]), j + 1)
        } else {
            (Option::<TokenModel>::None, j)
        };
        if quoted {
            (ContentModel::Quoted { left, children, right }, j2)
        } else {
            (ContentModel::Braced { left, children, right }, j2)
        }
    }
}

/// The children of a group: leaves and nested groups, up to the closing
/// delimiter, a declaration marker, or the end of input.
pub open spec fn parse_content_list(ts: Seq<TokenModel>, i: int, quoted: bool) -> (Seq<ContentModel>, int)
    decreases ts.len() - i, 1int,
{
    let n = ts.len() as int;
    if i < 0 || i >= n {
        (Seq::empty(), i)
    } else {
        let k = ts[i].kind;
        if is_group_child(k, quoted) {
            let (c, j0) = parse_group(ts, i);
            let j = step_pos(j0, i, n);
            let (rest, jr) = parse_content_list(ts, j, quoted);
            (seq![c] + rest, jr)
        } else if is_leaf_child(k) {
            let (rest, jr) = parse_content_list(ts, i + 1, quoted);
            (seq![leaf_model(ts[i])] + rest, jr)
        } else {
            (Seq::empty(), i)
        }
    }
}

/// A content value: a single word, command or group, possibly followed by a
/// `#` concatenation with another content value.
pub open spec fn parse_content(ts: Seq<TokenModel>, i: int) -> (ContentModel, int)
    decreases ts.len() - i, 2int,
{
    let n = ts.len() as int;
    if i < 0 || i >= n {
        (leaf_model(dummy_token()), i + 1)
    } else {
        let k = ts[i].kind;
        let (base, jb0) = if k == BibtexTokenKind::Word || k == BibtexTokenKind::Command {
            (leaf_model(ts[i]), i + 1)
        } else {
            parse_group(ts, i)
        };
        let jb = bound_pos(jb0, i + 1, n);
        if jb < n && ts[jb].kind == BibtexTokenKind::Concat {
            let op = ts[jb];
            if jb + 1 < n && can_start_content(ts[jb + 1].kind) {
                let (right, jr0) = parse_content(ts, jb + 1);
                let jr = bound_pos(jr0, jb + 2, n);
                (ContentModel::Concat { parts: seq![base, right], op }, jr)
            } else {
                (ContentModel::Concat { parts: seq![base], op }, jb + 1)
            }
        } else {
            (base, jb)
        }
    }
}

/// One `name = value ,` field of an entry. Assignment sign, value and
/// trailing comma may each be missing.
pub open spec fn parse_field(ts: Seq<TokenModel>, i: int) -> (FieldModel, int)
    decreases ts.len() - i, 3int,
{
    let n = ts.len() as int;
    if i < 0 || i >= n {
        (FieldModel { name: dummy_token(), assign: Option::None, content: Option::None, comma: Option::None }, i + 1)
    } else {
        let name = ts[i];
        let j1 = i + 1;
        let (assign, j2) = if j1 < n && ts[j1].kind == BibtexTokenKind::Assign {
            (Option::Some(ts[j1]), j1 + 1)
        } else {
            (Option::<TokenModel>::None, j1)
        };
        let (content, j3) = if j2 < n && can_start_content(ts[j2].kind) {
            let (c, j0) = parse_content(ts, j2);
            (Option::Some(c), bound_pos(j0, j2 + 1, n))
        } else {
            (Option::<ContentModel>::None, j2)
        };
        let (comma, j4) = if j3 < n && ts[j3].kind == BibtexTokenKind::Comma {
            (Option::Some(ts[j3]), j3 + 1)
        } else {
            (Option::<TokenModel>::None, j3)
        };
        (FieldModel { name, assign, content, comma }, j4)
    }
}

/// The fields of an entry: as many as open with a word token.
pub open spec fn parse_fields(ts: Seq<TokenModel>, i: int) -> (Seq<FieldModel>, int)
    decreases ts.len() - i, 4int,
{
    let n = ts.len() as int;
    if 0 <= i && i < n && ts[i].kind == BibtexTokenKind::Word {
        let (f, j0) = parse_field(ts, i);
        let j = step_pos(j0, i, n);
        let (rest, jr) = parse_fields(ts, j);
        (seq![f] + rest, jr)
    } else {
        (Seq::empty(), i)
    }
}

/// An `@preamble` declaration.
pub open spec fn parse_preamble(ts: Seq<TokenModel>, i: int) -> (PreambleModel, int)
    decreases ts.len() - i, 5int,
{
    let n = ts.len() as int;
    if i < 0 || i >= n {
        (PreambleModel { ty: dummy_token(), left: Option::None, content: Option::None, right: Option::None }, i + 1)
    } else {
        let ty = ts[i];
        let j1 = i + 1;
        let (left, j2) = if j1 < n && is_open_kind(ts[j1].kind) {
            (Option::Some(ts[j1]), j1 + 1)
        } else {
            (Option::<TokenModel>::None, j1)
        };
        let (content, j3) = if j2 < n && can_start_content(ts[j2].kind) {
            let (c, j0) = parse_content(ts, j2);
            (Option::Some(c), bound_pos(j0, j2 + 1, n))
        } else {
            (Option::<ContentModel>::None, j2)
        };
        let (right, j4) = if j3 < n && is_close_kind(ts[j3].kind) {
            (Option::Some(ts[j3]), j3 + 1)
        } else {
            (Option::<TokenModel>::None, j3)
        };
        (PreambleModel { ty, left, content, right }, j4)
    }
}

/// An `@string` macro definition.
pub open spec fn parse_string(ts: Seq<TokenModel>, i: int) -> (StringModel, int)
    decreases ts.len() - i, 5int,
{
    let n = ts.len() as int;
    if i < 0 || i >= n {
        (StringModel { ty: dummy_token(), left: Option::None, name: Option::None, assign: Option::None, value: Option::None, right: Option::None }, i + 1)
    } else {
        let ty = ts[i];
        let j1 = i + 1;
        let (left, j2) = if j1 < n && is_open_kind(ts[j1].kind) {
            (Option::Some(ts[j1]), j1 + 1)
        } else {
            (Option::<TokenModel>::None, j1)
        };
        let (name, j3) = if j2 < n && ts[j2].kind == BibtexTokenKind::Word {
            (Option::Some(ts[j2]), j2 + 1)
        } else {
            (Option::<TokenModel>::None, j2)
        };
        let (assign, j4) = if j3 < n && ts[j3].kind == BibtexTokenKind::Assign {
            (Option::Some(ts[j3]), j3 + 1)
        } else {
            (Option::<TokenModel>::None, j3)
        };
        let (value, j5) = if j4 < n && can_start_content(ts[j4].kind) {
            let (c, j0) = parse_content(ts, j4);
            (Option::Some(c), bound_pos(j0, j4 + 1, n))
        } else {
            (Option::<ContentModel>::None, j4)
        };
        let (right, j6) = if j5 < n && is_close_kind(ts[j5].kind) {
            (Option::Some(ts[j5]), j5 + 1)
        } else {
            (Option::<TokenModel>::None, j5)
        };
        (StringModel { ty, left, name, assign, value, right }, j6)
    }
}

/// An entry declaration: type, optional key, fields.
pub open spec fn parse_entry(ts: Seq<TokenModel>, i: int) -> (EntryModel, int)
    decreases ts.len() - i, 5int,
{
    let n = ts.len() as int;
    if i < 0 || i >= n {
        (EntryModel { ty: dummy_token(), left: Option::None, key: Option::None, comma: Option::None, fields: Seq::empty(), right: Option::None }, i + 1)
    } else {
        let ty = ts[i];
        let j1 = i + 1;
        let (left, j2) = if j1 < n && is_open_kind(ts[j1].kind) {
            (Option::Some(ts[j1]), j1 + 1)
        } else {
            (Option::<TokenModel>::None, j1)
        };
        let (key, j3) = if j2 < n && ts[j2].kind == BibtexTokenKind::Word {
            (Option::Some(ts[j2]), j2 + 1)
        } else {
            (Option::<TokenModel>::None, j2)
        };
        let (comma, j4) = if j3 < n && ts[j3].kind == BibtexTokenKind::Comma {
            (Option::Some(ts[j3]), j3 + 1)
        } else {
            (Option::<TokenModel>::None, j3)
        };
        let (fields, j5x) = parse_fields(ts, j4);
        let j5 = bound_pos(j5x, j4, n);
        let (right, j6) = if j5 < n && is_close_kind(ts[j5].kind) {
            (Option::Some(ts[j5]), j5 + 1)
        } else {
            (Option::<TokenModel>::None, j5)
        };
        (EntryModel { ty, left, key, comma, fields, right }, j6)
    }
}

/// The declarations of the document from token `i` onward. Tokens outside a
/// declaration, and `@comment` markers, are skipped.
pub open spec fn parse_root(ts: Seq<TokenModel>, i: int) -> Seq<DeclModel>
    decreases ts.len() - i, 6int,
{
    let n = ts.len() as int;
    if i < 0 || i >= n {
        Seq::empty()
    } else {
        let k = ts[i].kind;
        if k == BibtexTokenKind::PreambleType {
            let (p, j) = parse_preamble(ts, i);
            seq![DeclModel::Preamble(p)] + parse_root(ts, step_pos(j, i, n))
        } else if k == BibtexTokenKind::StringType {
            let (s, j) = parse_string(ts, i);
            seq![DeclModel::Str(s)] + parse_root(ts, step_pos(j, i, n))
        } else if k == BibtexTokenKind::EntryType {
            let (e, j) = parse_entry(ts, i);
            seq![DeclModel::Entry(e)] + parse_root(ts, step_pos(j, i, n))
        } else {
            parse_root(ts, i + 1)
        }
    }
}

/// The tree described by a token stream.
pub open spec fn spec_root_of(ts: Seq<TokenModel>) -> RootModel {
    RootModel { children: parse_root(ts, 0) }
}

/// The tree described by raw text: the composition of lexer and parser.
pub open spec fn spec_tree_of(text: Seq<char>) -> RootModel {
    spec_root_of(crate::lexer::spec_tokens_of(text))
}

fn tok_dup(t: &BibtexToken) -> (r: BibtexToken)
    ensures
        token_view(r) == token_view(*t),
{
    let r = BibtexToken {
        span: t.span,
        text: String::from_str(t.text.as_str()),
        kind: t.kind,
    };
    proof {
        assert(token_view(r) =~~= token_view(*t));
    }
    r
}

fn is_open_kind_x(k: BibtexTokenKind) -> (r: bool)
    ensures
        r == is_open_kind(k),
{
    k == BibtexTokenKind::BeginBrace || k == BibtexTokenKind::BeginParen
}

fn is_close_kind_x(k: BibtexTokenKind) -> (r: bool)
    ensures
        r == is_close_kind(k),
{
    k == BibtexTokenKind::EndBrace || k == BibtexTokenKind::EndParen
}

fn can_start_content_x(k: BibtexTokenKind) -> (r: bool)
    ensures
        r == can_start_content(k),
{
    k == BibtexTokenKind::Word || k == BibtexTokenKind::Command
        || k == BibtexTokenKind::Quote || k == BibtexTokenKind::BeginBrace
}

fn is_group_child_x(k: BibtexTokenKind, quoted: bool) -> (r: bool)
    ensures
        r == is_group_child(k, quoted),
{
    k == BibtexTokenKind::BeginBrace || (!quoted && k == BibtexTokenKind::Quote)
}

fn is_leaf_child_x(k: BibtexTokenKind) -> (r: bool)
    ensures
        r == is_leaf_child(k),
{
    k == BibtexTokenKind::Word || k == BibtexTokenKind::Command
        || k == BibtexTokenKind::Comma || k == BibtexTokenKind::Assign
        || k == BibtexTokenKind::Concat || k == BibtexTokenKind::BeginParen
        || k == BibtexTokenKind::EndParen
}

fn leaf_x(t: &BibtexToken) -> (c: BibtexContent)
    ensures
        content_view(c) == leaf_model(token_view(*t)),
{
    let tok = tok_dup(t);
    if tok.kind == BibtexTokenKind::Command {
        BibtexContent::Command(BibtexCommand { token: tok })
    } else {
        BibtexContent::Word(BibtexWord { token: tok })
    }
}

fn p_group(ts: &Vec<BibtexToken>, i: usize) -> (r: (BibtexContent, usize))
    requires
        i < ts@.len(),
        is_group_child(ts@[i as int].kind, false),
    ensures
        ({
            let (m, j) = parse_group(toks_view(ts@), i as int);
            content_view(r.0) == m && r.1 as int == j && i < r.1 <= ts@.len()
        }),
    decreases ts@.len() - i, 0int,
{
    let ghost tv = toks_view(ts@);
    let n = ts.len();
    let left = tok_dup(&ts[i]);
    let quoted = left.kind == BibtexTokenKind::Quote;
    let (children, j0) = p_content_list(ts, i + 1, quoted);
    let j = j0;
    let close = if quoted { BibtexTokenKind::Quote } else { BibtexTokenKind::EndBrace };
    assert(j as int == bound_pos(parse_content_list(tv, i + 1, quoted).1, i + 1, n as int));
    let (right, j2): (Option<BibtexToken>, usize) = if j < n && ts[j].kind == close {
        (Option::Some(tok_dup(&ts[j])), j + 1)
    } else {
        (Option::None, j)
    };
    let node = if quoted {
        BibtexContent::QuotedContent(BibtexQuotedContent { left, children, right })
    } else {
        BibtexContent::BracedContent(BibtexBracedContent { left, children, right })
    };
    proof {
        assert(content_view(node) =~~= parse_group(tv, i as int).0);
    }
    (node, j2)
}

fn p_content_list(ts: &Vec<BibtexToken>, i: usize, quoted: bool) -> (r: (Vec<BibtexContent>, usize))
    requires
        i <= ts@.len(),
    ensures
        ({
            let (m, j) = parse_content_list(toks_view(ts@), i as int, quoted);
            contents_view(r.0@) == m && r.1 as int == bound_pos(j, i as int, ts@.len() as int)
                && i <= r.1 <= ts@.len()
        }),
    decreases ts@.len() - i, 1int,
{
    let ghost tv = toks_view(ts@);
    let n = ts.len();
    let mut out: Vec<BibtexContent> = Vec::new();
    let mut pos: usize = i;
    loop
        invariant
            i <= pos <= n,
            n == ts@.len(),
            tv == toks_view(ts@),
            ({
                let (m, j) = parse_content_list(tv, i as int, quoted);
                let (mr, jr) = parse_content_list(tv, pos as int, quoted);
                m =~= contents_view(out@) + mr && j == jr
            }),
        ensures
            i <= pos <= n,
            parse_content_list(tv, pos as int, quoted).0 =~= Seq::<ContentModel>::empty(),
            parse_content_list(tv, pos as int, quoted).1 == pos as int,
        decreases n - pos,
    {
        if pos >= n {
            proof {
                assert(parse_content_list(tv, pos as int, quoted).0 =~= Seq::<ContentModel>::empty());
            }
            break;
        }
        let k = ts[pos].kind;
        if is_group_child_x(k, quoted) {
            let (c, j0) = p_group(ts, pos);
            proof {
                let (mr, jr) = parse_content_list(tv, pos as int, quoted);
                let (cm, cj) = parse_group(tv, pos as int);
                assert(j0 as int == step_pos(cj, pos as int, n as int));
                lemma_contents_view_push(out@, c);
                assert(contents_view(out@.push(c)) + parse_content_list(tv, j0 as int, quoted).0
                    =~= contents_view(out@) + mr);
            }
            out.push(c);
            pos = j0;
        } else if is_leaf_child_x(k) {
            let c = leaf_x(&ts[pos]);
            proof {
                let (mr, jr) = parse_content_list(tv, pos as int, quoted);
                lemma_contents_view_push(out@, c);
                assert(contents_view(out@.push(c)) + parse_content_list(tv, pos as int + 1, quoted).0
                    =~= contents_view(out@) + mr);
            }
            out.push(c);
            pos = pos + 1;
        } else {
            proof {
                assert(parse_content_list(tv, pos as int, quoted).0 =~= Seq::<ContentModel>::empty());
            }
            break;
        }
    }
    proof {
        assert(contents_view(out@) + parse_content_list(tv, pos as int, quoted).0
            =~= contents_view(out@));
    }
    (out, pos)
}

fn p_content(ts: &Vec<BibtexToken>, i: usize) -> (r: (BibtexContent, usize))
    requires
        i < ts@.len(),
        can_start_content(ts@[i as int].kind),
    ensures
        ({
            let (m, j) = parse_content(toks_view(ts@), i as int);
            content_view(r.0) == m && r.1 as int == j && i < r.1 <= ts@.len()
        }),
    decreases ts@.len() - i, 2int,
{
    let ghost tv = toks_view(ts@);
    let n = ts.len();
    let k = ts[i].kind;
    let (base, jb): (BibtexContent, usize) = if k == BibtexTokenKind::Word || k == BibtexTokenKind::Command {
        (leaf_x(&ts[i]), i + 1)
    } else {
        p_group(ts, i)
    };
    if jb < n && ts[jb].kind == BibtexTokenKind::Concat {
        let op = tok_dup(&ts[jb]);
        if jb + 1 < n && can_start_content_x(ts[jb + 1].kind) {
            let (right, jr) = p_content(ts, jb + 1);
            let node = BibtexContent::Concat(Box::new(BibtexConcat {
                left: base,
                operator: op,
                right: Option::Some(right),
            }));
            proof {
                assert(content_view(node) =~~= parse_content(tv, i as int).0);
            }
            (node, jr)
        } else {
            let node = BibtexContent::Concat(Box::new(BibtexConcat {
                left: base,
                operator: op,
                right: Option::None,
            }));
            proof {
                assert(content_view(node) =~~= parse_content(tv, i as int).0);
            }
            (node, jb + 1)
        }
    } else {
        (base, jb)
    }
}

fn p_field(ts: &Vec<BibtexToken>, i: usize) -> (r: (BibtexField, usize))
    requires
        i < ts@.len(),
    ensures
        ({
            let (m, j) = parse_field(toks_view(ts@), i as int);
            field_view(r.0) == m && r.1 as int == j && i < r.1 <= ts@.len()
        }),
    decreases ts@.len() - i, 3int,
{
    let ghost tv = toks_view(ts@);
    let n = ts.len();
    let name = tok_dup(&ts[i]);
    let j1 = i + 1;
    let (assign, j2): (Option<BibtexToken>, usize) = if j1 < n && ts[j1].kind == BibtexTokenKind::Assign {
        (Option::Some(tok_dup(&ts[j1])), j1 + 1)
    } else {
        (Option::None, j1)
    };
    let (content, j3): (Option<BibtexContent>, usize) = if j2 < n && can_start_content_x(ts[j2].kind) {
        let (c, j0) = p_content(ts, j2);
        (Option::Some(c), j0)
    } else {
        (Option::None, j2)
    };
    let (comma, j4): (Option<BibtexToken>, usize) = if j3 < n && ts[j3].kind == BibtexTokenKind::Comma {
        (Option::Some(tok_dup(&ts[j3])), j3 + 1)
    } else {
        (Option::None, j3)
    };
    let node = BibtexField { name, assign, content, comma };
    proof {
        assert(field_view(node) =~~= parse_field(tv, i as int).0);
    }
    (node, j4)
}

fn p_fields(ts: &Vec<BibtexToken>, i: usize) -> (r: (Vec<BibtexField>, usize))
    requires
        i <= ts@.len(),
    ensures
        ({
            let (m, j) = parse_fields(toks_view(ts@), i as int);
            fields_view(r.0@) == m && r.1 as int == j && i <= r.1 <= ts@.len()
        }),
    decreases ts@.len() - i, 4int,
{
    let ghost tv = toks_view(ts@);
    let n = ts.len();
    let mut out: Vec<BibtexField> = Vec::new();
    let mut pos: usize = i;
    loop
        invariant
            i <= pos <= n,
            n == ts@.len(),
            tv == toks_view(ts@),
            ({
                let (m, j) = parse_fields(tv, i as int);
                let (mr, jr) = parse_fields(tv, pos as int);
                m =~= fields_view(out@) + mr && j == jr
            }),
        ensures
            i <= pos <= n,
            parse_fields(tv, pos as int).0 =~= Seq::<FieldModel>::empty(),
            parse_fields(tv, pos as int).1 == pos as int,
        decreases n - pos,
    {
        if pos >= n {
            proof {
                assert(parse_fields(tv, pos as int).0 =~= Seq::<FieldModel>::empty());
            }
            break;
        }
        if ts[pos].kind == BibtexTokenKind::Word {
            let (f, j0) = p_field(ts, pos);
            proof {
                let (mr, jr) = parse_fields(tv, pos as int);
                let (fm, fj) = parse_field(tv, pos as int);
                assert(j0 as int == step_pos(fj, pos as int, n as int));
                assert(fields_view(out@.push(f)) =~= fields_view(out@).push(field_view(f)));
                assert(fields_view(out@.push(f)) + parse_fields(tv, j0 as int).0
                    =~= fields_view(out@) + mr);
            }
            out.push(f);
            pos = j0;
        } else {
            proof {
                assert(parse_fields(tv, pos as int).0 =~= Seq::<FieldModel>::empty());
            }
            break;
        }
    }
    proof {
        assert(fields_view(out@) + parse_fields(tv, pos as int).0 =~= fields_view(out@));
    }
    (out, pos)
}

fn p_preamble(ts: &Vec<BibtexToken>, i: usize) -> (r: (BibtexPreamble, usize))
    requires
        i < ts@.len(),
    ensures
        ({
            let (m, j) = parse_preamble(toks_view(ts@), i as int);
            preamble_view(r.0) == m && r.1 as int == j && i < r.1 <= ts@.len()
        }),
{
    let ghost tv = toks_view(ts@);
    let n = ts.len();
    let ty = tok_dup(&ts[i]);
    let j1 = i + 1;
    let (left, j2): (Option<BibtexToken>, usize) = if j1 < n && is_open_kind_x(ts[j1].kind) {
        (Option::Some(tok_dup(&ts[j1])), j1 + 1)
    } else {
        (Option::None, j1)
    };
    let (content, j3): (Option<BibtexContent>, usize) = if j2 < n && can_start_content_x(ts[j2].kind) {
        let (c, j0) = p_content(ts, j2);
        (Option::Some(c), j0)
    } else {
        (Option::None, j2)
    };
    let (right, j4): (Option<BibtexToken>, usize) = if j3 < n && is_close_kind_x(ts[j3].kind) {
        (Option::Some(tok_dup(&ts[j3])), j3 + 1)
    } else {
        (Option::None, j3)
    };
    let node = BibtexPreamble { ty, left, content, right };
    proof {
        assert(preamble_view(node) =~~= parse_preamble(tv, i as int).0);
    }
    (node, j4)
}

fn p_string(ts: &Vec<BibtexToken>, i: usize) -> (r: (BibtexString, usize))
    requires
        i < ts@.len(),
    ensures
        ({
            let (m, j) = parse_string(toks_view(ts@), i as int);
            string_view(r.0) == m && r.1 as int == j && i < r.1 <= ts@.len()
        }),
{
    let ghost tv = toks_view(ts@);
    let n = ts.len();
    let ty = tok_dup(&ts[i]);
    let j1 = i + 1;
    let (left, j2): (Option<BibtexToken>, usize) = if j1 < n && is_open_kind_x(ts[j1].kind) {
        (Option::Some(tok_dup(&ts[j1])), j1 + 1)
    } else {
        (Option::None, j1)
    };
    let (name, j3): (Option<BibtexToken>, usize) = if j2 < n && ts[j2].kind == BibtexTokenKind::Word {
        (Option::Some(tok_dup(&ts[j2])), j2 + 1)
    } else {
        (Option::None, j2)
    };
    let (assign, j4): (Option<BibtexToken>, usize) = if j3 < n && ts[j3].kind == BibtexTokenKind::Assign {
        (Option::Some(tok_dup(&ts[j3])), j3 + 1)
    } else {
        (Option::None, j3)
    };
    let (value, j5): (Option<BibtexContent>, usize) = if j4 < n && can_start_content_x(ts[j4].kind) {
        let (c, j0) = p_content(ts, j4);
        (Option::Some(c), j0)
    } else {
        (Option::None, j4)
    };
    let (right, j6): (Option<BibtexToken>, usize) = if j5 < n && is_close_kind_x(ts[j5].kind) {
        (Option::Some(tok_dup(&ts[j5])), j5 + 1)
    } else {
        (Option::None, j5)
    };
    let node = BibtexString { ty, left, name, assign, value, right };
    proof {
        assert(string_view(node) =~~= parse_string(tv, i as int).0);
    }
    (node, j6)
}

fn p_entry(ts: &Vec<BibtexToken>, i: usize) -> (r: (BibtexEntry, usize))
    requires
        i < ts@.len(),
    ensures
        ({
            let (m, j) = parse_entry(toks_view(ts@), i as int);
            entry_view(r.0) == m && r.1 as int == j && i < r.1 <= ts@.len()
        }),
{
    let ghost tv = toks_view(ts@);
    let n = ts.len();
    let ty = tok_dup(&ts[i]);
    let j1 = i + 1;
    let (left, j2): (Option<BibtexToken>, usize) = if j1 < n && is_open_kind_x(ts[j1].kind) {
        (Option::Some(tok_dup(&ts[j1])), j1 + 1)
    } else {
        (Option::None, j1)
    };
    let (key, j3): (Option<BibtexToken>, usize) = if j2 < n && ts[j2].kind == BibtexTokenKind::Word {
        (Option::Some(tok_dup(&ts[j2])), j2 + 1)
    } else {
        (Option::None, j2)
    };
    let (comma, j4): (Option<BibtexToken>, usize) = if j3 < n && ts[j3].kind == BibtexTokenKind::Comma {
        (Option::Some(tok_dup(&ts[j3])), j3 + 1)
    } else {
        (Option::None, j3)
    };
    let (fields, j5) = p_fields(ts, j4);
    let (right, j6): (Option<BibtexToken>, usize) = if j5 < n && is_close_kind_x(ts[j5].kind) {
        (Option::Some(tok_dup(&ts[j5])), j5 + 1)
    } else {
        (Option::None, j5)
    };
    let node = BibtexEntry { ty, left, key, comma, fields, right };
    proof {
        assert(entry_view(node) =~~= parse_entry(tv, i as int).0);
    }
    (node, j6)
}

/// Parse a whole token stream into a root node. Returns exactly the tree
/// described by `spec_root_of`, for any token stream.
pub fn parse_tokens(ts: &Vec<BibtexToken>) -> (r: BibtexRoot)
    ensures
        root_view(r) == spec_root_of(toks_view(ts@)),
{
    let ghost tv = toks_view(ts@);
    let n = ts.len();
    let mut out: Vec<BibtexDeclaration> = Vec::new();
    let mut pos: usize = 0;
    while pos < n
        invariant
            0 <= pos <= n,
            n == ts@.len(),
            tv == toks_view(ts@),
            parse_root(tv, 0) =~= decls_view(out@) + parse_root(tv, pos as int),
        decreases n - pos,
    {
        let k = ts[pos].kind;
        if k == BibtexTokenKind::PreambleType {
            let (p, j0) = p_preamble(ts, pos);
            let d = BibtexDeclaration::Preamble(p);
            proof {
                assert(decls_view(out@.push(d)) =~= decls_view(out@).push(decl_view(d)));
                assert(decls_view(out@.push(d)) + parse_root(tv, j0 as int)
                    =~= decls_view(out@) + parse_root(tv, pos as int));
            }
            out.push(d);
            pos = j0;
        } else if k == BibtexTokenKind::StringType {
            let (s, j0) = p_string(ts, pos);
            let d = BibtexDeclaration::Str(s);
            proof {
                assert(decls_view(out@.push(d)) =~= decls_view(out@).push(decl_view(d)));
                assert(decls_view(out@.push(d)) + parse_root(tv, j0 as int)
                    =~= decls_view(out@) + parse_root(tv, pos as int));
            }
            out.push(d);
            pos = j0;
        } else if k == BibtexTokenKind::EntryType {
            let (e, j0) = p_entry(ts, pos);
            let d = BibtexDeclaration::Entry(e);
            proof {
                assert(decls_view(out@.push(d)) =~= decls_view(out@).push(decl_view(d)));
                assert(decls_view(out@.push(d)) + parse_root(tv, j0 as int)
                    =~= decls_view(out@) + parse_root(tv, pos as int));
            }
            out.push(d);
            pos = j0;
        } else {
            proof {
                assert(parse_root(tv, pos as int) == parse_root(tv, pos as int + 1));
            }
            pos = pos + 1;
        }
    }
    proof {
        assert(parse_root(tv, pos as int) =~= Seq::<DeclModel>::empty());
        assert(decls_view(out@) + parse_root(tv, pos as int) =~= decls_view(out@));
    }
    BibtexRoot { children: out }
}

} // verus!
