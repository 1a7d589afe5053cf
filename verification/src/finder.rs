//! The position-indexed node finder: given a cursor position, the ordered
//! stack of nodes whose range contains it, root first, innermost last.
//!
//! A node's range is derived from its tokens: from the start of its first
//! token to the end of its last present token. Containment treats both
//! endpoints as inclusive, so a cursor at the very end of a token still hits
//! it. When the position lies in whitespace covered by no child, the stack
//! stops at the last ancestor that does contain it; when it lies outside the
//! document, the stack is empty.

use vstd::prelude::*;

use crate::text::{Position, Range, range_contains};
use crate::ast::{
    BibtexToken, BibtexRoot, BibtexDeclaration, BibtexPreamble, BibtexString, BibtexEntry,
    BibtexField, BibtexContent, BibtexWord, BibtexCommand, BibtexQuotedContent,
    BibtexBracedContent, BibtexConcat,
};
use crate::BibtexSyntaxTree;

verus! {

/// A borrowed node of the tree, as returned by `find`.
#[derive(Debug, Clone, Copy)]
pub enum BibtexNode<'a> {
    Root(&'a BibtexRoot),
    Preamble(&'a BibtexPreamble),
    Str(&'a BibtexString),
    Entry(&'a BibtexEntry),
    Field(&'a BibtexField),
    Word(&'a BibtexWord),
    Command(&'a BibtexCommand),
    QuotedContent(&'a BibtexQuotedContent),
    BracedContent(&'a BibtexBracedContent),
    Concat(&'a BibtexConcat),
    Token(&'a BibtexToken),
}

pub open spec fn quoted_range(q: BibtexQuotedContent) -> Range
    decreases q, 0int,
{
    Range {
        start: q.left.span.start,
        end: match q.right {
            Option::Some(r) => r.span.end,
            Option::None => {
                if q.children@.len() > 0 {
                    content_range(q.children@.last()).end
                } else {
                    q.left.span.end
                }
            },
        },
    }
}

pub open spec fn braced_range(b: BibtexBracedContent) -> Range
    decreases b, 0int,
{
    Range {
        start: b.left.span.start,
        end: match b.right {
            Option::Some(r) => r.span.end,
            Option::None => {
                if b.children@.len() > 0 {
                    content_range(b.children@.last()).end
                } else {
                    b.left.span.end
                }
            },
        },
    }
}

pub open spec fn concat_range(c: BibtexConcat) -> Range
    decreases c, 0int,
{
    Range {
        start: content_range(c.left).start,
        end: match c.right {
            Option::Some(r) => content_range(r).end,
            Option::None => c.operator.span.end,
        },
    }
}

/// The source range of a content node: from its first to its last token.
pub open spec fn content_range(c: BibtexContent) -> Range
    decreases c, 1int,
{
    match c {
        BibtexContent::Word(w) => w.token.span,
        BibtexContent::Command(w) => w.token.span,
        BibtexContent::QuotedContent(q) => quoted_range(q),
        BibtexContent::BracedContent(b) => braced_range(b),
        BibtexContent::Concat(cc) => concat_range(*cc),
    }
}

pub open spec fn field_range(f: BibtexField) -> Range {
    Range {
        start: f.name.span.start,
        end: match f.comma {
            Option::Some(t) => t.span.end,
            Option::None => match f.content {
                Option::Some(c) => content_range(c).end,
                Option::None => match f.assign {
                    Option::Some(t) => t.span.end,
                    Option::None => f.name.span.end,
                },
            },
        },
    }
}

pub open spec fn preamble_range(p: BibtexPreamble) -> Range {
    Range {
        start: p.ty.span.start,
        end: match p.right {
            Option::Some(t) => t.span.end,
            Option::None => match p.content {
                Option::Some(c) => content_range(c).end,
                Option::None => match p.left {
                    Option::Some(t) => t.span.end,
                    Option::None => p.ty.span.end,
                },
            },
        },
    }
}

pub open spec fn string_range(s: BibtexString) -> Range {
    Range {
        start: s.ty.span.start,
        end: match s.right {
            Option::Some(t) => t.span.end,
            Option::None => match s.value {
                Option::Some(c) => content_range(c).end,
                Option::None => match s.assign {
                    Option::Some(t) => t.span.end,
                    Option::None => match s.name {
                        Option::Some(t) => t.span.end,
                        Option::None => match s.left {
                            Option::Some(t) => t.span.end,
                            Option::None => s.ty.span.end,
                        },
                    },
                },
            },
        },
    }
}

pub open spec fn entry_range(e: BibtexEntry) -> Range {
    Range {
        start: e.ty.span.start,
        end: match e.right {
            Option::Some(t) => t.span.end,
            Option::None => {
                if e.fields@.len() > 0 {
                    field_range(e.fields@.last()).end
                } else {
                    match e.comma {
                        Option::Some(t) => t.span.end,
                        Option::None => match e.key {
                            Option::Some(t) => t.span.end,
                            Option::None => match e.left {
                                Option::Some(t) => t.span.end,
                                Option::None => e.ty.span.end,
                            },
                        },
                    }
                }
            },
        },
    }
}

pub open spec fn decl_range(d: BibtexDeclaration) -> Range {
    match d {
        BibtexDeclaration::Preamble(p) => preamble_range(p),
        BibtexDeclaration::Str(s) => string_range(s),
        BibtexDeclaration::Entry(e) => entry_range(e),
    }
}

/// The range of a whole document: from the first to the last declaration.
pub open spec fn root_range(r: BibtexRoot) -> Range {
    if r.children@.len() == 0 {
        Range {
            start: Position { line: 0, character: 0 },
            end: Position { line: 0, character: 0 },
        }
    } else {
        Range {
            start: decl_range(r.children@.first()).start,
            end: decl_range(r.children@.last()).end,
        }
    }
}

/// A found node by value: what a `BibtexNode` borrow points at. The finder's
/// contract speaks of these, so the returned stack is pinned as a value.
pub enum FoundNode {
    Root(BibtexRoot),
    Preamble(BibtexPreamble),
    Str(BibtexString),
    Entry(BibtexEntry),
    Field(BibtexField),
    Word(BibtexWord),
    Command(BibtexCommand),
    QuotedContent(BibtexQuotedContent),
    BracedContent(BibtexBracedContent),
    Concat(BibtexConcat),
    Token(BibtexToken),
}

pub open spec fn node_view(n: BibtexNode) -> FoundNode {
    match n {
        BibtexNode::Root(r) => FoundNode::Root(*r),
        BibtexNode::Preamble(p) => FoundNode::Preamble(*p),
        BibtexNode::Str(s) => FoundNode::Str(*s),
        BibtexNode::Entry(e) => FoundNode::Entry(*e),
        BibtexNode::Field(f) => FoundNode::Field(*f),
        BibtexNode::Word(w) => FoundNode::Word(*w),
        BibtexNode::Command(w) => FoundNode::Command(*w),
        BibtexNode::QuotedContent(q) => FoundNode::QuotedContent(*q),
        BibtexNode::BracedContent(b) => FoundNode::BracedContent(*b),
        BibtexNode::Concat(c) => FoundNode::Concat(*c),
        BibtexNode::Token(t) => FoundNode::Token(*t),
    }
}

pub open spec fn nodes_view<'a>(s: Seq<BibtexNode<'a>>) -> Seq<FoundNode> {
    s.map_values(|n: BibtexNode<'a>| node_view(n))
}

/// The source range of a found node.
pub open spec fn found_range(n: FoundNode) -> Range {
    match n {
        FoundNode::Root(r) => root_range(r),
        FoundNode::Preamble(p) => preamble_range(p),
        FoundNode::Str(s) => string_range(s),
        FoundNode::Entry(e) => entry_range(e),
        FoundNode::Field(f) => field_range(f),
        FoundNode::Word(w) => w.token.span,
        FoundNode::Command(w) => w.token.span,
        FoundNode::QuotedContent(q) => quoted_range(q),
        FoundNode::BracedContent(b) => braced_range(b),
        FoundNode::Concat(c) => concat_range(c),
        FoundNode::Token(t) => t.span,
    }
}

/// The source range of a borrowed node.
pub open spec fn node_range(n: BibtexNode) -> Range {
    found_range(node_view(n))
}

pub fn content_range_x(c: &BibtexContent) -> (r: Range)
    ensures
        r == content_range(*c),
    decreases *c, 1int,
{
    match c {
        BibtexContent::Word(w) => w.token.span,
        BibtexContent::Command(w) => w.token.span,
        BibtexContent::QuotedContent(q) => quoted_range_x(q),
        BibtexContent::BracedContent(b) => braced_range_x(b),
        BibtexContent::Concat(cc) => concat_range_x(cc),
    }
}

pub fn quoted_range_x(q: &BibtexQuotedContent) -> (r: Range)
    ensures
        r == quoted_range(*q),
    decreases *q, 0int,
{
    let end = match &q.right {
        Option::Some(t) => t.span.end,
        Option::None => {
            if q.children.len() > 0 {
                content_range_x(&q.children[q.children.len() - 1]).end
            } else {
                q.left.span.end
            }
        },
    };
    Range { start: q.left.span.start, end }
}

pub fn braced_range_x(b: &BibtexBracedContent) -> (r: Range)
    ensures
        r == braced_range(*b),
    decreases *b, 0int,
{
    let end = match &b.right {
        Option::Some(t) => t.span.end,
        Option::None => {
            if b.children.len() > 0 {
                content_range_x(&b.children[b.children.len() - 1]).end
            } else {
                b.left.span.end
            }
        },
    };
    Range { start: b.left.span.start, end }
}

pub fn concat_range_x(c: &BibtexConcat) -> (r: Range)
    ensures
        r == concat_range(*c),
    decreases *c, 0int,
{
    let start = content_range_x(&c.left).start;
    let end = match &c.right {
        Option::Some(rc) => content_range_x(rc).end,
        Option::None => c.operator.span.end,
    };
    Range { start, end }
}

pub fn field_range_x(f: &BibtexField) -> (r: Range)
    ensures
        r == field_range(*f),
{
    let end = match &f.comma {
        Option::Some(t) => t.span.end,
        Option::None => match &f.content {
            Option::Some(c) => content_range_x(c).end,
            Option::None => match &f.assign {
                Option::Some(t) => t.span.end,
                Option::None => f.name.span.end,
            },
        },
    };
    Range { start: f.name.span.start, end }
}

pub fn preamble_range_x(p: &BibtexPreamble) -> (r: Range)
    ensures
        r == preamble_range(*p),
{
    let end = match &p.right {
        Option::Some(t) => t.span.end,
        Option::None => match &p.content {
            Option::Some(c) => content_range_x(c).end,
            Option::None => match &p.left {
                Option::Some(t) => t.span.end,
                Option::None => p.ty.span.end,
            },
        },
    };
    Range { start: p.ty.span.start, end }
}

pub fn string_range_x(s: &BibtexString) -> (r: Range)
    ensures
        r == string_range(*s),
{
    let end = match &s.right {
        Option::Some(t) => t.span.end,
        Option::None => match &s.value {
            Option::Some(c) => content_range_x(c).end,
            Option::None => match &s.assign {
                Option::Some(t) => t.span.end,
                Option::None => match &s.name {
                    Option::Some(t) => t.span.end,
                    Option::None => match &s.left {
                        Option::Some(t) => t.span.end,
                        Option::None => s.ty.span.end,
                    },
                },
            },
        },
    };
    Range { start: s.ty.span.start, end }
}

pub fn entry_range_x(e: &BibtexEntry) -> (r: Range)
    ensures
        r == entry_range(*e),
{
    let end = match &e.right {
        Option::Some(t) => t.span.end,
        Option::None => {
            if e.fields.len() > 0 {
                field_range_x(&e.fields[e.fields.len() - 1]).end
            } else {
                match &e.comma {
                    Option::Some(t) => t.span.end,
                    Option::None => match &e.key {
                        Option::Some(t) => t.span.end,
                        Option::None => match &e.left {
                            Option::Some(t) => t.span.end,
                            Option::None => e.ty.span.end,
                        },
                    },
                }
            }
        },
    };
    Range { start: e.ty.span.start, end }
}

/// The nodes the finder yields for one token: the token itself when its span
/// contains the position.
pub open spec fn find_token(t: BibtexToken, pos: Position) -> Seq<FoundNode> {
    if range_contains(t.span, pos) {
        seq![FoundNode::Token(t)]
    } else {
        Seq::empty()
    }
}

pub open spec fn find_opt_token(t: Option<BibtexToken>, pos: Position) -> Seq<FoundNode> {
    match t {
        Option::Some(x) => find_token(x, pos),
        Option::None => Seq::empty(),
    }
}

/// The finder's stack below one content node: the node itself when its range
/// contains the position, followed by whatever it yields below each of its
/// parts in source order. With endpoint-inclusive containment a position on
/// the boundary of two adjacent siblings belongs to both; each then
/// contributes its own sub-stack, in source order.
pub open spec fn find_in_content(c: BibtexContent, pos: Position) -> Seq<FoundNode>
    decreases c,
{
    match c {
        BibtexContent::Word(w) => {
            if range_contains(w.token.span, pos) {
                seq![FoundNode::Word(w)] + find_token(w.token, pos)
            } else {
                Seq::empty()
            }
        },
        BibtexContent::Command(w) => {
            if range_contains(w.token.span, pos) {
                seq![FoundNode::Command(w)] + find_token(w.token, pos)
            } else {
                Seq::empty()
            }
        },
        BibtexContent::QuotedContent(q) => {
            if range_contains(quoted_range(q), pos) {
                seq![FoundNode::QuotedContent(q)] + find_token(q.left, pos)
                    + find_in_contents(q.children@, pos) + find_opt_token(q.right, pos)
            } else {
                Seq::empty()
            }
        },
        BibtexContent::BracedContent(b) => {
            if range_contains(braced_range(b), pos) {
                seq![FoundNode::BracedContent(b)] + find_token(b.left, pos)
                    + find_in_contents(b.children@, pos) + find_opt_token(b.right, pos)
            } else {
                Seq::empty()
            }
        },
        BibtexContent::Concat(cc) => {
            if range_contains(concat_range(*cc), pos) {
                seq![FoundNode::Concat(*cc)] + find_in_content(cc.left, pos)
                    + find_token(cc.operator, pos) + (match cc.right {
                    Option::Some(r) => find_in_content(r, pos),
                    Option::None => Seq::empty(),
                })
            } else {
                Seq::empty()
            }
        },
    }
}

pub open spec fn find_in_contents(cs: Seq<BibtexContent>, pos: Position) -> Seq<FoundNode>
    decreases cs,
{
    if cs.len() == 0 {
        Seq::empty()
    } else {
        find_in_contents(cs.drop_last(), pos) + find_in_content(cs.last(), pos)
    }
}

pub open spec fn find_in_field(f: BibtexField, pos: Position) -> Seq<FoundNode> {
    if range_contains(field_range(f), pos) {
        seq![FoundNode::Field(f)] + find_token(f.name, pos) + find_opt_token(f.assign, pos)
            + (match f.content {
            Option::Some(c) => find_in_content(c, pos),
            Option::None => Seq::empty(),
        }) + find_opt_token(f.comma, pos)
    } else {
        Seq::empty()
    }
}

pub open spec fn find_in_fields(fs: Seq<BibtexField>, pos: Position) -> Seq<FoundNode>
    decreases fs,
{
    if fs.len() == 0 {
        Seq::empty()
    } else {
        find_in_fields(fs.drop_last(), pos) + find_in_field(fs.last(), pos)
    }
}

pub open spec fn find_in_preamble(p: BibtexPreamble, pos: Position) -> Seq<FoundNode> {
    if range_contains(preamble_range(p), pos) {
        seq![FoundNode::Preamble(p)] + find_token(p.ty, pos) + find_opt_token(p.left, pos)
            + (match p.content {
            Option::Some(c) => find_in_content(c, pos),
            Option::None => Seq::empty(),
        }) + find_opt_token(p.right, pos)
    } else {
        Seq::empty()
    }
}

pub open spec fn find_in_string(s: BibtexString, pos: Position) -> Seq<FoundNode> {
    if range_contains(string_range(s), pos) {
        seq![FoundNode::Str(s)] + find_token(s.ty, pos) + find_opt_token(s.left, pos)
            + find_opt_token(s.name, pos) + find_opt_token(s.assign, pos) + (match s.value {
            Option::Some(c) => find_in_content(c, pos),
            Option::None => Seq::empty(),
        }) + find_opt_token(s.right, pos)
    } else {
        Seq::empty()
    }
}

pub open spec fn find_in_entry(e: BibtexEntry, pos: Position) -> Seq<FoundNode> {
    if range_contains(entry_range(e), pos) {
        seq![FoundNode::Entry(e)] + find_token(e.ty, pos) + find_opt_token(e.left, pos)
            + find_opt_token(e.key, pos) + find_opt_token(e.comma, pos)
            + find_in_fields(e.fields@, pos) + find_opt_token(e.right, pos)
    } else {
        Seq::empty()
    }
}

pub open spec fn find_in_decl(d: BibtexDeclaration, pos: Position) -> Seq<FoundNode> {
    match d {
        BibtexDeclaration::Preamble(p) => find_in_preamble(p, pos),
        BibtexDeclaration::Str(s) => find_in_string(s, pos),
        BibtexDeclaration::Entry(e) => find_in_entry(e, pos),
    }
}

pub open spec fn find_in_decls(ds: Seq<BibtexDeclaration>, pos: Position) -> Seq<FoundNode>
    decreases ds,
{
    if ds.len() == 0 {
        Seq::empty()
    } else {
        find_in_decls(ds.drop_last(), pos) + find_in_decl(ds.last(), pos)
    }
}

/// The finder's whole stack: the root when its range contains the position,
/// then each declaration's sub-stack, root first, innermost last. Where the
/// position lies in whitespace covered by no child span, every guard below
/// the last containing ancestor fails and the stack stops there. The
/// definition of `find`.
pub open spec fn find_in_root(r: BibtexRoot, pos: Position) -> Seq<FoundNode> {
    if range_contains(root_range(r), pos) {
        seq![FoundNode::Root(r)] + find_in_decls(r.children@, pos)
    } else {
        Seq::empty()
    }
}

/// Every node of the stack has a range containing the position.
pub open spec fn all_contain(s: Seq<FoundNode>, pos: Position) -> bool {
    forall|k: int| 0 <= k < s.len() ==> range_contains(found_range(#[trigger] s[k]), pos)
}

proof fn lemma_all_contain_append(a: Seq<FoundNode>, b: Seq<FoundNode>, pos: Position)
    requires
        all_contain(a, pos),
        all_contain(b, pos),
    ensures
        all_contain(a + b, pos),
{
    assert forall|k: int| 0 <= k < (a + b).len()
        implies range_contains(found_range(#[trigger] (a + b)[k]), pos) by {
        if k < a.len() {
            assert((a + b)[k] == a[k]);
        } else {
            assert((a + b)[k] == b[k - a.len()]);
        }
    }
}

proof fn lemma_find_token_contains(t: BibtexToken, pos: Position)
    ensures
        all_contain(find_token(t, pos), pos),
{
}

proof fn lemma_find_opt_token_contains(t: Option<BibtexToken>, pos: Position)
    ensures
        all_contain(find_opt_token(t, pos), pos),
{
}

proof fn lemma_find_in_content_contains(c: BibtexContent, pos: Position)
    ensures
        all_contain(find_in_content(c, pos), pos),
    decreases c,
{
    match c {
        BibtexContent::Word(w) => {
        },
        BibtexContent::Command(w) => {
        },
        BibtexContent::QuotedContent(q) => {
            if range_contains(quoted_range(q), pos) {
                lemma_find_token_contains(q.left, pos);
                lemma_find_in_contents_contains(q.children@, pos);
                lemma_find_opt_token_contains(q.right, pos);
                lemma_all_contain_append(seq![FoundNode::QuotedContent(q)], find_token(q.left, pos), pos);
                lemma_all_contain_append(
                    seq![FoundNode::QuotedContent(q)] + find_token(q.left, pos),
                    find_in_contents(q.children@, pos), pos);
                lemma_all_contain_append(
                    seq![FoundNode::QuotedContent(q)] + find_token(q.left, pos)
                        + find_in_contents(q.children@, pos),
                    find_opt_token(q.right, pos), pos);
            }
        },
        BibtexContent::BracedContent(b) => {
            if range_contains(braced_range(b), pos) {
                lemma_find_token_contains(b.left, pos);
                lemma_find_in_contents_contains(b.children@, pos);
                lemma_find_opt_token_contains(b.right, pos);
                lemma_all_contain_append(seq![FoundNode::BracedContent(b)], find_token(b.left, pos), pos);
                lemma_all_contain_append(
                    seq![FoundNode::BracedContent(b)] + find_token(b.left, pos),
                    find_in_contents(b.children@, pos), pos);
                lemma_all_contain_append(
                    seq![FoundNode::BracedContent(b)] + find_token(b.left, pos)
                        + find_in_contents(b.children@, pos),
                    find_opt_token(b.right, pos), pos);
            }
        },
        BibtexContent::Concat(cc) => {
            if range_contains(concat_range(*cc), pos) {
                lemma_find_in_content_contains(cc.left, pos);
                lemma_find_token_contains(cc.operator, pos);
                let tail = match cc.right {
                    Option::Some(r) => find_in_content(r, pos),
                    Option::None => Seq::<FoundNode>::empty(),
                };
                match cc.right {
                    Option::Some(r) => {
                        lemma_find_in_content_contains(r, pos);
                    },
                    Option::None => {
                    },
                }
                lemma_all_contain_append(seq![FoundNode::Concat(*cc)], find_in_content(cc.left, pos), pos);
                lemma_all_contain_append(
                    seq![FoundNode::Concat(*cc)] + find_in_content(cc.left, pos),
                    find_token(cc.operator, pos), pos);
                lemma_all_contain_append(
                    seq![FoundNode::Concat(*cc)] + find_in_content(cc.left, pos)
                        + find_token(cc.operator, pos),
                    tail, pos);
            }
        },
    }
}

proof fn lemma_find_in_contents_contains(cs: Seq<BibtexContent>, pos: Position)
    ensures
        all_contain(find_in_contents(cs, pos), pos),
    decreases cs,
{
    if cs.len() > 0 {
        lemma_find_in_contents_contains(cs.drop_last(), pos);
        lemma_find_in_content_contains(cs.last(), pos);
        lemma_all_contain_append(find_in_contents(cs.drop_last(), pos), find_in_content(cs.last(), pos), pos);
    }
}

proof fn lemma_find_in_field_contains(f: BibtexField, pos: Position)
    ensures
        all_contain(find_in_field(f, pos), pos),
{
    if range_contains(field_range(f), pos) {
        let v = match f.content {
            Option::Some(c) => find_in_content(c, pos),
            Option::None => Seq::<FoundNode>::empty(),
        };
        match f.content {
            Option::Some(c) => {
                lemma_find_in_content_contains(c, pos);
            },
            Option::None => {
            },
        }
        lemma_all_contain_append(seq![FoundNode::Field(f)], find_token(f.name, pos), pos);
        lemma_all_contain_append(
            seq![FoundNode::Field(f)] + find_token(f.name, pos),
            find_opt_token(f.assign, pos), pos);
        lemma_all_contain_append(
            seq![FoundNode::Field(f)] + find_token(f.name, pos) + find_opt_token(f.assign, pos),
            v, pos);
        lemma_all_contain_append(
            seq![FoundNode::Field(f)] + find_token(f.name, pos) + find_opt_token(f.assign, pos) + v,
            find_opt_token(f.comma, pos), pos);
    }
}

proof fn lemma_find_in_fields_contains(fs: Seq<BibtexField>, pos: Position)
    ensures
        all_contain(find_in_fields(fs, pos), pos),
    decreases fs,
{
    if fs.len() > 0 {
        lemma_find_in_fields_contains(fs.drop_last(), pos);
        lemma_find_in_field_contains(fs.last(), pos);
        lemma_all_contain_append(find_in_fields(fs.drop_last(), pos), find_in_field(fs.last(), pos), pos);
    }
}

proof fn lemma_find_in_decl_contains(d: BibtexDeclaration, pos: Position)
    ensures
        all_contain(find_in_decl(d, pos), pos),
{
    match d {
        BibtexDeclaration::Preamble(p) => {
            if range_contains(preamble_range(p), pos) {
                let v = match p.content {
                    Option::Some(c) => find_in_content(c, pos),
                    Option::None => Seq::<FoundNode>::empty(),
                };
                match p.content {
                    Option::Some(c) => {
                        lemma_find_in_content_contains(c, pos);
                    },
                    Option::None => {
                    },
                }
                lemma_all_contain_append(seq![FoundNode::Preamble(p)], find_token(p.ty, pos), pos);
                lemma_all_contain_append(
                    seq![FoundNode::Preamble(p)] + find_token(p.ty, pos),
                    find_opt_token(p.left, pos), pos);
                lemma_all_contain_append(
                    seq![FoundNode::Preamble(p)] + find_token(p.ty, pos) + find_opt_token(p.left, pos),
                    v, pos);
                lemma_all_contain_append(
                    seq![FoundNode::Preamble(p)] + find_token(p.ty, pos) + find_opt_token(p.left, pos) + v,
                    find_opt_token(p.right, pos), pos);
            }
        },
        BibtexDeclaration::Str(s) => {
            if range_contains(string_range(s), pos) {
                let v = match s.value {
                    Option::Some(c) => find_in_content(c, pos),
                    Option::None => Seq::<FoundNode>::empty(),
                };
                match s.value {
                    Option::Some(c) => {
                        lemma_find_in_content_contains(c, pos);
                    },
                    Option::None => {
                    },
                }
                lemma_all_contain_append(seq![FoundNode::Str(s)], find_token(s.ty, pos), pos);
                lemma_all_contain_append(
                    seq![FoundNode::Str(s)] + find_token(s.ty, pos),
                    find_opt_token(s.left, pos), pos);
                lemma_all_contain_append(
                    seq![FoundNode::Str(s)] + find_token(s.ty, pos) + find_opt_token(s.left, pos),
                    find_opt_token(s.name, pos), pos);
                lemma_all_contain_append(
                    seq![FoundNode::Str(s)] + find_token(s.ty, pos) + find_opt_token(s.left, pos)
                        + find_opt_token(s.name, pos),
                    find_opt_token(s.assign, pos), pos);
                lemma_all_contain_append(
                    seq![FoundNode::Str(s)] + find_token(s.ty, pos) + find_opt_token(s.left, pos)
                        + find_opt_token(s.name, pos) + find_opt_token(s.assign, pos),
                    v, pos);
                lemma_all_contain_append(
                    seq![FoundNode::Str(s)] + find_token(s.ty, pos) + find_opt_token(s.left, pos)
                        + find_opt_token(s.name, pos) + find_opt_token(s.assign, pos) + v,
                    find_opt_token(s.right, pos), pos);
            }
        },
        BibtexDeclaration::Entry(e) => {
            if range_contains(entry_range(e), pos) {
                lemma_find_in_fields_contains(e.fields@, pos);
                lemma_all_contain_append(seq![FoundNode::Entry(e)], find_token(e.ty, pos), pos);
                lemma_all_contain_append(
                    seq![FoundNode::Entry(e)] + find_token(e.ty, pos),
                    find_opt_token(e.left, pos), pos);
                lemma_all_contain_append(
                    seq![FoundNode::Entry(e)] + find_token(e.ty, pos) + find_opt_token(e.left, pos),
                    find_opt_token(e.key, pos), pos);
                lemma_all_contain_append(
                    seq![FoundNode::Entry(e)] + find_token(e.ty, pos) + find_opt_token(e.left, pos)
                        + find_opt_token(e.key, pos),
                    find_opt_token(e.comma, pos), pos);
                lemma_all_contain_append(
                    seq![FoundNode::Entry(e)] + find_token(e.ty, pos) + find_opt_token(e.left, pos)
                        + find_opt_token(e.key, pos) + find_opt_token(e.comma, pos),
                    find_in_fields(e.fields@, pos), pos);
                lemma_all_contain_append(
                    seq![FoundNode::Entry(e)] + find_token(e.ty, pos) + find_opt_token(e.left, pos)
                        + find_opt_token(e.key, pos) + find_opt_token(e.comma, pos)
                        + find_in_fields(e.fields@, pos),
                    find_opt_token(e.right, pos), pos);
            }
        },
    }
}

proof fn lemma_find_in_decls_contains(ds: Seq<BibtexDeclaration>, pos: Position)
    ensures
        all_contain(find_in_decls(ds, pos), pos),
    decreases ds,
{
    if ds.len() > 0 {
        lemma_find_in_decls_contains(ds.drop_last(), pos);
        lemma_find_in_decl_contains(ds.last(), pos);
        lemma_all_contain_append(find_in_decls(ds.drop_last(), pos), find_in_decl(ds.last(), pos), pos);
    }
}

/// Every node of the finder's stack has a range containing the position, and
/// a non-empty stack begins with the root.
pub proof fn lemma_find_in_root_contains(r: BibtexRoot, pos: Position)
    ensures
        all_contain(find_in_root(r, pos), pos),
        find_in_root(r, pos).len() > 0 ==> find_in_root(r, pos)[0] == FoundNode::Root(r),
        find_in_root(r, pos).len() > 0 <==> range_contains(root_range(r), pos),
{
    if range_contains(root_range(r), pos) {
        lemma_find_in_decls_contains(r.children@, pos);
        lemma_all_contain_append(seq![FoundNode::Root(r)], find_in_decls(r.children@, pos), pos);
    }
}

fn range_has(r: Range, pos: Position) -> (b: bool)
    ensures
        b == range_contains(r, pos),
{
    r.contains(pos)
}

fn visit_token<'a>(t: &'a BibtexToken, pos: Position, out: &mut Vec<BibtexNode<'a>>)
    ensures
        nodes_view(final(out)@) == nodes_view(old(out)@) + find_token(*t, pos),
{
    if range_has(t.span, pos) {
        let n = BibtexNode::Token(t);
        proof {
            assert(nodes_view(out@.push(n)) =~= nodes_view(out@) + find_token(*t, pos));
        }
        out.push(n);
    } else {
        proof {
            assert(nodes_view(out@) + find_token(*t, pos) =~= nodes_view(out@));
        }
    }
}

fn visit_opt_token<'a>(t: &'a Option<BibtexToken>, pos: Position, out: &mut Vec<BibtexNode<'a>>)
    ensures
        nodes_view(final(out)@) == nodes_view(old(out)@) + find_opt_token(*t, pos),
{
    match t {
        Option::Some(tok) => visit_token(tok, pos, out),
        Option::None => {
            proof {
                assert(nodes_view(out@) + find_opt_token(*t, pos) =~= nodes_view(out@));
            }
        },
    }
}

fn visit_content<'a>(c: &'a BibtexContent, pos: Position, out: &mut Vec<BibtexNode<'a>>)
    ensures
        nodes_view(final(out)@) == nodes_view(old(out)@) + find_in_content(*c, pos),
    decreases *c,
{
    match c {
        BibtexContent::Word(w) => {
            if range_has(w.token.span, pos) {
                let n = BibtexNode::Word(w);
                proof {
                    assert(nodes_view(out@.push(n)) =~= nodes_view(out@).push(node_view(n)));
                }
                out.push(n);
                visit_token(&w.token, pos, out);
                proof {
                    assert(nodes_view(out@)
                        =~= nodes_view(old(out)@) + find_in_content(*c, pos));
                }
            } else {
                proof {
                    assert(nodes_view(out@) + find_in_content(*c, pos) =~= nodes_view(out@));
                }
            }
        },
        BibtexContent::Command(w) => {
            if range_has(w.token.span, pos) {
                let n = BibtexNode::Command(w);
                proof {
                    assert(nodes_view(out@.push(n)) =~= nodes_view(out@).push(node_view(n)));
                }
                out.push(n);
                visit_token(&w.token, pos, out);
                proof {
                    assert(nodes_view(out@)
                        =~= nodes_view(old(out)@) + find_in_content(*c, pos));
                }
            } else {
                proof {
                    assert(nodes_view(out@) + find_in_content(*c, pos) =~= nodes_view(out@));
                }
            }
        },
        BibtexContent::QuotedContent(q) => {
            if range_has(quoted_range_x(q), pos) {
                let n = BibtexNode::QuotedContent(q);
                proof {
                    assert(nodes_view(out@.push(n)) =~= nodes_view(out@).push(node_view(n)));
                }
                out.push(n);
                visit_token(&q.left, pos, out);
                let ghost base = out@;
                let m = q.children.len();
                let mut i: usize = 0;
                proof {
                    assert(nodes_view(base) + find_in_contents(q.children@.take(0), pos)
                        =~= nodes_view(base));
                }
                while i < m
                    invariant
                        m == q.children@.len(),
                        0 <= i <= m,
                        *c == BibtexContent::QuotedContent(*q),
                        nodes_view(out@) == nodes_view(base)
                            + find_in_contents(q.children@.take(i as int), pos),
                    decreases m - i,
                {
                    proof {
                        assert(decreases_to!(*c => (*c)->QuotedContent_0));
                        assert(decreases_to!(*q => q.children@[i as int]));
                    }
                    visit_content(&q.children[i], pos, out);
                    proof {
                        assert(q.children@.take(i as int + 1).drop_last() =~= q.children@.take(i as int));
                        assert(q.children@.take(i as int + 1).last() == q.children@[i as int]);
                        assert(nodes_view(out@) =~= nodes_view(base)
                            + find_in_contents(q.children@.take(i as int + 1), pos));
                    }
                    i = i + 1;
                }
                proof {
                    assert(q.children@.take(m as int) =~= q.children@);
                }
                visit_opt_token(&q.right, pos, out);
                proof {
                    assert(nodes_view(out@)
                        =~= nodes_view(old(out)@) + find_in_content(*c, pos));
                }
            } else {
                proof {
                    assert(nodes_view(out@) + find_in_content(*c, pos) =~= nodes_view(out@));
                }
            }
        },
        BibtexContent::BracedContent(b) => {
            if range_has(braced_range_x(b), pos) {
                let n = BibtexNode::BracedContent(b);
                proof {
                    assert(nodes_view(out@.push(n)) =~= nodes_view(out@).push(node_view(n)));
                }
                out.push(n);
                visit_token(&b.left, pos, out);
                let ghost base = out@;
                let m = b.children.len();
                let mut i: usize = 0;
                proof {
                    assert(nodes_view(base) + find_in_contents(b.children@.take(0), pos)
                        =~= nodes_view(base));
                }
                while i < m
                    invariant
                        m == b.children@.len(),
                        0 <= i <= m,
                        *c == BibtexContent::BracedContent(*b),
                        nodes_view(out@) == nodes_view(base)
                            + find_in_contents(b.children@.take(i as int), pos),
                    decreases m - i,
                {
                    proof {
                        assert(decreases_to!(*c => (*c)->BracedContent_0));
                        assert(decreases_to!(*b => b.children@[i as int]));
                    }
                    visit_content(&b.children[i], pos, out);
                    proof {
                        assert(b.children@.take(i as int + 1).drop_last() =~= b.children@.take(i as int));
                        assert(b.children@.take(i as int + 1).last() == b.children@[i as int]);
                        assert(nodes_view(out@) =~= nodes_view(base)
                            + find_in_contents(b.children@.take(i as int + 1), pos));
                    }
                    i = i + 1;
                }
                proof {
                    assert(b.children@.take(m as int) =~= b.children@);
                }
                visit_opt_token(&b.right, pos, out);
                proof {
                    assert(nodes_view(out@)
                        =~= nodes_view(old(out)@) + find_in_content(*c, pos));
                }
            } else {
                proof {
                    assert(nodes_view(out@) + find_in_content(*c, pos) =~= nodes_view(out@));
                }
            }
        },
        BibtexContent::Concat(cc) => {
            if range_has(concat_range_x(cc), pos) {
                let n = BibtexNode::Concat(cc);
                proof {
                    assert(nodes_view(out@.push(n)) =~= nodes_view(out@).push(node_view(n)));
                }
                out.push(n);
                visit_content(&cc.left, pos, out);
                visit_token(&cc.operator, pos, out);
                match &cc.right {
                    Option::Some(r) => {
                        visit_content(r, pos, out);
                        proof {
                            assert(nodes_view(out@)
                                =~= nodes_view(old(out)@) + find_in_content(*c, pos));
                        }
                    },
                    Option::None => {
                        proof {
                            assert(nodes_view(out@)
                                =~= nodes_view(old(out)@) + find_in_content(*c, pos));
                        }
                    },
                }
            } else {
                proof {
                    assert(nodes_view(out@) + find_in_content(*c, pos) =~= nodes_view(out@));
                }
            }
        },
    }
}

fn visit_field<'a>(f: &'a BibtexField, pos: Position, out: &mut Vec<BibtexNode<'a>>)
    ensures
        nodes_view(final(out)@) == nodes_view(old(out)@) + find_in_field(*f, pos),
{
    if range_has(field_range_x(f), pos) {
        let n = BibtexNode::Field(f);
        proof {
            assert(nodes_view(out@.push(n)) =~= nodes_view(out@).push(node_view(n)));
        }
        out.push(n);
        visit_token(&f.name, pos, out);
        visit_opt_token(&f.assign, pos, out);
        match &f.content {
            Option::Some(c) => {
                visit_content(c, pos, out);
            },
            Option::None => {
            },
        }
        visit_opt_token(&f.comma, pos, out);
        proof {
            assert(nodes_view(out@) =~= nodes_view(old(out)@) + find_in_field(*f, pos));
        }
    } else {
        proof {
            assert(nodes_view(out@) + find_in_field(*f, pos) =~= nodes_view(out@));
        }
    }
}

fn visit_preamble<'a>(p: &'a BibtexPreamble, pos: Position, out: &mut Vec<BibtexNode<'a>>)
    ensures
        nodes_view(final(out)@) == nodes_view(old(out)@) + find_in_preamble(*p, pos),
{
    if range_has(preamble_range_x(p), pos) {
        let n = BibtexNode::Preamble(p);
        proof {
            assert(nodes_view(out@.push(n)) =~= nodes_view(out@).push(node_view(n)));
        }
        out.push(n);
        visit_token(&p.ty, pos, out);
        visit_opt_token(&p.left, pos, out);
        match &p.content {
            Option::Some(c) => {
                visit_content(c, pos, out);
            },
            Option::None => {
            },
        }
        visit_opt_token(&p.right, pos, out);
        proof {
            assert(nodes_view(out@) =~= nodes_view(old(out)@) + find_in_preamble(*p, pos));
        }
    } else {
        proof {
            assert(nodes_view(out@) + find_in_preamble(*p, pos) =~= nodes_view(out@));
        }
    }
}

fn visit_string<'a>(s: &'a BibtexString, pos: Position, out: &mut Vec<BibtexNode<'a>>)
    ensures
        nodes_view(final(out)@) == nodes_view(old(out)@) + find_in_string(*s, pos),
{
    if range_has(string_range_x(s), pos) {
        let n = BibtexNode::Str(s);
        proof {
            assert(nodes_view(out@.push(n)) =~= nodes_view(out@).push(node_view(n)));
        }
        out.push(n);
        visit_token(&s.ty, pos, out);
        visit_opt_token(&s.left, pos, out);
        visit_opt_token(&s.name, pos, out);
        visit_opt_token(&s.assign, pos, out);
        match &s.value {
            Option::Some(c) => {
                visit_content(c, pos, out);
            },
            Option::None => {
            },
        }
        visit_opt_token(&s.right, pos, out);
        proof {
            assert(nodes_view(out@) =~= nodes_view(old(out)@) + find_in_string(*s, pos));
        }
    } else {
        proof {
            assert(nodes_view(out@) + find_in_string(*s, pos) =~= nodes_view(out@));
        }
    }
}

#[verifier::rlimit(100)]
fn visit_entry<'a>(e: &'a BibtexEntry, pos: Position, out: &mut Vec<BibtexNode<'a>>)
    ensures
        nodes_view(final(out)@) == nodes_view(old(out)@) + find_in_entry(*e, pos),
{
    if range_has(entry_range_x(e), pos) {
        let n = BibtexNode::Entry(e);
        proof {
            assert(nodes_view(out@.push(n)) =~= nodes_view(out@).push(node_view(n)));
        }
        out.push(n);
        visit_token(&e.ty, pos, out);
        visit_opt_token(&e.left, pos, out);
        visit_opt_token(&e.key, pos, out);
        visit_opt_token(&e.comma, pos, out);
        let ghost base = out@;
        let m = e.fields.len();
        let mut i: usize = 0;
        proof {
            assert(nodes_view(base) + find_in_fields(e.fields@.take(0), pos)
                =~= nodes_view(base));
        }
        while i < m
            invariant
                m == e.fields@.len(),
                0 <= i <= m,
                nodes_view(out@) == nodes_view(base)
                    + find_in_fields(e.fields@.take(i as int), pos),
            decreases m - i,
        {
            visit_field(&e.fields[i], pos, out);
            proof {
                assert(e.fields@.take(i as int + 1).drop_last() =~= e.fields@.take(i as int));
                assert(e.fields@.take(i as int + 1).last() == e.fields@[i as int]);
                assert(nodes_view(out@) =~= nodes_view(base)
                    + find_in_fields(e.fields@.take(i as int + 1), pos));
            }
            i = i + 1;
        }
        proof {
            assert(e.fields@.take(m as int) =~= e.fields@);
        }
        visit_opt_token(&e.right, pos, out);
        proof {
            assert(nodes_view(out@) =~= nodes_view(old(out)@) + find_in_entry(*e, pos));
        }
    } else {
        proof {
            assert(nodes_view(out@) + find_in_entry(*e, pos) =~= nodes_view(out@));
        }
    }
}

fn visit_decl<'a>(d: &'a BibtexDeclaration, pos: Position, out: &mut Vec<BibtexNode<'a>>)
    ensures
        nodes_view(final(out)@) == nodes_view(old(out)@) + find_in_decl(*d, pos),
{
    match d {
        BibtexDeclaration::Preamble(p) => visit_preamble(p, pos, out),
        BibtexDeclaration::Str(s) => visit_string(s, pos, out),
        BibtexDeclaration::Entry(e) => visit_entry(e, pos, out),
    }
}

impl BibtexSyntaxTree {
    /// The stack of nodes around `position`: exactly `find_in_root`, the
    /// recursive descent that appends a node whenever its range contains the
    /// position — root first, innermost last, stopping at the last ancestor
    /// that contains a position lying in whitespace covered by no child, and
    /// empty for a position outside the document's range.
    pub fn find(&self, position: Position) -> (r: Vec<BibtexNode>)
        ensures
            nodes_view(r@) == find_in_root(self.root, position),
            forall|k: int| 0 <= k < r@.len() ==> range_contains(node_range(r@[k]), position),
            r@.len() > 0 ==> r@[0] matches BibtexNode::Root(_),
            r@.len() > 0 <==> range_contains(root_range(self.root), position),
    {
        let mut out: Vec<BibtexNode> = Vec::new();
        let root_r = if self.root.children.len() == 0 {
            Range {
                start: Position { line: 0, character: 0 },
                end: Position { line: 0, character: 0 },
            }
        } else {
            let start = {
                let d0: &BibtexDeclaration = &self.root.children[0];
                match d0 {
                    BibtexDeclaration::Preamble(p) => preamble_range_x(p).start,
                    BibtexDeclaration::Str(s) => string_range_x(s).start,
                    BibtexDeclaration::Entry(e) => entry_range_x(e).start,
                }
            };
            let end = {
                let dl: &BibtexDeclaration = &self.root.children[self.root.children.len() - 1];
                match dl {
                    BibtexDeclaration::Preamble(p) => preamble_range_x(p).end,
                    BibtexDeclaration::Str(s) => string_range_x(s).end,
                    BibtexDeclaration::Entry(e) => entry_range_x(e).end,
                }
            };
            Range { start, end }
        };
        proof {
            assert(root_r == root_range(self.root));
        }
        if range_has(root_r, position) {
            let n = BibtexNode::Root(&self.root);
            proof {
                assert(nodes_view(out@.push(n)) =~= nodes_view(out@).push(node_view(n)));
            }
            out.push(n);
            let ghost base = out@;
            let m = self.root.children.len();
            let mut i: usize = 0;
            proof {
                assert(nodes_view(base) + find_in_decls(self.root.children@.take(0), position)
                    =~= nodes_view(base));
            }
            while i < m
                invariant
                    m == self.root.children@.len(),
                    0 <= i <= m,
                    nodes_view(out@) == nodes_view(base)
                        + find_in_decls(self.root.children@.take(i as int), position),
                decreases m - i,
            {
                visit_decl(&self.root.children[i], position, &mut out);
                proof {
                    assert(self.root.children@.take(i as int + 1).drop_last()
                        =~= self.root.children@.take(i as int));
                    assert(self.root.children@.take(i as int + 1).last()
                        == self.root.children@[i as int]);
                    assert(nodes_view(out@) =~= nodes_view(base)
                        + find_in_decls(self.root.children@.take(i as int + 1), position));
                }
                i = i + 1;
            }
            proof {
                assert(self.root.children@.take(m as int) =~= self.root.children@);
                assert(nodes_view(out@) =~= find_in_root(self.root, position));
            }
        } else {
            proof {
                assert(nodes_view(out@) =~= find_in_root(self.root, position));
            }
        }
        proof {
            lemma_find_in_root_contains(self.root, position);
            assert forall|k: int| 0 <= k < out@.len()
                implies range_contains(node_range(out@[k]), position) by {
                assert(node_view(out@[k]) == find_in_root(self.root, position)[k]);
            }
            if out@.len() > 0 {
                assert(node_view(out@[0]) == FoundNode::Root(self.root));
                assert(out@[0] matches BibtexNode::Root(_)) by {
                    match out@[0] {
                        BibtexNode::Root(_) => {
                        },
                        _ => {
                            assert(false);
                        },
                    }
                }
            }
        }
        out
    }
}

} // verus!
