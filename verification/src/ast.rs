//! The concrete syntax tree: tokens, declarations, entries, fields and
//! content nodes, each retaining its source range.
//!
//! Every executable node type has a mathematical model (`...Model`) built from
//! `Seq` and `int`, and a view function mapping the node to its model. All
//! contracts in this crate speak about those models, so two trees are
//! interchangeable exactly when their models agree.

use vstd::prelude::*;

use crate::text::{Range, SpanModel, range_view};

verus! {

#[derive(Debug, Clone, Copy, PartialEq, Eq, Structural)]
pub enum BibtexTokenKind {
    PreambleType,
    StringType,
    CommentType,
    EntryType,
    Word,
    Command,
    Assign,
    Comma,
    Concat,
    Quote,
    BeginBrace,
    EndBrace,
    BeginParen,
    EndParen,
    Unknown,
}

#[derive(Debug, PartialEq, Eq)]
pub struct BibtexToken {
    pub span: Range,
    pub text: String,
    pub kind: BibtexTokenKind,
}

/// Model of a token: its classified kind, its characters and its range.
#[verifier::ext_equal]
pub struct TokenModel {
    pub kind: BibtexTokenKind,
    pub text: Seq<char>,
    pub span: SpanModel,
}

pub open spec fn token_view(t: BibtexToken) -> TokenModel {
    TokenModel { kind: t.kind, text: t.text@, span: range_view(t.span) }
}

pub open spec fn opt_token_view(t: Option<BibtexToken>) -> Option<TokenModel> {
    match t {
        Option::Some(tok) => Option::Some(token_view(tok)),
        Option::None => Option::None,
    }
}

impl BibtexToken {
    pub fn text(&self) -> (s: &str)
        ensures
            s@ == self.text@,
    {
        self.text.as_str()
    }
}

#[derive(Debug, PartialEq, Eq)]
pub enum BibtexContent {
    Word(BibtexWord),
    Command(BibtexCommand),
    QuotedContent(BibtexQuotedContent),
    BracedContent(BibtexBracedContent),
    Concat(Box<BibtexConcat>),
}

#[derive(Debug, PartialEq, Eq)]
pub struct BibtexWord {
    pub token: BibtexToken,
}

#[derive(Debug, PartialEq, Eq)]
pub struct BibtexCommand {
    pub token: BibtexToken,
}

#[derive(Debug, PartialEq, Eq)]
pub struct BibtexQuotedContent {
    pub left: BibtexToken,
    pub children: Vec<BibtexContent>,
    pub right: Option<BibtexToken>,
}

#[derive(Debug, PartialEq, Eq)]
pub struct BibtexBracedContent {
    pub left: BibtexToken,
    pub children: Vec<BibtexContent>,
    pub right: Option<BibtexToken>,
}

#[derive(Debug, PartialEq, Eq)]
pub struct BibtexConcat {
    pub left: BibtexContent,
    pub operator: BibtexToken,
    pub right: Option<BibtexContent>,
}

/// Model of a content node. A concatenation carries its parts as a sequence
/// of one (no right operand was parsed) or two elements.
#[verifier::ext_equal]
pub enum ContentModel {
    Word { token: TokenModel },
    Command { token: TokenModel },
    Quoted { left: TokenModel, children: Seq<ContentModel>, right: Option<TokenModel> },
    Braced { left: TokenModel, children: Seq<ContentModel>, right: Option<TokenModel> },
    Concat { parts: Seq<ContentModel>, op: TokenModel },
}

pub open spec fn content_view(c: BibtexContent) -> ContentModel
    decreases c,
{
    match c {
        BibtexContent::Word(w) => ContentModel::Word { token: token_view(w.token) },
        BibtexContent::Command(w) => ContentModel::Command { token: token_view(w.token) },
        BibtexContent::QuotedContent(q) => ContentModel::Quoted {
            left: token_view(q.left),
            children: contents_view(q.children@),
            right: opt_token_view(q.right),
        },
        BibtexContent::BracedContent(b) => ContentModel::Braced {
            left: token_view(b.left),
            children: contents_view(b.children@),
            right: opt_token_view(b.right),
        },
        BibtexContent::Concat(c2) => ContentModel::Concat {
            parts: match c2.right {
                Option::Some(r) => seq![content_view(c2.left), content_view(r)],
                Option::None => seq![content_view(c2.left)],
            },
            op: token_view(c2.operator),
        },
    }
}

pub open spec fn contents_view(s: Seq<BibtexContent>) -> Seq<ContentModel>
    decreases s,
{
    if s.len() == 0 {
        Seq::empty()
    } else {
        contents_view(s.drop_last()).push(content_view(s.last()))
    }
}

pub open spec fn opt_content_view(c: Option<BibtexContent>) -> Option<ContentModel> {
    match c {
        Option::Some(x) => Option::Some(content_view(x)),
        Option::None => Option::None,
    }
}

#[derive(Debug, PartialEq, Eq)]
pub struct BibtexField {
    pub name: BibtexToken,
    pub assign: Option<BibtexToken>,
    pub content: Option<BibtexContent>,
    pub comma: Option<BibtexToken>,
}

#[verifier::ext_equal]
pub struct FieldModel {
    pub name: TokenModel,
    pub assign: Option<TokenModel>,
    pub content: Option<ContentModel>,
    pub comma: Option<TokenModel>,
}

pub open spec fn field_view(f: BibtexField) -> FieldModel {
    FieldModel {
        name: token_view(f.name),
        assign: opt_token_view(f.assign),
        content: opt_content_view(f.content),
        comma: opt_token_view(f.comma),
    }
}

pub open spec fn fields_view(s: Seq<BibtexField>) -> Seq<FieldModel> {
    s.map_values(|f: BibtexField| field_view(f))
}

#[derive(Debug, PartialEq, Eq)]
pub struct BibtexPreamble {
    pub ty: BibtexToken,
    pub left: Option<BibtexToken>,
    pub content: Option<BibtexContent>,
    pub right: Option<BibtexToken>,
}

#[verifier::ext_equal]
pub struct PreambleModel {
    pub ty: TokenModel,
    pub left: Option<TokenModel>,
    pub content: Option<ContentModel>,
    pub right: Option<TokenModel>,
}

pub open spec fn preamble_view(p: BibtexPreamble) -> PreambleModel {
    PreambleModel {
        ty: token_view(p.ty),
        left: opt_token_view(p.left),
        content: opt_content_view(p.content),
        right: opt_token_view(p.right),
    }
}

#[derive(Debug, PartialEq, Eq)]
pub struct BibtexString {
    pub ty: BibtexToken,
    pub left: Option<BibtexToken>,
    pub name: Option<BibtexToken>,
    pub assign: Option<BibtexToken>,
    pub value: Option<BibtexContent>,
    pub right: Option<BibtexToken>,
}

#[verifier::ext_equal]
pub struct StringModel {
    pub ty: TokenModel,
    pub left: Option<TokenModel>,
    pub name: Option<TokenModel>,
    pub assign: Option<TokenModel>,
    pub value: Option<ContentModel>,
    pub right: Option<TokenModel>,
}

pub open spec fn string_view(s: BibtexString) -> StringModel {
    StringModel {
        ty: token_view(s.ty),
        left: opt_token_view(s.left),
        name: opt_token_view(s.name),
        assign: opt_token_view(s.assign),
        value: opt_content_view(s.value),
        right: opt_token_view(s.right),
    }
}

#[derive(Debug, PartialEq, Eq)]
pub struct BibtexEntry {
    pub ty: BibtexToken,
    pub left: Option<BibtexToken>,
    pub key: Option<BibtexToken>,
    pub comma: Option<BibtexToken>,
    pub fields: Vec<BibtexField>,
    pub right: Option<BibtexToken>,
}

#[verifier::ext_equal]
pub struct EntryModel {
    pub ty: TokenModel,
    pub left: Option<TokenModel>,
    pub key: Option<TokenModel>,
    pub comma: Option<TokenModel>,
    pub fields: Seq<FieldModel>,
    pub right: Option<TokenModel>,
}

pub open spec fn entry_view(e: BibtexEntry) -> EntryModel {
    EntryModel {
        ty: token_view(e.ty),
        left: opt_token_view(e.left),
        key: opt_token_view(e.key),
        comma: opt_token_view(e.comma),
        fields: fields_view(e.fields@),
        right: opt_token_view(e.right),
    }
}

#[derive(Debug, PartialEq, Eq)]
pub enum BibtexDeclaration {
    Preamble(BibtexPreamble),
    Str(BibtexString),
    Entry(BibtexEntry),
}

#[verifier::ext_equal]
pub enum DeclModel {
    Preamble(PreambleModel),
    Str(StringModel),
    Entry(EntryModel),
}

pub open spec fn decl_view(d: BibtexDeclaration) -> DeclModel {
    match d {
        BibtexDeclaration::Preamble(p) => DeclModel::Preamble(preamble_view(p)),
        BibtexDeclaration::Str(s) => DeclModel::Str(string_view(s)),
        BibtexDeclaration::Entry(e) => DeclModel::Entry(entry_view(e)),
    }
}

pub open spec fn decls_view(s: Seq<BibtexDeclaration>) -> Seq<DeclModel> {
    s.map_values(|d: BibtexDeclaration| decl_view(d))
}

#[derive(Debug, PartialEq, Eq)]
pub struct BibtexRoot {
    pub children: Vec<BibtexDeclaration>,
}

#[verifier::ext_equal]
pub struct RootModel {
    pub children: Seq<DeclModel>,
}

pub open spec fn root_view(r: BibtexRoot) -> RootModel {
    RootModel { children: decls_view(r.children@) }
}

/// Pushing a node onto a content list extends the list's model by the node's
/// model.
pub proof fn lemma_contents_view_push(s: Seq<BibtexContent>, c: BibtexContent)
    ensures
        contents_view(s.push(c)) == contents_view(s).push(content_view(c)),
{
    assert(s.push(c).drop_last() =~= s);
    assert(s.push(c).last() == c);
}

pub proof fn lemma_contents_view_len(s: Seq<BibtexContent>)
    ensures
        contents_view(s).len() == s.len(),
    decreases s,
{
    if s.len() > 0 {
        lemma_contents_view_len(s.drop_last());
    }
}

pub proof fn lemma_contents_view_index(s: Seq<BibtexContent>, i: int)
    requires
        0 <= i < s.len(),
    ensures
        contents_view(s).len() == s.len(),
        contents_view(s)[i] == content_view(s[i]),
    decreases s,
{
    lemma_contents_view_len(s);
    if i < s.len() - 1 {
        lemma_contents_view_index(s.drop_last(), i);
    }
}

/// The first field in a field list whose name token carries exactly `name`.
pub open spec fn spec_field(fields: Seq<FieldModel>, name: Seq<char>) -> Option<FieldModel>
    decreases fields,
{
    if fields.len() == 0 {
        Option::None
    } else if fields.first().name.text == name {
        Option::Some(fields.first())
    } else {
        spec_field(fields.drop_first(), name)
    }
}

impl BibtexEntry {
    /// The first field of the entry carrying exactly the given name, if any.
    pub fn field(&self, name: &str) -> (r: Option<&BibtexField>)
        ensures
            match r {
                Option::Some(f) => spec_field(fields_view(self.fields@), name@)
                    == Option::Some(field_view(*f)),
                Option::None => spec_field(fields_view(self.fields@), name@) is None,
            },
    {
        let ghost fv = fields_view(self.fields@);
        let n = self.fields.len();
        let mut i: usize = 0;
        proof {
            assert(fv.skip(0) =~= fv);
        }
        while i < n
            invariant
                0 <= i <= n,
                n == self.fields@.len(),
                fv == fields_view(self.fields@),
                spec_field(fv, name@) == spec_field(fv.skip(i as int), name@),
            decreases n - i,
        {
            proof {
                assert(fv.skip(i as int).drop_first() =~= fv.skip(i as int + 1));
                assert(fv.skip(i as int).first() == fv[i as int]);
            }
            if crate::lexer::str_eq(self.fields[i].name.text(), name) {
                return Option::Some(&self.fields[i]);
            }
            i = i + 1;
        }
        proof {
            assert(fv.skip(n as int) =~= Seq::<FieldModel>::empty());
        }
        Option::None
    }
}

} // verus!
