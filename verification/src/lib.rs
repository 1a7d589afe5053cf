//! An error-tolerant syntax engine for BibTeX bibliography databases.
//!
//! The crate turns raw document text into an immutable concrete syntax tree
//! and answers structural questions about it: a lexer that covers every
//! character of input, a recursive-descent parser that never fails and
//! produces partial nodes for malformed source, a position-indexed node
//! finder, semantic queries (entry lookup by key, `crossref` chasing), and a
//! structure-aware formatter that re-serialises the tree under a configurable
//! line width.
//!
//! Lexing and parsing are total: every input text, well-formed or not, yields
//! a tree. Both are specified by spec functions of the input alone, so
//! building a tree twice from the same text provably yields the same tree.

use vstd::prelude::*;

pub mod ast;
pub mod finder;
pub mod formatting;
pub mod lexer;
pub mod parser;
pub mod text;

use crate::ast::{
    BibtexRoot, root_view,
    BibtexPreamble, PreambleModel, preamble_view,
    BibtexString, StringModel, string_view,
    BibtexEntry, EntryModel, entry_view,
    BibtexDeclaration, DeclModel, BibtexContent,
    ContentModel, spec_field,
    lemma_contents_view_len, lemma_contents_view_index,
};
use crate::parser::spec_tree_of;
use crate::lexer::str_eq;

verus! {

/// The first preamble models in document order.
pub open spec fn spec_preambles(s: Seq<DeclModel>) -> Seq<PreambleModel>
    decreases s,
{
    if s.len() == 0 {
        Seq::empty()
    } else {
        spec_preambles(s.drop_last()) + (match s.last() {
            DeclModel::Preamble(p) => seq![p],
            _ => Seq::empty(),
        })
    }
}

/// The string-macro models in document order.
pub open spec fn spec_strings(s: Seq<DeclModel>) -> Seq<StringModel>
    decreases s,
{
    if s.len() == 0 {
        Seq::empty()
    } else {
        spec_strings(s.drop_last()) + (match s.last() {
            DeclModel::Str(m) => seq![m],
            _ => Seq::empty(),
        })
    }
}

/// The entry models in document order.
pub open spec fn spec_entries(s: Seq<DeclModel>) -> Seq<EntryModel>
    decreases s,
{
    if s.len() == 0 {
        Seq::empty()
    } else {
        spec_entries(s.drop_last()) + (match s.last() {
            DeclModel::Entry(e) => seq![e],
            _ => Seq::empty(),
        })
    }
}

/// Whether a declaration is an entry whose key token carries exactly `key`.
pub open spec fn decl_has_key(d: DeclModel, key: Seq<char>) -> bool {
    match d {
        DeclModel::Entry(e) => match e.key {
            Option::Some(k) => k.text == key,
            Option::None => false,
        },
        _ => false,
    }
}

/// The first entry in document order whose key is exactly `key`.
pub open spec fn spec_entry_lookup(s: Seq<DeclModel>, key: Seq<char>) -> Option<EntryModel>
    decreases s,
{
    if s.len() == 0 {
        Option::None
    } else if decl_has_key(s.first(), key) {
        match s.first() {
            DeclModel::Entry(e) => Option::Some(e),
            _ => Option::None,
        }
    } else {
        spec_entry_lookup(s.drop_first(), key)
    }
}

/// The key referenced by an entry's `crossref` field: present exactly when
/// the first field named `crossref` holds a braced group with a single word
/// child; the key is that word's text.
pub open spec fn spec_crossref_key(e: EntryModel) -> Option<Seq<char>> {
    match spec_field(e.fields, "crossref"@) {
        Option::Some(f) => match f.content {
            Option::Some(c) => match c {
                ContentModel::Braced { left, children, right } => {
                    if children.len() == 1 {
                        match children[0] {
                            ContentModel::Word { token } => Option::Some(token.text),
                            _ => Option::None,
                        }
                    } else {
                        Option::None
                    }
                },
                _ => Option::None,
            },
            Option::None => Option::None,
        },
        Option::None => Option::None,
    }
}

/// Single-hop crossref resolution: the first entry whose key equals the key
/// referenced by `e`'s `crossref` field, if both exist.
pub open spec fn spec_crossref(s: Seq<DeclModel>, e: EntryModel) -> Option<EntryModel> {
    match spec_crossref_key(e) {
        Option::Some(k) => spec_entry_lookup(s, k),
        Option::None => Option::None,
    }
}

#[derive(Debug, PartialEq, Eq)]
pub struct BibtexSyntaxTree {
    pub root: BibtexRoot,
}

impl BibtexSyntaxTree {
    /// Build the tree for a document. Total: any text, including empty,
    /// unterminated or binary input, yields a root. The result is pinned to
    /// `spec_tree_of(text)`, a function of the text alone, so parsing is
    /// deterministic.
    pub fn from_text(text: &str) -> (tree: BibtexSyntaxTree)
        ensures
            root_view(tree.root) == spec_tree_of(text@),
    {
        let tokens = crate::lexer::tokenize(text);
        let root = crate::parser::parse_tokens(&tokens);
        BibtexSyntaxTree { root }
    }

    pub open spec fn decls(&self) -> Seq<DeclModel> {
        root_view(self.root).children
    }

    /// All `@preamble` declarations, in document order.
    pub fn preambles(&self) -> (r: Vec<&BibtexPreamble>)
        ensures
            r@.map_values(|p: &BibtexPreamble| preamble_view(*p)) == spec_preambles(self.decls()),
    {
        let ghost dv = self.decls();
        let mut out: Vec<&BibtexPreamble> = Vec::new();
        let n = self.root.children.len();
        let mut i: usize = 0;
        while i < n
            invariant
                0 <= i <= n,
                n == self.root.children@.len(),
                dv == self.decls(),
                out@.map_values(|p: &BibtexPreamble| preamble_view(*p)) =~= spec_preambles(dv.take(i as int)),
            decreases n - i,
        {
            proof {
                assert(dv.take(i as int + 1).drop_last() =~= dv.take(i as int));
                assert(dv.take(i as int + 1).last() == dv[i as int]);
            }
            if let BibtexDeclaration::Preamble(p) = &self.root.children[i] {
                out.push(p);
            }
            i = i + 1;
        }
        proof {
            assert(dv.take(n as int) =~= dv);
        }
        out
    }

    /// All `@string` declarations, in document order.
    pub fn strings(&self) -> (r: Vec<&BibtexString>)
        ensures
            r@.map_values(|p: &BibtexString| string_view(*p)) == spec_strings(self.decls()),
    {
        let ghost dv = self.decls();
        let mut out: Vec<&BibtexString> = Vec::new();
        let n = self.root.children.len();
        let mut i: usize = 0;
        while i < n
            invariant
                0 <= i <= n,
                n == self.root.children@.len(),
                dv == self.decls(),
                out@.map_values(|p: &BibtexString| string_view(*p)) =~= spec_strings(dv.take(i as int)),
            decreases n - i,
        {
            proof {
                assert(dv.take(i as int + 1).drop_last() =~= dv.take(i as int));
                assert(dv.take(i as int + 1).last() == dv[i as int]);
            }
            if let BibtexDeclaration::Str(s) = &self.root.children[i] {
                out.push(s);
            }
            i = i + 1;
        }
        proof {
            assert(dv.take(n as int) =~= dv);
        }
        out
    }

    /// All entries, in document order. An entry with no key is still listed.
    pub fn entries(&self) -> (r: Vec<&BibtexEntry>)
        ensures
            r@.map_values(|p: &BibtexEntry| entry_view(*p)) == spec_entries(self.decls()),
    {
        let ghost dv = self.decls();
        let mut out: Vec<&BibtexEntry> = Vec::new();
        let n = self.root.children.len();
        let mut i: usize = 0;
        while i < n
            invariant
                0 <= i <= n,
                n == self.root.children@.len(),
                dv == self.decls(),
                out@.map_values(|p: &BibtexEntry| entry_view(*p)) =~= spec_entries(dv.take(i as int)),
            decreases n - i,
        {
            proof {
                assert(dv.take(i as int + 1).drop_last() =~= dv.take(i as int));
                assert(dv.take(i as int + 1).last() == dv[i as int]);
            }
            if let BibtexDeclaration::Entry(e) = &self.root.children[i] {
                out.push(e);
            }
            i = i + 1;
        }
        proof {
            assert(dv.take(n as int) =~= dv);
        }
        out
    }

    /// The first entry in document order whose key token's text equals `key`,
    /// compared exactly and case-sensitively; absent when no entry matches.
    pub fn entry(&self, key: &str) -> (r: Option<&BibtexEntry>)
        ensures
            match r {
                Option::Some(e) => spec_entry_lookup(self.decls(), key@) == Option::Some(entry_view(*e)),
                Option::None => spec_entry_lookup(self.decls(), key@) is None,
            },
    {
        let ghost dv = self.decls();
        let n = self.root.children.len();
        let mut i: usize = 0;
        proof {
            assert(dv.skip(0) =~= dv);
        }
        while i < n
            invariant
                0 <= i <= n,
                n == self.root.children@.len(),
                dv == self.decls(),
                spec_entry_lookup(dv, key@) == spec_entry_lookup(dv.skip(i as int), key@),
            decreases n - i,
        {
            proof {
                assert(dv.skip(i as int).drop_first() =~= dv.skip(i as int + 1));
                assert(dv.skip(i as int).first() == dv[i as int]);
            }
            if let BibtexDeclaration::Entry(e) = &self.root.children[i] {
                if let Option::Some(k) = &e.key {
                    if str_eq(k.text(), key) {
                        return Option::Some(e);
                    }
                }
            }
            i = i + 1;
        }
        proof {
            assert(dv.skip(n as int) =~= Seq::<DeclModel>::empty());
        }
        Option::None
    }

    /// Single-hop crossref resolution. Present exactly when `entry`'s first
    /// `crossref` field holds a braced group with a single word child and
    /// some entry's key equals that word; the result is then the first such
    /// entry. Never fails: any shape mismatch yields absence.
    pub fn crossref(&self, entry: &BibtexEntry) -> (r: Option<&BibtexEntry>)
        ensures
            match r {
                Option::Some(e) => spec_crossref(self.decls(), entry_view(*entry))
                    == Option::Some(entry_view(*e)),
                Option::None => spec_crossref(self.decls(), entry_view(*entry)) is None,
            },
    {
        match entry.field("crossref") {
            Option::None => Option::None,
            Option::Some(f) => match &f.content {
                Option::Some(BibtexContent::BracedContent(content)) => {
                    proof {
                        lemma_contents_view_len(content.children@);
                        if content.children@.len() >= 1 {
                            lemma_contents_view_index(content.children@, 0);
                        }
                    }
                    if content.children.len() == 1 {
                        match &content.children[0] {
                            BibtexContent::Word(name) => self.entry(name.token.text()),
                            _ => Option::None,
                        }
                    } else {
                        Option::None
                    }
                },
                _ => Option::None,
            },
        }
    }
}

/// Determinism of parsing: the tree is a function of the text alone, so two
/// parses of equal text yield structurally equal trees.
pub proof fn lemma_parse_deterministic(a: Seq<char>, b: Seq<char>)
    requires
        a == b,
    ensures
        spec_tree_of(a) == spec_tree_of(b),
{
}

} // verus!
