//! The formatter: canonical re-serialisation of a tree under a configurable
//! maximum line width.
//!
//! The output layout is regenerated from structure alone: each declaration is
//! emitted with a canonical header, one `name = value,` field per line with a
//! trailing comma, and the closing brace on its own line. Field values are
//! flattened to a sequence of atoms (words, commands, delimiters); when a
//! nonzero `line_length` would be exceeded, the line breaks before the next
//! atom at a point where a space is allowed, and the value continues on an
//! indented line. A `line_length` of zero disables wrapping entirely.
//!
//! Formatting always produces exactly one edit that replaces the whole
//! original document. The replacement text is pinned to `fmt_root`, a
//! function of the tree and the options alone.

use vstd::prelude::*;

use crate::text::{Position, PosModel, Range, pos_view};
use crate::ast::{
    BibtexTokenKind,
    BibtexContent, ContentModel, content_view, contents_view,
    FieldModel, DeclModel, root_view,
};
use crate::lexer::{lower_seq, lower_char, pos_step};
use crate::BibtexSyntaxTree;

verus! {

/// One indivisible piece of a rendered field value. `glue_left` forbids a
/// space (and hence a line break) before the atom, `glue_right` after it.
pub struct Atom {
    pub text: String,
    pub glue_left: bool,
    pub glue_right: bool,
}

#[verifier::ext_equal]
pub struct AtomModel {
    pub text: Seq<char>,
    pub glue_left: bool,
    pub glue_right: bool,
}

pub open spec fn atom_view(a: Atom) -> AtomModel {
    AtomModel { text: a.text@, glue_left: a.glue_left, glue_right: a.glue_right }
}

pub open spec fn atoms_view(s: Seq<Atom>) -> Seq<AtomModel> {
    s.map_values(|a: Atom| atom_view(a))
}

/// No space before a leaf token of this kind.
pub open spec fn leaf_glue_left(k: BibtexTokenKind) -> bool {
    k == BibtexTokenKind::Comma || k == BibtexTokenKind::EndParen
}

/// No space after a leaf token of this kind.
pub open spec fn leaf_glue_right(k: BibtexTokenKind) -> bool {
    k == BibtexTokenKind::BeginParen
}

pub open spec fn mk_atom(text: Seq<char>, gl: bool, gr: bool) -> AtomModel {
    AtomModel { text: text, glue_left: gl, glue_right: gr }
}

/// The atoms of one content node.
pub open spec fn flatten_content(c: ContentModel) -> Seq<AtomModel>
    decreases c, 1int,
{
    match c {
        ContentModel::Word { token } => seq![
            mk_atom(token.text, leaf_glue_left(token.kind), leaf_glue_right(token.kind)),
        ],
        ContentModel::Command { token } => seq![mk_atom(token.text, false, false)],
        ContentModel::Quoted { left, children, right } => seq![mk_atom("\""@, false, true)]
            + flatten_list(children) + seq![mk_atom("\""@, true, false)],
        ContentModel::Braced { left, children, right } => seq![mk_atom("{"@, false, true)]
            + flatten_list(children) + seq![mk_atom("}"@, true, false)],
        ContentModel::Concat { parts, op } => {
            if parts.len() == 0 {
                seq![mk_atom("#"@, false, false)]
            } else if parts.len() == 1 {
                flatten_content(parts[0]) + seq![mk_atom("#"@, false, false)]
            } else {
                flatten_content(parts[0]) + seq![mk_atom("#"@, false, false)]
                    + flatten_content(parts[1])
            }
        },
    }
}

/// The atoms of a list of content nodes.
pub open spec fn flatten_list(cs: Seq<ContentModel>) -> Seq<AtomModel>
    decreases cs, 0int,
{
    if cs.len() == 0 {
        Seq::empty()
    } else {
        flatten_list(cs.drop_last()) + flatten_content(cs.last())
    }
}

pub open spec fn value_atoms(c: Option<ContentModel>) -> Seq<AtomModel> {
    match c {
        Option::Some(x) => flatten_content(x),
        Option::None => Seq::empty(),
    }
}

/// The continuation indent used after a wrapped line.
pub open spec fn cont_indent() -> Seq<char> {
    "        "@
}

/// Render atoms from index `k` onward. `col` is the current column,
/// `prev_glue` whether a space before the next atom is forbidden by the
/// previous one. Returns the rendered text and the final column. A break is
/// taken exactly where a space would go, the width limit is positive, and
/// the atom would not fit on the current line.
pub open spec fn emit_atoms(atoms: Seq<AtomModel>, k: int, col: int, limit: int, prev_glue: bool) -> (Seq<char>, int)
    decreases atoms.len() - k,
{
    if k < 0 || k >= atoms.len() {
        (Seq::empty(), col)
    } else {
        let a = atoms[k];
        let space = !prev_glue && !a.glue_left;
        let wrap = space && limit > 0 && col + 1 + a.text.len() > limit;
        if wrap {
            let c2 = cont_indent().len() + a.text.len();
            let (rest, cr) = emit_atoms(atoms, k + 1, c2 as int, limit, a.glue_right);
            (seq!['\n'] + cont_indent() + a.text + rest, cr)
        } else if space {
            let c2 = col + 1 + a.text.len();
            let (rest, cr) = emit_atoms(atoms, k + 1, c2 as int, limit, a.glue_right);
            (seq![' '] + a.text + rest, cr)
        } else {
            let c2 = col + a.text.len();
            let (rest, cr) = emit_atoms(atoms, k + 1, c2 as int, limit, a.glue_right);
            (a.text + rest, cr)
        }
    }
}

/// With `line_length` zero, wrapping is disabled: the rendered value does not
/// depend on the column where it starts.
pub proof fn lemma_zero_width_no_wrap(atoms: Seq<AtomModel>, k: int, col1: int, col2: int, prev_glue: bool)
    ensures
        emit_atoms(atoms, k, col1, 0, prev_glue).0 == emit_atoms(atoms, k, col2, 0, prev_glue).0,
    decreases atoms.len() - k,
{
    if 0 <= k < atoms.len() {
        let a = atoms[k];
        let space = !prev_glue && !a.glue_left;
        if space {
            lemma_zero_width_no_wrap(atoms, k + 1, col1 + 1 + a.text.len(), col2 + 1 + a.text.len(), a.glue_right);
        } else {
            lemma_zero_width_no_wrap(atoms, k + 1, col1 + a.text.len(), col2 + a.text.len(), a.glue_right);
        }
    }
}

/// The column reached after each atom of a rendering: the same recursion as
/// `emit_atoms`, keeping the column at which each atom ends instead of the
/// text. Lines advance only by these placements, so these columns are the
/// line widths the rendering reaches.
pub open spec fn emit_cols(atoms: Seq<AtomModel>, k: int, col: int, limit: int, prev_glue: bool) -> Seq<int>
    decreases atoms.len() - k,
{
    if k < 0 || k >= atoms.len() {
        Seq::empty()
    } else {
        let a = atoms[k];
        let space = !prev_glue && !a.glue_left;
        let wrap = space && limit > 0 && col + 1 + a.text.len() > limit;
        let c2 = if wrap {
            cont_indent().len() + a.text.len() as int
        } else if space {
            col + 1 + a.text.len()
        } else {
            col + a.text.len()
        };
        seq![c2] + emit_cols(atoms, k + 1, c2, limit, a.glue_right)
    }
}

proof fn lemma_emit_cols_len(atoms: Seq<AtomModel>, k: int, col: int, limit: int, prev_glue: bool)
    requires
        0 <= k <= atoms.len(),
    ensures
        emit_cols(atoms, k, col, limit, prev_glue).len() == atoms.len() - k,
    decreases atoms.len() - k,
{
    if k < atoms.len() {
        let a = atoms[k];
        let space = !prev_glue && !a.glue_left;
        let wrap = space && limit > 0 && col + 1 + a.text.len() > limit;
        let c2: int = if wrap {
            cont_indent().len() + a.text.len() as int
        } else if space {
            col + 1 + a.text.len()
        } else {
            col + a.text.len()
        };
        lemma_emit_cols_len(atoms, k + 1, c2, limit, a.glue_right);
    }
}

/// Whether a space — and with it a line break — is allowed before atom `a`
/// of a rendering that starts at atom `k` with `prev_glue` pending.
pub open spec fn break_allowed(atoms: Seq<AtomModel>, k: int, a: int, prev_glue: bool) -> bool {
    !(if a == k {
        prev_glue
    } else {
        atoms[a - 1].glue_right
    }) && !atoms[a].glue_left
}

/// The width policy of the formatter: with a positive width limit, wherever
/// a break is allowed before an atom, the line does not run past the limit
/// at that atom's end — unless the atom alone is too wide even for a fresh
/// continuation line, in which case the line is exactly a continuation
/// indent plus that one atom. A line can therefore exceed the limit only
/// across atoms before which no break is allowed (the glued delimiters of a
/// group): every physical line keeps to the width wherever a safe break
/// point exists.
pub proof fn lemma_width_policy(atoms: Seq<AtomModel>, k: int, col: int, limit: int, prev_glue: bool, a: int)
    requires
        0 < limit,
        0 <= k <= a < atoms.len(),
        break_allowed(atoms, k, a, prev_glue),
    ensures
        emit_cols(atoms, k, col, limit, prev_glue)[a - k]
            <= vstd::math::max(limit, cont_indent().len() + atoms[a].text.len() as int),
    decreases a - k,
{
    let a0 = atoms[k];
    let space = !prev_glue && !a0.glue_left;
    let wrap = space && limit > 0 && col + 1 + a0.text.len() > limit;
    let c2: int = if wrap {
        cont_indent().len() + a0.text.len() as int
    } else if space {
        col + 1 + a0.text.len()
    } else {
        col + a0.text.len()
    };
    if a == k {
        assert(space);
        assert(emit_cols(atoms, k, col, limit, prev_glue)[0] == c2);
    } else {
        lemma_width_policy(atoms, k + 1, c2, limit, a0.glue_right, a);
        lemma_emit_cols_len(atoms, k + 1, c2, limit, a0.glue_right);
        assert(break_allowed(atoms, k + 1, a, a0.glue_right));
        assert(emit_cols(atoms, k, col, limit, prev_glue)[a - k]
            == emit_cols(atoms, k + 1, c2, limit, a0.glue_right)[a - k - 1]);
    }
}

/// The column `emit_atoms` carries forward is the column its rendering
/// reaches: the last entry of `emit_cols`, or the starting column when
/// nothing is emitted.
pub proof fn lemma_emit_cols_last(atoms: Seq<AtomModel>, k: int, col: int, limit: int, prev_glue: bool)
    ensures
        0 <= k < atoms.len() ==> emit_atoms(atoms, k, col, limit, prev_glue).1
            == emit_cols(atoms, k, col, limit, prev_glue).last(),
        !(0 <= k < atoms.len()) ==> emit_atoms(atoms, k, col, limit, prev_glue).1 == col,
    decreases atoms.len() - k,
{
    if 0 <= k < atoms.len() {
        let a = atoms[k];
        let space = !prev_glue && !a.glue_left;
        let wrap = space && limit > 0 && col + 1 + a.text.len() > limit;
        let c2: int = if wrap {
            cont_indent().len() + a.text.len() as int
        } else if space {
            col + 1 + a.text.len()
        } else {
            col + a.text.len()
        };
        lemma_emit_cols_last(atoms, k + 1, c2, limit, a.glue_right);
        if k + 1 < atoms.len() {
            assert((seq![c2] + emit_cols(atoms, k + 1, c2, limit, a.glue_right)).last()
                == emit_cols(atoms, k + 1, c2, limit, a.glue_right).last());
        } else {
            assert(emit_cols(atoms, k + 1, c2, limit, a.glue_right) =~= Seq::<int>::empty());
            assert((seq![c2] + emit_cols(atoms, k + 1, c2, limit, a.glue_right)).last() == c2);
        }
    }
}

/// The `@` stripped off a declaration-type token's text.
pub open spec fn strip_at(t: Seq<char>) -> Seq<char> {
    if t.len() >= 1 && t[0] == '@' {
        t.subrange(1, t.len() as int)
    } else {
        t
    }
}

/// One formatted `name = value,` field line, with its trailing newline.
pub open spec fn fmt_field(f: FieldModel, limit: int) -> Seq<char> {
    let name = lower_seq(f.name.text);
    let (v, c) = emit_atoms(value_atoms(f.content), 0, 4 + name.len() as int + 3, limit, true);
    "    "@ + name + " = "@ + v + ",\n"@
}

pub open spec fn fmt_fields(fs: Seq<FieldModel>, limit: int) -> Seq<char>
    decreases fs,
{
    if fs.len() == 0 {
        Seq::empty()
    } else {
        fmt_fields(fs.drop_last(), limit) + fmt_field(fs.last(), limit)
    }
}

/// A formatted declaration: canonical header, fields one per line for an
/// entry, closing brace.
pub open spec fn fmt_decl(d: DeclModel, limit: int) -> Seq<char> {
    match d {
        DeclModel::Preamble(p) => {
            let (v, c) = emit_atoms(value_atoms(p.content), 0, 10, limit, true);
            "@preamble{"@ + v + "}"@
        },
        DeclModel::Str(s) => {
            let name = match s.name {
                Option::Some(t) => lower_seq(t.text),
                Option::None => Seq::empty(),
            };
            let (v, c) = emit_atoms(value_atoms(s.value), 0, 8 + name.len() as int + 3, limit, true);
            "@string{"@ + name + " = "@ + v + "}"@
        },
        DeclModel::Entry(e) => {
            let key = match e.key {
                Option::Some(t) => t.text,
                Option::None => Seq::empty(),
            };
            "@"@ + lower_seq(strip_at(e.ty.text)) + "{"@ + key + ",\n"@
                + fmt_fields(e.fields, limit) + "}"@
        },
    }
}

/// The whole formatted document: declarations joined by single blank-free
/// newlines. The definition of the formatter.
pub open spec fn fmt_root(ds: Seq<DeclModel>, limit: int) -> Seq<char>
    decreases ds,
{
    if ds.len() == 0 {
        Seq::empty()
    } else if ds.len() == 1 {
        fmt_decl(ds[0], limit)
    } else {
        fmt_root(ds.drop_last(), limit) + "\n"@ + fmt_decl(ds.last(), limit)
    }
}

/// The position just past the last character of a text.
pub open spec fn pos_scan(text: Seq<char>, i: int, p: PosModel) -> PosModel
    decreases text.len() - i,
{
    if i < 0 || i >= text.len() {
        p
    } else {
        pos_scan(text, i + 1, pos_step(p, text[i]))
    }
}

pub open spec fn doc_end_pos(text: Seq<char>) -> PosModel {
    pos_scan(text, 0, PosModel { line: 0, character: 0 })
}

#[derive(Debug, PartialEq, Eq)]
pub struct TextEdit {
    pub range: Range,
    pub new_text: String,
}

#[derive(Debug, Clone, Copy, PartialEq, Eq, Structural)]
pub struct BibtexFormattingOptions {
    /// Maximum output line width; `0` disables wrapping entirely.
    pub line_length: usize,
}

impl Default for BibtexFormattingOptions {
    /// The default width limit of the formatter.
    fn default() -> (r: Self)
        ensures
            r.line_length == 120,
    {
        BibtexFormattingOptions { line_length: 120 }
    }
}

/// Relies on `String::from_iter` via `Iterator::collect`: the returned string
/// holds exactly the characters of `v`, in order.
#[verifier::external_body]
fn chars_to_string(v: &Vec<char>) -> (s: String)
    ensures
        s@ == v@,
{
    v.iter().collect()
}

/// Append every character of `s` to `out`.
fn append_str(out: &mut Vec<char>, s: &str)
    ensures
        final(out)@ == old(out)@ + s@,
{
    let n = s.unicode_len();
    let mut i: usize = 0;
    proof {
        assert(out@ + s@.take(0) =~= out@);
    }
    while i < n
        invariant
            n == s@.len(),
            0 <= i <= n,
            out@ == old(out)@ + s@.take(i as int),
        decreases n - i,
    {
        let c = s.get_char(i);
        proof {
            assert(s@.take(i as int + 1) =~= s@.take(i as int).push(s@[i as int]));
            assert(old(out)@ + s@.take(i as int + 1) =~= (old(out)@ + s@.take(i as int)).push(s@[i as int]));
        }
        out.push(c);
        i = i + 1;
    }
    proof {
        assert(s@.take(n as int) =~= s@);
    }
}

/// Append the lowercased characters of `s`, from character `from` onward.
fn append_lower(out: &mut Vec<char>, s: &str, from: usize)
    requires
        from <= s@.len(),
    ensures
        final(out)@ == old(out)@ + lower_seq(s@.subrange(from as int, s@.len() as int)),
{
    let n = s.unicode_len();
    let mut i: usize = from;
    proof {
        assert(out@ + lower_seq(s@.subrange(from as int, from as int)) =~= out@);
    }
    while i < n
        invariant
            n == s@.len(),
            from <= i <= n,
            out@ == old(out)@ + lower_seq(s@.subrange(from as int, i as int)),
        decreases n - i,
    {
        let c = s.get_char(i);
        let lc: char = if 'A' <= c && c <= 'Z' {
            ((c as u8) + 32) as char
        } else {
            c
        };
        proof {
            assert(lc == lower_char(c));
            assert(s@.subrange(from as int, i as int + 1).drop_last()
                =~= s@.subrange(from as int, i as int));
            assert(s@.subrange(from as int, i as int + 1).last() == s@[i as int]);
            assert(lower_seq(s@.subrange(from as int, i as int + 1))
                =~= lower_seq(s@.subrange(from as int, i as int)).push(lower_char(c)));
            assert(old(out)@ + lower_seq(s@.subrange(from as int, i as int + 1))
                =~= (old(out)@ + lower_seq(s@.subrange(from as int, i as int))).push(lc));
        }
        out.push(lc);
        i = i + 1;
    }
}

fn mk_atom_x(text: &str, gl: bool, gr: bool) -> (a: Atom)
    ensures
        atom_view(a) == mk_atom(text@, gl, gr),
{
    let a = Atom { text: String::from_str(text), glue_left: gl, glue_right: gr };
    proof {
        assert(atom_view(a) =~= mk_atom(text@, gl, gr));
    }
    a
}

/// Flatten one content node onto `out`.
fn flat_content(c: &BibtexContent, out: &mut Vec<Atom>)
    ensures
        atoms_view(final(out)@) == atoms_view(old(out)@) + flatten_content(content_view(*c)),
    decreases *c, 1int,
{
    match c {
        BibtexContent::Word(w) => {
            let gl = w.token.kind == BibtexTokenKind::Comma
                || w.token.kind == BibtexTokenKind::EndParen;
            let gr = w.token.kind == BibtexTokenKind::BeginParen;
            let a = mk_atom_x(w.token.text(), gl, gr);
            proof {
                assert(atoms_view(out@.push(a)) =~= atoms_view(out@).push(atom_view(a)));
                assert(atoms_view(out@).push(atom_view(a))
                    =~= atoms_view(out@) + flatten_content(content_view(*c)));
            }
            out.push(a);
        },
        BibtexContent::Command(w) => {
            let a = mk_atom_x(w.token.text(), false, false);
            proof {
                assert(atoms_view(out@.push(a)) =~= atoms_view(out@).push(atom_view(a)));
                assert(atoms_view(out@).push(atom_view(a))
                    =~= atoms_view(out@) + flatten_content(content_view(*c)));
            }
            out.push(a);
        },
        BibtexContent::QuotedContent(q) => {
            let a = mk_atom_x("\"", false, true);
            proof {
                assert(atoms_view(out@.push(a)) =~= atoms_view(out@).push(atom_view(a)));
            }
            out.push(a);
            flat_list(&q.children, out);
            let b = mk_atom_x("\"", true, false);
            proof {
                assert(atoms_view(out@.push(b)) =~= atoms_view(out@).push(atom_view(b)));
                assert(atoms_view(out@).push(atom_view(b))
                    =~= atoms_view(old(out)@) + flatten_content(content_view(*c)));
            }
            out.push(b);
        },
        BibtexContent::BracedContent(q) => {
            let a = mk_atom_x("{", false, true);
            proof {
                assert(atoms_view(out@.push(a)) =~= atoms_view(out@).push(atom_view(a)));
            }
            out.push(a);
            flat_list(&q.children, out);
            let b = mk_atom_x("}", true, false);
            proof {
                assert(atoms_view(out@.push(b)) =~= atoms_view(out@).push(atom_view(b)));
                assert(atoms_view(out@).push(atom_view(b))
                    =~= atoms_view(old(out)@) + flatten_content(content_view(*c)));
            }
            out.push(b);
        },
        BibtexContent::Concat(cc) => {
            flat_content(&cc.left, out);
            let a = mk_atom_x("#", false, false);
            proof {
                assert(atoms_view(out@.push(a)) =~= atoms_view(out@).push(atom_view(a)));
            }
            out.push(a);
            match &cc.right {
                Option::Some(r) => {
                    flat_content(r, out);
                    proof {
                        assert(atoms_view(out@)
                            =~= atoms_view(old(out)@) + flatten_content(content_view(*c)));
                    }
                },
                Option::None => {
                    proof {
                        assert(atoms_view(out@)
                            =~= atoms_view(old(out)@) + flatten_content(content_view(*c)));
                    }
                },
            }
        },
    }
}

/// Flatten a content list onto `out`.
fn flat_list(cs: &Vec<BibtexContent>, out: &mut Vec<Atom>)
    ensures
        atoms_view(final(out)@) == atoms_view(old(out)@) + flatten_list(contents_view(cs@)),
    decreases cs@, 0int,
{
    let ghost cv = contents_view(cs@);
    let n = cs.len();
    let mut i: usize = 0;
    proof {
        crate::ast::lemma_contents_view_len(cs@);
        assert(flatten_list(cv.take(0)) =~= Seq::<AtomModel>::empty());
        assert(atoms_view(out@) + flatten_list(cv.take(0)) =~= atoms_view(out@));
    }
    while i < n
        invariant
            n == cs@.len(),
            cv == contents_view(cs@),
            cv.len() == n,
            0 <= i <= n,
            atoms_view(out@) == atoms_view(old(out)@) + flatten_list(cv.take(i as int)),
        decreases n - i,
    {
        proof {
            assert(decreases_to!(cs@ => cs@[i as int]));
        }
        flat_content(&cs[i], out);
        proof {
            crate::ast::lemma_contents_view_index(cs@, i as int);
            assert(cv.take(i as int + 1).drop_last() =~= cv.take(i as int));
            assert(cv.take(i as int + 1).last() == cv[i as int]);
            assert(atoms_view(out@)
                =~= atoms_view(old(out)@) + flatten_list(cv.take(i as int + 1)));
        }
        i = i + 1;
    }
    proof {
        assert(cv.take(n as int) =~= cv);
    }
}

/// Render atoms from index `k` onward onto `out`; returns the final column.
fn emit_atoms_x(atoms: &Vec<Atom>, k: usize, col: usize, limit: usize, prev_glue: bool, out: &mut Vec<char>) -> (newcol: usize)
    requires
        k <= atoms@.len(),
        col <= old(out)@.len(),
    ensures
        ({
            let (s, c) = emit_atoms(atoms_view(atoms@), k as int, col as int, limit as int, prev_glue);
            final(out)@ == old(out)@ + s && newcol as int == c && newcol <= final(out)@.len()
        }),
    decreases atoms@.len() - k,
{
    let ghost av = atoms_view(atoms@);
    if k >= atoms.len() {
        proof {
            assert(out@ + emit_atoms(av, k as int, col as int, limit as int, prev_glue).0 =~= out@);
        }
        return col;
    }
    let a = &atoms[k];
    let a_len = a.text.unicode_len();
    let space = !prev_glue && !a.glue_left;
    let wrap = space && limit > 0 && (col >= limit || a_len > limit - col - 1);
    proof {
        assert(wrap == (space && limit > 0 && col as int + 1 + av[k as int].text.len() > limit));
    }
    if wrap {
        out.push('\n');
        append_str(out, "        ");
        append_str(out, a.text.as_str());
        proof {
            reveal_strlit("        ");
            assert(cont_indent().len() == 8);
        }
        let total = out.len();
        proof {
            assert(8 + a_len <= total);
        }
        let c2 = 8 + a_len;
        let cr = emit_atoms_x(atoms, k + 1, c2, limit, a.glue_right, out);
        proof {
            let (s, c) = emit_atoms(av, k as int, col as int, limit as int, prev_glue);
            assert(out@ =~= old(out)@ + s);
        }
        cr
    } else if space {
        out.push(' ');
        append_str(out, a.text.as_str());
        let total = out.len();
        proof {
            assert(col + 1 + a_len <= total);
        }
        let c2 = col + 1 + a_len;
        let cr = emit_atoms_x(atoms, k + 1, c2, limit, a.glue_right, out);
        proof {
            let (s, c) = emit_atoms(av, k as int, col as int, limit as int, prev_glue);
            assert(out@ =~= old(out)@ + s);
        }
        cr
    } else {
        append_str(out, a.text.as_str());
        let total = out.len();
        proof {
            assert(col + a_len <= total);
        }
        let c2 = col + a_len;
        let cr = emit_atoms_x(atoms, k + 1, c2, limit, a.glue_right, out);
        proof {
            let (s, c) = emit_atoms(av, k as int, col as int, limit as int, prev_glue);
            assert(out@ =~= old(out)@ + s);
        }
        cr
    }
}

/// Render an optional field or declaration value starting at column `col`.
fn emit_value(c: &Option<BibtexContent>, col: usize, limit: usize, out: &mut Vec<char>)
    requires
        col <= old(out)@.len(),
    ensures
        final(out)@ == old(out)@ + emit_atoms(value_atoms(crate::ast::opt_content_view(*c)), 0, col as int, limit as int, true).0,
{
    let mut atoms: Vec<Atom> = Vec::new();
    match c {
        Option::Some(x) => {
            flat_content(x, &mut atoms);
            proof {
                assert(atoms_view(atoms@) =~= value_atoms(crate::ast::opt_content_view(*c)));
            }
        },
        Option::None => {
            proof {
                assert(atoms_view(atoms@) =~= value_atoms(crate::ast::opt_content_view(*c)));
            }
        },
    }
    let _ = emit_atoms_x(&atoms, 0, col, limit, true, out);
}


/// One formatted field line appended to `out`.
fn fmt_field_x(f: &crate::ast::BibtexField, limit: usize, out: &mut Vec<char>)
    ensures
        final(out)@ == old(out)@ + fmt_field(crate::ast::field_view(*f), limit as int),
{
    let ghost start0 = out@.len();
    let start = out.len();
    append_str(out, "    ");
    proof {
        reveal_strlit("    ");
        assert(f.name.text@.subrange(0, f.name.text@.len() as int) =~= f.name.text@);
    }
    append_lower(out, f.name.text(), 0);
    append_str(out, " = ");
    proof {
        reveal_strlit(" = ");
        assert(lower_seq(f.name.text@).len() == f.name.text@.len());
    }
    let col = out.len() - start;
    proof {
        assert(col as int == 4 + lower_seq(f.name.text@).len() + 3);
    }
    emit_value(&f.content, col, limit, out);
    append_str(out, ",\n");
    proof {
        assert(final(out)@ =~= old(out)@ + fmt_field(crate::ast::field_view(*f), limit as int));
    }
}

/// All field lines of an entry appended to `out`.
fn fmt_fields_x(fs: &Vec<crate::ast::BibtexField>, limit: usize, out: &mut Vec<char>)
    ensures
        final(out)@ == old(out)@ + fmt_fields(crate::ast::fields_view(fs@), limit as int),
{
    let ghost fv = crate::ast::fields_view(fs@);
    let n = fs.len();
    let mut i: usize = 0;
    proof {
        assert(fmt_fields(fv.take(0), limit as int) =~= Seq::<char>::empty());
        assert(out@ + fmt_fields(fv.take(0), limit as int) =~= out@);
    }
    while i < n
        invariant
            n == fs@.len(),
            fv == crate::ast::fields_view(fs@),
            0 <= i <= n,
            out@ == old(out)@ + fmt_fields(fv.take(i as int), limit as int),
        decreases n - i,
    {
        fmt_field_x(&fs[i], limit, out);
        proof {
            assert(fv.take(i as int + 1).drop_last() =~= fv.take(i as int));
            assert(fv.take(i as int + 1).last() == fv[i as int]);
            assert(out@ =~= old(out)@ + fmt_fields(fv.take(i as int + 1), limit as int));
        }
        i = i + 1;
    }
    proof {
        assert(fv.take(n as int) =~= fv);
    }
}

/// One formatted declaration appended to `out`.
fn fmt_decl_x(d: &crate::ast::BibtexDeclaration, limit: usize, out: &mut Vec<char>)
    ensures
        final(out)@ == old(out)@ + fmt_decl(crate::ast::decl_view(*d), limit as int),
{
    match d {
        crate::ast::BibtexDeclaration::Preamble(p) => {
            append_str(out, "@preamble{");
            proof {
                reveal_strlit("@preamble{");
            }
            emit_value(&p.content, 10, limit, out);
            append_str(out, "}");
            proof {
                assert(final(out)@ =~= old(out)@ + fmt_decl(crate::ast::decl_view(*d), limit as int));
            }
        },
        crate::ast::BibtexDeclaration::Str(s) => {
            let start = out.len();
            append_str(out, "@string{");
            proof {
                reveal_strlit("@string{");
            }
            match &s.name {
                Option::Some(t) => {
                    proof {
                        assert(t.text@.subrange(0, t.text@.len() as int) =~= t.text@);
                    }
                    append_lower(out, t.text(), 0);
                    proof {
                        assert(lower_seq(t.text@).len() == t.text@.len());
                    }
                },
                Option::None => {
                },
            }
            append_str(out, " = ");
            proof {
                reveal_strlit(" = ");
            }
            let col = out.len() - start;
            emit_value(&s.value, col, limit, out);
            append_str(out, "}");
            proof {
                assert(final(out)@ =~= old(out)@ + fmt_decl(crate::ast::decl_view(*d), limit as int));
            }
        },
        crate::ast::BibtexDeclaration::Entry(e) => {
            append_str(out, "@");
            let t = e.ty.text();
            if t.unicode_len() >= 1 && t.get_char(0) == '@' {
                proof {
                    assert(t@.subrange(1, t@.len() as int) =~= strip_at(e.ty.text@));
                }
                append_lower(out, t, 1);
            } else {
                proof {
                    assert(t@.subrange(0, t@.len() as int) =~= strip_at(e.ty.text@));
                }
                append_lower(out, t, 0);
            }
            append_str(out, "{");
            match &e.key {
                Option::Some(k) => {
                    append_str(out, k.text());
                },
                Option::None => {
                },
            }
            append_str(out, ",\n");
            fmt_fields_x(&e.fields, limit, out);
            append_str(out, "}");
            proof {
                assert(final(out)@ =~= old(out)@ + fmt_decl(crate::ast::decl_view(*d), limit as int));
            }
        },
    }
}

/// The whole formatted document appended to `out`.
fn fmt_root_x(ds: &Vec<crate::ast::BibtexDeclaration>, limit: usize, out: &mut Vec<char>)
    ensures
        final(out)@ == old(out)@ + fmt_root(crate::ast::decls_view(ds@), limit as int),
{
    let ghost dv = crate::ast::decls_view(ds@);
    let n = ds.len();
    let mut i: usize = 0;
    proof {
        assert(fmt_root(dv.take(0), limit as int) =~= Seq::<char>::empty());
        assert(out@ + fmt_root(dv.take(0), limit as int) =~= out@);
    }
    while i < n
        invariant
            n == ds@.len(),
            dv == crate::ast::decls_view(ds@),
            0 <= i <= n,
            out@ == old(out)@ + fmt_root(dv.take(i as int), limit as int),
        decreases n - i,
    {
        if i > 0 {
            append_str(out, "\n");
        }
        fmt_decl_x(&ds[i], limit, out);
        proof {
            assert(dv.take(i as int + 1).drop_last() =~= dv.take(i as int));
            assert(dv.take(i as int + 1).last() == dv[i as int]);
            assert(out@ =~= old(out)@ + fmt_root(dv.take(i as int + 1), limit as int));
        }
        i = i + 1;
    }
    proof {
        assert(dv.take(n as int) =~= dv);
    }
}

/// The position just past the end of a document's text.
fn doc_end(text: &str) -> (p: Position)
    ensures
        pos_view(p) == doc_end_pos(text@),
{
    let n = text.unicode_len();
    let mut i: usize = 0;
    let mut line: u64 = 0;
    let mut character: u64 = 0;
    while i < n
        invariant
            n == text@.len(),
            0 <= i <= n,
            line as int <= i as int,
            character as int <= i as int,
            doc_end_pos(text@) == pos_scan(text@, i as int, PosModel { line: line as int, character: character as int }),
        decreases n - i,
    {
        let c = text.get_char(i);
        if c == '\n' {
            line = line + 1;
            character = 0;
        } else {
            character = character + 1;
        }
        i = i + 1;
    }
    Position { line, character }
}

impl BibtexSyntaxTree {
    /// Format the whole document: returns the single edit that replaces the
    /// entire original text (from the document start to its end position)
    /// with the canonical rendering of the tree, `fmt_root`, a function of
    /// the tree and the width limit alone.
    pub fn format(&self, text: &str, options: &BibtexFormattingOptions) -> (edit: TextEdit)
        ensures
            edit.range.start == (Position { line: 0, character: 0 }),
            pos_view(edit.range.end) == doc_end_pos(text@),
            edit.new_text@ == fmt_root(root_view(self.root).children, options.line_length as int),
    {
        let mut out: Vec<char> = Vec::new();
        fmt_root_x(&self.root.children, options.line_length, &mut out);
        let end = doc_end(text);
        TextEdit {
            range: Range { start: Position { line: 0, character: 0 }, end },
            new_text: chars_to_string(&out),
        }
    }
}

} // verus!

