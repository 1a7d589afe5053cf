use bibtex_syntax::BibtexSyntaxTree;
use bibtex_syntax::ast::BibtexContent;
use bibtex_syntax::finder::{BibtexNode, entry_range_x, field_range_x};
use bibtex_syntax::text::{Position, Range};

#[test]
fn lexing_and_parsing_are_total() {
    let inputs = [
        "",
        "@",
        "@@@",
        "@article",
        "@article{",
        "@article{unterminated",
        "@article{k, author = {{{deep{nest}}}}",
        "{}}}((\"\"\"",
        "\u{0}\u{1}\u{2}binary\u{7f}garbage\u{fffd}",
        "@string{x=",
        "@preamble(",
        "# = , \\command",
    ];
    for text in inputs {
        let tree = BibtexSyntaxTree::from_text(text);
        // A root always comes back and the queries work on it.
        let _ = tree.entries();
        let _ = tree.strings();
        let _ = tree.preambles();
        assert!(tree.entry("nothing").is_none());
    }
}

#[test]
fn deep_nesting_parses_and_reformats() {
    let mut value = String::new();
    for _ in 0..200 {
        value.push('{');
    }
    value.push('x');
    for _ in 0..200 {
        value.push('}');
    }
    let text = format!("@article{{k, title = {}}}", value);
    let tree = BibtexSyntaxTree::from_text(&text);
    assert_eq!(tree.entries().len(), 1);
    let opts = bibtex_syntax::formatting::BibtexFormattingOptions::default();
    let once = tree.format(&text, &opts).new_text;
    let tree2 = BibtexSyntaxTree::from_text(&once);
    let twice = tree2.format(&once, &opts).new_text;
    assert_eq!(once, twice);
}

#[test]
fn parser_resynchronises_at_next_declaration() {
    // The stray tokens after the broken entry are skipped; the next `@` opens
    // a fresh declaration.
    let text = "@article{a, title = } junk ) = , @book{b,}";
    let tree = BibtexSyntaxTree::from_text(text);
    let entries = tree.entries();
    assert_eq!(entries.len(), 2);
    assert_eq!(entries[0].key.as_ref().map(|t| t.text.as_str()), Some("a"));
    assert_eq!(entries[1].key.as_ref().map(|t| t.text.as_str()), Some("b"));
}

#[test]
fn parsing_is_deterministic() {
    let texts = [
        "@article{k, author = {A B C}, year = 1984}",
        "@string{a = \"x\"} @preamble{\"y\"} @article{b,}",
        "@article{broken, author = {unterminated",
    ];
    for text in texts {
        let t1 = BibtexSyntaxTree::from_text(text);
        let t2 = BibtexSyntaxTree::from_text(text);
        assert_eq!(t1, t2);
    }
}

#[test]
fn queries_filter_in_document_order() {
    let text = "@string{a = \"1\"} @article{x,} @preamble{\"p\"} @book{y,} @string{b = \"2\"}";
    let tree = BibtexSyntaxTree::from_text(text);
    let strings = tree.strings();
    assert_eq!(strings.len(), 2);
    assert_eq!(strings[0].name.as_ref().map(|t| t.text.as_str()), Some("a"));
    assert_eq!(strings[1].name.as_ref().map(|t| t.text.as_str()), Some("b"));
    assert_eq!(tree.preambles().len(), 1);
    let entries = tree.entries();
    assert_eq!(entries.len(), 2);
    assert_eq!(entries[0].key.as_ref().map(|t| t.text.as_str()), Some("x"));
    assert_eq!(entries[1].key.as_ref().map(|t| t.text.as_str()), Some("y"));
}

#[test]
fn comment_declarations_are_dropped() {
    let text = "@comment{ignored stuff} @article{k,}";
    let tree = BibtexSyntaxTree::from_text(text);
    assert_eq!(tree.entries().len(), 1);
    assert_eq!(tree.preambles().len(), 0);
    assert_eq!(tree.strings().len(), 0);
}

#[test]
fn keyless_entry_is_still_enumerable() {
    let text = "@article{, author = {A}}";
    let tree = BibtexSyntaxTree::from_text(text);
    let entries = tree.entries();
    assert_eq!(entries.len(), 1);
    assert!(entries[0].key.is_none());
    assert_eq!(entries[0].fields.len(), 1);
}

#[test]
fn entry_lookup_is_first_match_and_case_sensitive() {
    let text = "@article{k, year = 1111} @book{K, year = 2222} @misc{k, year = 3333}";
    let tree = BibtexSyntaxTree::from_text(text);
    let e = tree.entry("k").expect("entry k");
    assert_eq!(e.ty.text.as_str(), "@article");
    let e2 = tree.entry("K").expect("entry K");
    assert_eq!(e2.ty.text.as_str(), "@book");
    assert!(tree.entry("kk").is_none());
}

#[test]
fn field_lookup_finds_first_field() {
    let text = "@article{k, title = {One}, title = {Two}, year = 1984}";
    let tree = BibtexSyntaxTree::from_text(text);
    let e = tree.entry("k").unwrap();
    let f = e.field("title").expect("title field");
    match f.content.as_ref().unwrap() {
        BibtexContent::BracedContent(b) => match &b.children[0] {
            BibtexContent::Word(w) => assert_eq!(w.token.text.as_str(), "One"),
            other => panic!("unexpected child: {:?}", other),
        },
        other => panic!("unexpected content: {:?}", other),
    }
    assert!(e.field("editor").is_none());
}

#[test]
fn crossref_resolves_single_hop() {
    let text = "@article{a, crossref = {b}} @book{b, title = {T}}";
    let tree = BibtexSyntaxTree::from_text(text);
    let a = tree.entry("a").unwrap();
    let b = tree.crossref(a).expect("crossref target");
    assert_eq!(b.key.as_ref().map(|t| t.text.as_str()), Some("b"));
    assert_eq!(b.ty.text.as_str(), "@book");
}

#[test]
fn crossref_mismatches_yield_absence() {
    let text = "@article{a, crossref = {missing}}\n\
                @article{c, crossref = {b d}}\n\
                @article{e, crossref = \"b\"}\n\
                @article{f, title = {T}}\n\
                @book{b, title = {T}}";
    let tree = BibtexSyntaxTree::from_text(text);
    // No entry with the referenced key.
    assert!(tree.crossref(tree.entry("a").unwrap()).is_none());
    // More than one word inside the braces.
    assert!(tree.crossref(tree.entry("c").unwrap()).is_none());
    // Quoted rather than braced content.
    assert!(tree.crossref(tree.entry("e").unwrap()).is_none());
    // No crossref field at all.
    assert!(tree.crossref(tree.entry("f").unwrap()).is_none());
}

#[test]
fn finder_returns_stack_for_field_name() {
    let text = "@article{k, author = {A}}";
    let tree = BibtexSyntaxTree::from_text(text);
    // Position inside the word `author`, which starts at column 12.
    let stack = tree.find(Position { line: 0, character: 13 });
    assert_eq!(stack.len(), 4);
    assert!(matches!(stack[0], BibtexNode::Root(_)));
    assert!(matches!(stack[1], BibtexNode::Entry(_)));
    assert!(matches!(stack[2], BibtexNode::Field(_)));
    match stack[3] {
        BibtexNode::Token(t) => {
            assert_eq!(t.text.as_str(), "author");
            assert_eq!(t.span, Range::new_simple(0, 12, 0, 18));
        },
        ref other => panic!("stack should end in the name token, got {:?}", other),
    }
}

#[test]
fn finder_boundary_position_hits_both_adjacent_tokens() {
    let text = "@article{k, author = {A}}";
    let tree = BibtexSyntaxTree::from_text(text);
    // Column 10 is the inclusive end of the key token and the start of the
    // comma: both tokens contain it, and both appear, in source order.
    let stack = tree.find(Position { line: 0, character: 10 });
    assert_eq!(stack.len(), 4);
    assert!(matches!(stack[0], BibtexNode::Root(_)));
    assert!(matches!(stack[1], BibtexNode::Entry(_)));
    match (stack[2], stack[3]) {
        (BibtexNode::Token(k), BibtexNode::Token(c)) => {
            assert_eq!(k.text.as_str(), "k");
            assert_eq!(c.text.as_str(), ",");
        },
        _ => panic!("expected the key and comma tokens"),
    }
}

#[test]
fn finder_outside_document_is_empty() {
    let text = "@article{k, author = {A}}";
    let tree = BibtexSyntaxTree::from_text(text);
    let stack = tree.find(Position { line: 5, character: 0 });
    assert_eq!(stack.len(), 0);
}

#[test]
fn finder_in_whitespace_stops_at_ancestor() {
    let text = "@article{k,    author = {A}}";
    let tree = BibtexSyntaxTree::from_text(text);
    // Between the comma and `author`: only root and entry contain it.
    let stack = tree.find(Position { line: 0, character: 12 });
    assert!(stack.len() >= 2);
    assert!(matches!(stack[0], BibtexNode::Root(_)));
    assert!(matches!(stack[1], BibtexNode::Entry(_)));
    assert!(!stack.iter().any(|n| matches!(n, BibtexNode::Field(_))));
}

#[test]
fn spans_nest_and_siblings_stay_ordered() {
    let text = "@article{k, author = {A}, year = 1984}";
    let tree = BibtexSyntaxTree::from_text(text);
    let e = tree.entry("k").unwrap();
    let er = entry_range_x(e);
    assert_eq!(er, Range::new_simple(0, 0, 0, 38));
    assert_eq!(e.fields.len(), 2);
    let f0 = field_range_x(&e.fields[0]);
    let f1 = field_range_x(&e.fields[1]);
    // Parent contains children.
    assert!(er.start <= f0.start && f0.end <= er.end);
    assert!(er.start <= f1.start && f1.end <= er.end);
    // Fields contain their name tokens.
    assert!(f0.start <= e.fields[0].name.span.start && e.fields[0].name.span.end <= f0.end);
    // Siblings are disjoint and ordered left to right.
    assert!(f0.end <= f1.start);
}

#[test]
fn token_spans_cover_multiline_input() {
    let text = "@article{k,\n  author = {A}\n}";
    let tree = BibtexSyntaxTree::from_text(text);
    let e = tree.entry("k").unwrap();
    assert_eq!(e.fields[0].name.span, Range::new_simple(1, 2, 1, 8));
    let er = entry_range_x(e);
    assert_eq!(er, Range::new_simple(0, 0, 2, 1));
}
