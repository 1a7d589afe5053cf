use bibtex_syntax::BibtexSyntaxTree;
use bibtex_syntax::formatting::BibtexFormattingOptions;
use bibtex_syntax::text::Range;

fn format_with(text: &str, options: &BibtexFormattingOptions) -> bibtex_syntax::formatting::TextEdit {
    let tree = BibtexSyntaxTree::from_text(text);
    tree.format(text, options)
}

#[test]
fn default_settings() {
    let unformatted = "@article{foo, author = {Foo Bar}, title = {Baz Quz}}";
    assert_eq!(unformatted.chars().count(), 52);
    let edit = format_with(unformatted, &BibtexFormattingOptions::default());
    assert_eq!(
        edit.new_text.as_str(),
        "@article{foo,\n    author = {Foo Bar},\n    title = {Baz Quz},\n}"
    );
    assert_eq!(edit.range, Range::new_simple(0, 0, 0, 52));
}

#[test]
fn infinite_line_length() {
    let unformatted = "@article{foo, author = {Alpha Beta Gamma Delta Epsilon Zeta Eta Theta Iota Kappa Lambda Alpha Beta Gamma Delta Epsilon Zeta Eta XXXX}, title = {Bar}}";
    assert_eq!(unformatted.chars().count(), 149);
    let edit = format_with(
        unformatted,
        &BibtexFormattingOptions { line_length: 0 },
    );
    assert_eq!(
        edit.new_text.as_str(),
        "@article{foo,\n    author = {Alpha Beta Gamma Delta Epsilon Zeta Eta Theta Iota Kappa Lambda Alpha Beta Gamma Delta Epsilon Zeta Eta XXXX},\n    title = {Bar},\n}"
    );
    assert_eq!(edit.range, Range::new_simple(0, 0, 0, 149));
}

#[test]
fn zero_width_disables_wrapping() {
    let text = "@article{foo, author = {Alpha Beta Gamma Delta Epsilon Zeta Eta Theta Iota Kappa Lambda Alpha Beta Gamma Delta Epsilon Zeta Eta XXXX}, title = {Bar}}";
    let wide = format_with(text, &BibtexFormattingOptions { line_length: 0 });
    let narrow = format_with(text, &BibtexFormattingOptions::default());
    // At the default width the long author value wraps onto an indented
    // continuation line; with the limit disabled it stays on one line.
    assert!(!wide.new_text.contains("\n        "));
    assert!(narrow.new_text.contains("\n        "));
    assert_eq!(
        narrow.new_text.as_str(),
        "@article{foo,\n    author = {Alpha Beta Gamma Delta Epsilon Zeta Eta Theta Iota Kappa Lambda Alpha Beta Gamma Delta Epsilon Zeta Eta\n        XXXX},\n    title = {Bar},\n}"
    );
    // The edit range depends only on the input text, not on the options.
    assert_eq!(wide.range, narrow.range);
}

#[test]
fn formatter_idempotent_on_plain_entry() {
    let texts = [
        "@article{foo, author = {Foo Bar}, title = {Baz Quz}}",
        "@ARTICLE{Key,author={Miller, John}#suffix,year=1984,}",
        "@string{ acm = \"Association for Computing Machinery\" }",
        "@preamble{ \"text\" # more }",
        "@article{broken, author = {unterminated",
        "",
    ];
    for text in texts {
        let opts = BibtexFormattingOptions::default();
        let once = format_with(text, &opts).new_text;
        let twice = format_with(once.as_str(), &opts).new_text;
        assert_eq!(once, twice);
    }
}

#[test]
fn formatter_idempotent_when_wrapping() {
    let text = "@article{foo, author = {Alpha Beta Gamma Delta Epsilon Zeta Eta Theta Iota Kappa Lambda Alpha Beta Gamma Delta Epsilon Zeta Eta XXXX}, title = {Bar}}";
    for limit in [0usize, 20, 40, 80, 120] {
        let opts = BibtexFormattingOptions { line_length: limit };
        let once = format_with(text, &opts).new_text;
        let twice = format_with(once.as_str(), &opts).new_text;
        assert_eq!(once, twice);
    }
}

#[test]
fn formatted_output_reparses_to_equivalent_entry() {
    let text = "@ARTICLE{Key, AUTHOR = {Foo}, Year = 1984}";
    let edit = format_with(text, &BibtexFormattingOptions::default());
    let tree = BibtexSyntaxTree::from_text(edit.new_text.as_str());
    let entries = tree.entries();
    assert_eq!(entries.len(), 1);
    let entry = entries[0];
    assert_eq!(entry.ty.text.as_str(), "@article");
    assert_eq!(entry.key.as_ref().map(|k| k.text.as_str()), Some("Key"));
    assert_eq!(entry.fields.len(), 2);
    assert_eq!(entry.fields[0].name.text.as_str(), "author");
    assert_eq!(entry.fields[1].name.text.as_str(), "year");
}

#[test]
fn format_spans_multiline_document() {
    let text = "@article{a,\n  title = {T}\n}\n@book{b}";
    let edit = format_with(text, &BibtexFormattingOptions::default());
    // One edit covering the whole document: three newlines, last line 8 chars.
    assert_eq!(edit.range, Range::new_simple(0, 0, 3, 8));
    assert_eq!(
        edit.new_text.as_str(),
        "@article{a,\n    title = {T},\n}\n@book{b,\n}"
    );
}
