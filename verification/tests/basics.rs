//! Texts, dictionaries and what is said of errors.
use django_templates::dict::{contains_text, lookup, Dict};
use django_templates::integer::{usize_text, Integer};
use django_templates::lexer::tag::TagLexerError;
use django_templates::lexer::tokens::LexerFault;
use django_templates::listing::sort_texts;
use django_templates::parse::equality::Same;
use django_templates::parse::errors::{ForParseError, ParseError};
use django_templates::parse::messages::Label;
use django_templates::parse::tree::{
    Include, IncludeTemplateName, RelativePath, SimpleBlockTag, SimpleTag, TagElement, TokenTree,
};
use django_templates::text::{slice, str_eq, str_less, At, TemplateString};
use django_templates::types::{PyObject, Text, Variable};
use django_templates::words::{chars_of, first_word_is, join, quote, split, trimmed_equals};

fn texts(words: &[&str]) -> Vec<String> {
    words.iter().map(|word| word.to_string()).collect()
}

#[test]
fn dictionaries_hold_one_value_for_a_key() {
    let mut dict: Dict<String> = Dict::new();
    assert!(dict.get("a").is_none());
    dict.insert("a".to_string(), "1".to_string());
    dict.insert("b".to_string(), "2".to_string());
    dict.insert("a".to_string(), "3".to_string());
    assert_eq!(dict.get("a"), Some(&"3".to_string()));
    assert!(dict.contains_key("b"));
    assert!(!dict.contains_key("c"));
    assert_eq!(sort_texts(&dict.keys()), texts(&["a", "b"]));
    dict.extend(&vec![("c".to_string(), "4".to_string()), ("b".to_string(), "5".to_string())]);
    assert_eq!(dict.get("b"), Some(&"5".to_string()));
    assert_eq!(dict.keys().len(), 3);
    let entries = vec![("x".to_string(), "1".to_string()), ("x".to_string(), "2".to_string())];
    assert_eq!(lookup(&entries, "x").is_some(), true);
    assert_eq!(Dict::from_entries(entries).get("x"), Some(&"2".to_string()));
    assert!(contains_text(&texts(&["p", "q"]), "q"));
    assert!(!contains_text(&texts(&["p", "q"]), "r"));
}

#[test]
fn texts_are_taken_apart() {
    let template = TemplateString("h\u{e9}llo w\u{f6}rld");
    assert_eq!(template.content((0, 6)), "h\u{e9}llo");
    assert_eq!(template.get((7, 6)), Some("w\u{f6}rld"));
    assert_eq!(template.get((2, 1)), None);
    assert_eq!(template.get((13, 1)), None);
    assert_eq!(template.get((usize::MAX, 1)), None);
    assert_eq!(slice("abc", (1, 0)), "");
    assert_eq!(chars_of("a\u{e9}"), vec!['a', '\u{e9}']);
    assert_eq!(split("a..b", '.'), vec![vec!['a'], vec![], vec!['b']]);
    assert_eq!(split("", '.').len(), 1);
    assert!(trimmed_equals(&chars_of(" \u{a0}as\t"), "as"));
    assert!(!trimmed_equals(&chars_of("a s"), "as"));
    assert!(first_word_is("  endcomment note", "endcomment"));
    assert!(!first_word_is("endcomments", "endcomment"));
    assert!(!first_word_is("  ", "endcomment"));
}

#[test]
fn texts_are_compared_and_put_together() {
    assert!(str_eq("ab", "ab"));
    assert!(!str_eq("ab", "a"));
    assert!(str_less("", "a"));
    assert!(str_less("ab", "b"));
    assert!(str_less("a", "ab"));
    assert!(!str_less("b", "ab"));
    assert!(!str_less("a", "a"));
    assert!(str_less("z", "\u{e9}"));
    assert_eq!(sort_texts(&texts(&["b", "\u{e9}", "a", "Z"])), texts(&["Z", "a", "b", "\u{e9}"]));
    assert_eq!(join(&texts(&["a", "b", "c"]), ", "), "a, b, c");
    assert_eq!(join(&vec![], ", "), "");
    assert_eq!(quote("a"), "'a'");
    assert_eq!(usize_text(0), "0");
    assert_eq!(usize_text(10), "10");
    assert_eq!(usize_text(907), "907");
    assert_eq!(usize_text(usize::MAX), format!("{}", usize::MAX));
}

#[test]
fn variables_have_parts() {
    let source = "{{ foo.b\u{e4}r.baz }}";
    let variable = Variable { at: (3, 12) };
    assert_eq!(
        variable.parts(TemplateString(source)),
        vec![("foo", (3, 3)), ("b\u{e4}r", (7, 4)), ("baz", (12, 3))]
    );
    assert_eq!(Variable { at: (3, 3) }.parts(TemplateString(source)), vec![("foo", (3, 3))]);
}

#[test]
fn integers_compare() {
    let integer = |text: &str| Integer::parse(text).unwrap();
    assert!(integer("-3").less_than(&integer("2")));
    assert!(!integer("2").less_than(&integer("2")));
    assert!(integer("00012").equals(&integer("12")));
    assert!(integer("-0").is_zero());
    assert!(!integer("-0").is_negative());
    assert!(integer("-1").is_negative());
    assert_eq!(integer("255").to_u8(), Some(255));
    assert_eq!(integer("256").to_u8(), None);
    assert_eq!(integer("-9223372036854775808").to_i64(), Some(i64::MIN));
    assert_eq!(integer("9223372036854775808").to_i64(), None);
    assert_eq!(integer("-12").to_isize(), Some(-12));
    assert_eq!(Integer::parse("12a").map(|n| n.to_text()), None);
    assert_eq!(Integer::parse("").map(|n| n.to_text()), None);
    assert!(integer("200").equals(&Integer::from_u8(200)));
}

fn label(at: At, text: &'static str) -> Label {
    Label { at, text }
}

#[test]
fn errors_say_what_is_wrong() {
    let error = ParseError::<String>::MissingEndTag {
        start: "if".to_string(),
        expected: "elif, else, endif".to_string(),
        at: (0, 8),
    };
    assert_eq!(
        error.message(),
        Some("Unclosed 'if' tag. Looking for one of: elif, else, endif".to_string())
    );
    assert_eq!(error.labels(), vec![label((0, 8), "started here")]);
    assert_eq!(error.help(), None);
    let twice = ParseError::<String>::IncludeOnlyTwice { first_at: (1, 4), second_at: (6, 4) };
    assert_eq!(
        twice.labels(),
        vec![label((1, 4), "first here"), label((6, 4), "second here")]
    );
    assert_eq!(twice.help(), Some("Remove the second 'only'".to_string()));
    let library = ParseError::MissingTagLibrary {
        library: "x".to_string(),
        at: (8, 1),
        help: "Must be one of: y".to_string(),
    };
    assert_eq!(library.message(), Some("'x' is not a registered tag library.".to_string()));
    assert_eq!(library.help(), Some("Must be one of: y".to_string()));
    let wrong = ParseError::WrongEndTag {
        unexpected: "endfor".to_string(),
        expected: "endif".to_string(),
        at: (9, 3),
        start_at: (0, 4),
    };
    assert_eq!(wrong.message(), Some("Unexpected tag endfor, expected endif".to_string()));
    let lexer = ParseError::<String>::NowError(LexerFault { id: 1 });
    assert_eq!(lexer.message(), None);
    assert_eq!(lexer.labels(), vec![]);
    let empty = TagLexerError::EmptyTag { at: (0, 4) };
    assert_eq!(empty.message(), "Empty block tag");
    assert_eq!(ParseError::<String>::BlockError(empty).labels(), vec![label((0, 4), "here")]);
    let names = ForParseError::MissingVariableNames { at: (2, 3) };
    assert_eq!(names.message(), "Expected at least one variable name in for loop:");
    assert_eq!(names.labels(), vec![label((2, 3), "in this tag")]);
}

fn simple_tag(func: u64, name: &str) -> SimpleTag {
    SimpleTag {
        func: PyObject { id: func },
        at: (1, 2),
        takes_context: false,
        args: vec![TagElement::Int(Integer::from_u8(3))],
        kwargs: vec![(name.to_string(), TagElement::Text(Text { at: (4, 5) }))],
        target_var: None,
    }
}

fn block_tag(nodes: Vec<TokenTree>) -> SimpleBlockTag {
    SimpleBlockTag {
        func: PyObject { id: 1 },
        nodes,
        at: (1, 2),
        takes_context: false,
        args: vec![],
        kwargs: vec![],
        target_var: Some("t".to_string()),
    }
}

#[test]
fn tags_are_equal_where_their_parts_are() {
    assert!(simple_tag(1, "k") == simple_tag(1, "k"));
    assert!(simple_tag(1, "k") != simple_tag(2, "k"));
    assert!(simple_tag(1, "k") != simple_tag(1, "l"));
    let text = |at: At| vec![TokenTree::Text(Text { at })];
    assert!(block_tag(text((1, 1))) == block_tag(text((1, 1))));
    assert!(block_tag(text((1, 1))) != block_tag(text((1, 2))));
    assert!(block_tag(vec![]) != block_tag(text((1, 1))));
    let path = |path: &str, engine: u64| Include {
        template_name: IncludeTemplateName::Relative(RelativePath {
            at: (0, 1),
            path: path.to_string(),
        }),
        origin: None,
        engine: PyObject { id: engine },
        only: false,
        kwargs: vec![],
    };
    assert!(path("a", 1) == path("a", 1));
    assert!(path("a", 1) != path("b", 1));
    assert!(TagElement::Int(Integer::from_u8(3)).same(&TagElement::Int(Integer::from_u8(3))));
    assert!(!TagElement::Int(Integer::from_u8(3)).same(&TagElement::Text(Text { at: (3, 0) })));
}
