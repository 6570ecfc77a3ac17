use remy::{
    classify_tag, document_to_text, events_of, normalize_whitespace, render, render_events,
    resolve_style, same_text, Color, Line, MarkupEvent, Node, Style, StyledSegment, Tag,
};

fn el(tag: &str, children: Vec<Node>) -> Node {
    Node::Element { tag: tag.to_string(), children }
}

fn txt(s: &str) -> Node {
    Node::Text { content: s.to_string() }
}

fn line_text(l: &Line) -> String {
    l.segments.iter().map(|s| s.text.as_str()).collect::<Vec<_>>().join("")
}

fn texts(lines: &[Line]) -> Vec<String> {
    lines.iter().map(line_text).collect()
}

fn non_ws(s: &str) -> String {
    s.chars().filter(|c| !c.is_whitespace()).collect()
}

#[test]
fn preformatted_keeps_lines_and_indentation() {
    let root = el("pre", vec![txt("line1\n  line2")]);
    let lines = render(&root);
    assert_eq!(lines.len(), 3);
    assert_eq!(line_text(&lines[0]), "line1");
    assert_eq!(line_text(&lines[1]), "  line2");
    for l in &lines[..2] {
        assert_eq!(l.segments.len(), 1);
        assert_eq!(l.segments[0].color, Some(Color::Green));
        assert!(!l.spacer);
    }
    assert!(lines[2].spacer);
    assert!(lines[2].segments.is_empty());
}

#[test]
fn preformatted_document() {
    let lines = document_to_text("<pre>line1\n  line2</pre>");
    assert_eq!(texts(&lines), vec!["line1", "  line2", ""]);
    assert_eq!(lines[0].segments[0].color, Some(Color::Green));
    assert_eq!(lines[1].segments[0].color, Some(Color::Green));
    assert!(lines[2].spacer);
}

#[test]
fn whitespace_collapses_to_one_space() {
    assert_eq!(normalize_whitespace("a   \n  b", false), "a b");
    assert_eq!(normalize_whitespace("\t x  y \n", false), " x y ");
    assert_eq!(normalize_whitespace("", false), "");
    assert_eq!(normalize_whitespace(" \n\t ", false), " ");
}

#[test]
fn whitespace_preserved_is_unchanged() {
    assert_eq!(normalize_whitespace("a   \n  b", true), "a   \n  b");
}

#[test]
fn paragraphs_are_followed_by_spacers() {
    let lines = document_to_text("<p>Hello</p><p>World</p>");
    assert_eq!(lines.len(), 4);
    assert_eq!(line_text(&lines[0]), "Hello");
    assert!(lines[1].spacer && lines[1].segments.is_empty());
    assert_eq!(line_text(&lines[2]), "World");
    assert!(lines[3].spacer && lines[3].segments.is_empty());
}

#[test]
fn paragraph_tree_spacing() {
    let root = el("div", vec![el("p", vec![txt("Hello")]), el("p", vec![txt("World")])]);
    let lines = render(&root);
    assert_eq!(texts(&lines), vec!["Hello", "", "World", ""]);
    assert!(!lines[0].spacer && lines[1].spacer && !lines[2].spacer && lines[3].spacer);
}

#[test]
fn nested_lists_indent_by_depth() {
    let root = el(
        "ul",
        vec![el("li", vec![txt("A"), el("ul", vec![el("li", vec![txt("B")])])])],
    );
    let lines = render(&root);
    assert_eq!(lines.len(), 2);
    assert_eq!(lines[0].segments[0].text, "  • ");
    assert_eq!(lines[0].segments[1].text, "A");
    assert_eq!(lines[1].segments[0].text, "    • ");
    assert_eq!(lines[1].segments[1].text, "B");
    let indent_a = lines[0].segments[0].text.find('•').unwrap();
    let indent_b = lines[1].segments[0].text.find('•').unwrap();
    assert_eq!(indent_b, 2 * indent_a);
}

#[test]
fn nested_lists_document() {
    let lines = document_to_text("<ul><li>A<ul><li>B</li></ul></li></ul>");
    assert_eq!(texts(&lines), vec!["  • A", "    • B"]);
}

#[test]
fn list_depth_returns_after_inner_list() {
    let root = el(
        "ol",
        vec![
            el("li", vec![txt("one"), el("ol", vec![el("li", vec![txt("inner")])])]),
            el("li", vec![txt("two")]),
        ],
    );
    assert_eq!(texts(&render(&root)), vec!["  • one", "    • inner", "  • two"]);
}

#[test]
fn styles_accumulate() {
    let root = el("strong", vec![el("em", vec![txt("X")])]);
    let lines = render(&root);
    assert_eq!(lines.len(), 1);
    assert_eq!(lines[0].segments.len(), 1);
    let s = &lines[0].segments[0];
    assert_eq!(s.text, "X");
    assert!(s.bold && s.italic);
    assert!(!s.underline);
    assert_eq!(s.color, None);
}

#[test]
fn empty_input_gives_no_lines() {
    let root = el("div", vec![el("span", vec![]), el("b", vec![])]);
    assert!(render(&root).is_empty());
    assert!(document_to_text("").is_empty());
    assert!(document_to_text("<div><span></span></div>").is_empty());
}

#[test]
fn links_are_blue_and_underlined() {
    let lines = document_to_text("<a href=\"https://example.com\">text</a>");
    assert_eq!(lines.len(), 1);
    let s = &lines[0].segments[0];
    assert_eq!(s.text, "text");
    assert!(s.underline);
    assert_eq!(s.color, Some(Color::Blue));
}

#[test]
fn links_inside_headings_stay_blue() {
    let root = el("h1", vec![el("a", vec![txt("t")])]);
    let lines = render(&root);
    let s = &lines[0].segments[0];
    assert!(s.underline && s.bold);
    assert_eq!(s.color, Some(Color::Blue));
}

#[test]
fn headings_are_bold_yellow() {
    let lines = render(&el("h2", vec![txt("Title")]));
    assert_eq!(lines.len(), 2);
    let s = &lines[0].segments[0];
    assert!(s.bold);
    assert_eq!(s.color, Some(Color::Yellow));
    assert!(lines[1].spacer);
}

#[test]
fn rendering_twice_gives_the_same_lines() {
    let doc = "<h1>T</h1><p>a <b>b</b> <i>c</i></p><ul><li>x</li></ul><pre> p\n q</pre>";
    assert_eq!(document_to_text(doc), document_to_text(doc));
    let root = el("div", vec![el("p", vec![txt("a  b")]), el("pre", vec![txt("c\nd")])]);
    assert_eq!(render(&root), render(&root));
}

#[test]
fn no_text_is_lost() {
    let root = el(
        "article",
        vec![
            el("h1", vec![txt("  Big   title ")]),
            el("p", vec![txt("some "), el("em", vec![txt("emph\nasis")]), txt(" end")]),
            el("pre", vec![txt("  code\n\n  more\n")]),
            el("blockquote", vec![txt("quote"), el("br", vec![]), txt("after")]),
        ],
    );
    let out: String = render(&root).iter().map(line_text).collect();
    let input = "  Big   title some emph\nasis end  code\n\n  more\nquoteafter";
    assert_eq!(non_ws(&out), non_ws(input));
}

#[test]
fn inline_space_between_elements_is_kept() {
    let lines = document_to_text("<p><b>a</b> <i>b</i></p>");
    assert_eq!(texts(&lines), vec!["a b", ""]);
}

#[test]
fn whitespace_between_blocks_adds_no_line() {
    let lines = document_to_text("<div>one</div>\n  \n<div>two</div>");
    assert_eq!(texts(&lines), vec!["one", "two"]);
}

#[test]
fn line_break_ends_the_line() {
    let root = el("span", vec![txt("a"), el("br", vec![]), txt("b")]);
    assert_eq!(texts(&render(&root)), vec!["a", "b"]);
}

#[test]
fn trailing_inline_text_is_kept() {
    let root = el("span", vec![txt("tail")]);
    assert_eq!(texts(&render(&root)), vec!["tail"]);
}

#[test]
fn empty_preformatted_lines_are_dropped() {
    let root = el("pre", vec![txt("a\n\nb\n")]);
    let lines = render(&root);
    assert_eq!(texts(&lines), vec!["a", "b", ""]);
    assert!(lines[2].spacer);
}

#[test]
fn code_preserves_whitespace_in_green() {
    let root = el("p", vec![el("code", vec![txt("x  =  1")])]);
    let lines = render(&root);
    assert_eq!(lines[0].segments[0].text, "x  =  1");
    assert_eq!(lines[0].segments[0].color, Some(Color::Green));
}

#[test]
fn events_of_a_tree() {
    let root = el("p", vec![txt("a"), el("b", vec![])]);
    assert_eq!(
        events_of(&root),
        vec![
            MarkupEvent::Open("p".to_string()),
            MarkupEvent::Text("a".to_string()),
            MarkupEvent::Open("b".to_string()),
            MarkupEvent::Close,
            MarkupEvent::Close,
        ]
    );
}

#[test]
fn unbalanced_events_do_not_fail() {
    let events = vec![
        MarkupEvent::Close,
        MarkupEvent::Text("x".to_string()),
        MarkupEvent::Other,
        MarkupEvent::Open("p".to_string()),
        MarkupEvent::Text("y".to_string()),
    ];
    let lines = render_events(&events);
    assert_eq!(texts(&lines), vec!["x", "y"]);
}

#[test]
fn tag_names_classify() {
    assert_eq!(classify_tag("p"), Tag::P);
    assert_eq!(classify_tag("blockquote"), Tag::Blockquote);
    assert_eq!(classify_tag("h6"), Tag::H6);
    assert_eq!(classify_tag("span"), Tag::Other);
    assert_eq!(classify_tag("P"), Tag::Other);
    assert!(same_text("abc", "abc"));
    assert!(!same_text("abc", "abd"));
    assert!(!same_text("ab", "abc"));
}

#[test]
fn style_of_open_tags() {
    let s = resolve_style(&vec![Tag::A, Tag::H1]);
    assert_eq!(
        s,
        Style { bold: true, italic: false, underline: true, color: Some(Color::Yellow) }
    );
    let plain = resolve_style(&vec![Tag::Div, Tag::Other]);
    assert_eq!(plain, Style { bold: false, italic: false, underline: false, color: None });
    let u = resolve_style(&vec![Tag::U, Tag::I]);
    assert!(u.underline && u.italic && !u.bold);
}

#[test]
fn segment_fields() {
    let lines = render(&el("u", vec![txt("under")]));
    assert_eq!(
        lines[0].segments[0],
        StyledSegment {
            text: "under".to_string(),
            bold: false,
            italic: false,
            underline: true,
            color: None,
        }
    );
}

#[test]
fn preformatted_last_piece_continues_the_line() {
    let lines = document_to_text("<pre>a\nb<b>c</b></pre>");
    assert_eq!(texts(&lines), vec!["a", "bc", ""]);
    assert_eq!(lines[1].segments.len(), 2);
    assert_eq!(lines[1].segments[0].text, "b");
    assert_eq!(lines[1].segments[0].color, Some(Color::Green));
    assert_eq!(lines[1].segments[1].text, "c");
    assert!(lines[1].segments[1].bold);
    assert_eq!(lines[1].segments[1].color, Some(Color::Green));
    assert!(lines[2].spacer);
}

#[test]
fn preformatted_text_joins_the_line_before_it() {
    let root = el("pre", vec![el("i", vec![txt("x")]), txt("y\n  z"), txt("w")]);
    let lines = render(&root);
    assert_eq!(texts(&lines), vec!["xy", "  zw", ""]);
    assert_eq!(lines[1].segments.len(), 2);
    assert_eq!(lines[1].segments[0].text, "  z");
}
