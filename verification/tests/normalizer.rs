use aemo_automate::{
    get_child_by_tag, inner_text, setup_dom, DocumentFault, ExtractError, MarkupElement,
    MarkupNode,
};

fn text(s: &str) -> MarkupNode {
    MarkupNode::Text(s.to_string())
}

fn element(name: &str, children: Vec<MarkupNode>) -> MarkupNode {
    MarkupNode::Element(MarkupElement { id: None, name: name.to_string(), children })
}

#[test]
fn own_text_then_child_element_text() {
    let node = element("p", vec![text("A"), element("b", vec![text("B")])]);
    assert_eq!(inner_text(&node), Ok("AB".to_string()));
}

#[test]
fn own_text_comes_before_the_text_of_child_elements() {
    let node = element("p", vec![text("A"), element("b", vec![text("B")]), text("C")]);
    assert_eq!(inner_text(&node), Ok("ACB".to_string()));
}

#[test]
fn text_below_the_first_level_is_dropped() {
    let deep = element("i", vec![text("deep")]);
    let node = element("p", vec![text("A"), element("b", vec![text("B"), deep])]);
    assert_eq!(inner_text(&node), Ok("AB".to_string()));
}

#[test]
fn character_reference_becomes_one_space() {
    assert_eq!(inner_text(&text("x&#123;y")), Ok("x y".to_string()));
    assert_eq!(inner_text(&text("a&#160;b&#8226;c")), Ok("a b c".to_string()));
}

#[test]
fn character_reference_at_the_end_is_trimmed_away() {
    assert_eq!(inner_text(&text("value&#160;")), Ok("value".to_string()));
    assert_eq!(inner_text(&text("&#160;")), Ok(String::new()));
}

#[test]
fn line_breaks_become_spaces() {
    assert_eq!(inner_text(&text("a\nb")), Ok("a b".to_string()));
    let node = element("p", vec![text("one\n"), element("b", vec![text("two\nthree")])]);
    assert_eq!(inner_text(&node), Ok("one two three".to_string()));
}

#[test]
fn ends_are_trimmed() {
    assert_eq!(inner_text(&text("  \t hello world \n ")), Ok("hello world".to_string()));
}

#[test]
fn comment_and_empty_element_have_no_text() {
    assert_eq!(inner_text(&MarkupNode::Comment("note".to_string())), Ok(String::new()));
    assert_eq!(inner_text(&element("p", vec![])), Ok(String::new()));
    let node = element("p", vec![MarkupNode::Comment("note".to_string()), text("A")]);
    assert_eq!(inner_text(&node), Ok("A".to_string()));
}

#[test]
fn setup_dom_builds_the_tree() {
    let dom = setup_dom("<html><body><p id=\"x\">A<b>B</b></p></body></html>".to_string())
        .unwrap();
    assert_eq!(dom.children.len(), 1);
    let html = get_child_by_tag(&dom.children, "html").unwrap();
    assert_eq!(html.name, "html");
    assert_eq!(html.id, None);
    let body = get_child_by_tag(&html.children, "body").unwrap();
    assert_eq!(
        body.children,
        vec![MarkupNode::Element(MarkupElement {
            id: Some("x".to_string()),
            name: "p".to_string(),
            children: vec![text("A"), element("b", vec![text("B")])],
        })]
    );
    assert_eq!(inner_text(&body.children[0]), Ok("AB".to_string()));
}

#[test]
fn setup_dom_keeps_comments_and_drops_blank_text() {
    let dom = setup_dom("<div>  <!-- c -->  <span>t</span>  </div>".to_string()).unwrap();
    let div = get_child_by_tag(&dom.children, "div").unwrap();
    assert_eq!(
        div.children,
        vec![MarkupNode::Comment("c".to_string()), element("span", vec![text("t")])]
    );
}

#[test]
fn setup_dom_refuses_what_the_parser_refuses() {
    assert_eq!(
        setup_dom("<body></body>".to_string()),
        Err(ExtractError::MalformedDocument(DocumentFault::Unparsable))
    );
    assert_eq!(
        setup_dom("<!doctype html><html></html><html></html>".to_string()),
        Err(ExtractError::MalformedDocument(DocumentFault::Unparsable))
    );
}

#[test]
fn get_child_by_tag_takes_the_first_match() {
    let children = vec![
        text("html"),
        element("head", vec![]),
        element("body", vec![text("first")]),
        element("body", vec![text("second")]),
    ];
    let found = get_child_by_tag(&children, "body").unwrap();
    assert_eq!(found.children, vec![text("first")]);
    assert_eq!(get_child_by_tag(&children, "html"), None);
    assert_eq!(get_child_by_tag(&children, "Body"), None);
    assert_eq!(get_child_by_tag(&Vec::new(), "body"), None);
}

#[test]
fn normalised_text_is_trimmed_and_has_no_line_break() {
    let nodes = vec![
        text("\n a \n b \n"),
        text("&#10;\nx&#160;\n"),
        text("\n\n"),
        element("p", vec![text(" one\n"), element("b", vec![text("\ntwo \n")]), text("\n")]),
    ];
    for node in &nodes {
        let got = inner_text(node).unwrap();
        assert!(!got.contains('\n'), "{:?}", got);
        assert_eq!(got, got.trim());
    }
}
