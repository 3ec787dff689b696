//! The markup tree, its loader, and the text normaliser.
//!
//! The tree keeps of each parsed node what extraction reads: the text of a
//! text node, and the name, the identifier and the children of an element.

use crate::error::{DocumentFault, ExtractError, Failure};
use crate::pattern::{
    normalizer_accepted, normalizer_ready, pattern_replaced, replace_all, CHARACTER_REFERENCE,
    LINE_BREAK,
};
use crate::sequence::{lemma_flat_map_start, lemma_flat_map_step};
use crate::text::{is_whitespace, lemma_trimmed_is_tight, same_text, trim, trimmed};
use vstd::prelude::*;
use vstd::string::StringExecFns;

verus! {

/// A node of the markup tree.
#[derive(Debug, PartialEq, Eq)]
pub enum MarkupNode {
    Text(String),
    Element(MarkupElement),
    Comment(String),
}

/// An element: its identifier where it carries one, its tag name, and its
/// child nodes in document order.
#[derive(Debug, PartialEq, Eq)]
pub struct MarkupElement {
    pub id: Option<String>,
    pub name: String,
    pub children: Vec<MarkupNode>,
}

/// A parsed document: the nodes at its top level.
#[derive(Debug, PartialEq, Eq)]
pub struct Markup {
    pub children: Vec<MarkupNode>,
}

/// A node of the tree that `html_parser` builds. The proofs see nothing
/// inside it.
#[verifier::external_type_specification]
#[verifier::external_body]
pub struct ExParsedNode(html_parser::Node);

/// Copies a node of `html_parser`'s tree, and the nodes below it, into the
/// library's tree: the text of a text node or comment, and of an element its
/// `id`, `name` and `children`. Makes no call into the parser; nothing is
/// claimed of the result.
#[verifier::external_body]
fn convert_node(node: &html_parser::Node) -> MarkupNode {
    match node {
        html_parser::Node::Text(text) => MarkupNode::Text(text.clone()),
        html_parser::Node::Element(element) => MarkupNode::Element(
            MarkupElement {
                id: element.id.clone(),
                name: element.name.clone(),
                children: element.children.iter().map(convert_node).collect(),
            },
        ),
        html_parser::Node::Comment(text) => MarkupNode::Comment(text.clone()),
    }
}

/// Calls `html_parser::Dom::parse` and copies the top-level nodes of the
/// tree it returns; `None` where it returns an error. The parser gives up
/// where the stack of the calling thread runs short, and at a limit on its
/// calls that is set for the whole process, so its answer is no function of
/// the markup text: nothing is claimed of it.
#[verifier::external_body]
fn parse_markup(html: &str) -> Option<Markup> {
    match html_parser::Dom::parse(html) {
        Ok(dom) => Some(Markup { children: dom.children.iter().map(convert_node).collect() }),
        Err(_) => None,
    }
}

/// The text of a text node; nothing for any other node.
pub open spec fn direct_text(node: MarkupNode) -> Seq<char> {
    match node {
        MarkupNode::Text(text) => text@,
        _ => Seq::empty(),
    }
}

/// The texts of the text nodes among `nodes`, joined in order.
pub open spec fn joined_text(nodes: Seq<MarkupNode>) -> Seq<char> {
    nodes.flat_map(|node: MarkupNode| direct_text(node))
}

/// What a node holds as text of its own: a text node its text, an element
/// the joined texts of its text children.
pub open spec fn own_text(node: MarkupNode) -> Seq<char> {
    match node {
        MarkupNode::Text(text) => text@,
        MarkupNode::Element(element) => joined_text(element.children@),
        MarkupNode::Comment(_) => Seq::empty(),
    }
}

/// The own text of an element; nothing for any other node.
pub open spec fn element_text(node: MarkupNode) -> Seq<char> {
    match node {
        MarkupNode::Element(element) => joined_text(element.children@),
        _ => Seq::empty(),
    }
}

/// The own texts of the elements among `nodes`, joined in order.
pub open spec fn nested_text(nodes: Seq<MarkupNode>) -> Seq<char> {
    nodes.flat_map(|node: MarkupNode| element_text(node))
}

/// The visible text of a node before cleaning: its own text, then the own
/// text of each child element. Text that lies deeper is left out.
pub open spec fn raw_text(node: MarkupNode) -> Seq<char> {
    match node {
        MarkupNode::Element(element) => own_text(node) + nested_text(element.children@),
        _ => own_text(node),
    }
}

/// A raw text with every character reference and every line break replaced
/// by one space, trimmed after each of the two replacements.
pub open spec fn cleaned(text: Seq<char>) -> Seq<char> {
    let unescaped = trimmed(pattern_replaced(CHARACTER_REFERENCE@, text, " "@));
    trimmed(pattern_replaced(LINE_BREAK@, unescaped, " "@))
}

/// The normalised text of a node.
pub open spec fn normalized(node: MarkupNode) -> Seq<char> {
    cleaned(raw_text(node))
}

/// A normalised text neither begins nor ends with whitespace, and
/// trimming it changes nothing.
pub proof fn lemma_normalized_is_trimmed(node: MarkupNode)
    ensures
        normalized(node).len() > 0 ==> !is_whitespace(normalized(node)[0]) && !is_whitespace(
            normalized(node).last(),
        ),
        trimmed(normalized(node)) == normalized(node),
{
    let unescaped = trimmed(pattern_replaced(CHARACTER_REFERENCE@, raw_text(node), " "@));
    lemma_trimmed_is_tight(pattern_replaced(LINE_BREAK@, unescaped, " "@));
}

/// Whether `node` is an element with the tag name `tag`.
pub open spec fn is_named(node: MarkupNode, tag: Seq<char>) -> bool {
    node matches MarkupNode::Element(element) && element.name@ == tag
}

/// The first element among `children` whose tag name is `tag`.
pub open spec fn child_by_tag(children: Seq<MarkupNode>, tag: Seq<char>) -> Option<MarkupElement>
    decreases children.len(),
{
    if children.len() == 0 {
        None
    } else if is_named(children[0], tag) {
        Some(children[0]->Element_0)
    } else {
        child_by_tag(children.drop_first(), tag)
    }
}

/// Parses a markup text into a tree. Whether the parser takes the text is
/// for the parser to say; where it does not, the failure is
/// `MalformedDocument`, and there is no other.
pub fn setup_dom(html: String) -> (r: Result<Markup, ExtractError>)
    ensures
        r matches Err(e) ==> e@ == Failure::MalformedDocument(DocumentFault::Unparsable),
{
    match parse_markup(html.as_str()) {
        Some(dom) => Ok(dom),
        None => Err(ExtractError::MalformedDocument(DocumentFault::Unparsable)),
    }
}

/// The first element among `children` whose tag name is `tag`.
pub fn get_child_by_tag<'a>(children: &'a Vec<MarkupNode>, tag: &str) -> (r: Option<&'a MarkupElement>)
    ensures
        r matches Some(element) ==> child_by_tag(children@, tag@) == Some(*element),
        r is None ==> child_by_tag(children@, tag@) is None,
{
    let mut i: usize = 0;
    assert(children@.skip(0) =~= children@);
    while i < children.len()
        invariant
            i <= children.len(),
            child_by_tag(children@, tag@) == child_by_tag(children@.skip(i as int), tag@),
        decreases children.len() - i,
    {
        assert(children@.skip(i as int).drop_first() =~= children@.skip(i + 1));
        match &children[i] {
            MarkupNode::Element(element) => {
                if same_text(element.name.as_str(), tag) {
                    return Some(element);
                }
            },
            _ => {},
        }
        i += 1;
    }
    None
}

/// Appends to `text` the texts of the text nodes among `nodes`.
fn append_direct_text(text: &mut String, nodes: &Vec<MarkupNode>)
    ensures
        final(text)@ == old(text)@ + joined_text(nodes@),
{
    let mut i: usize = 0;
    proof {
        lemma_flat_map_start(nodes@, |node: MarkupNode| direct_text(node));
    }
    while i < nodes.len()
        invariant
            i <= nodes.len(),
            text@ == old(text)@ + joined_text(nodes@.take(i as int)),
        decreases nodes.len() - i,
    {
        proof {
            lemma_flat_map_step(nodes@, |node: MarkupNode| direct_text(node), i as int);
        }
        match &nodes[i] {
            MarkupNode::Text(piece) => {
                text.append(piece.as_str());
            },
            _ => {},
        }
        i += 1;
    }
    assert(nodes@.take(i as int) =~= nodes@);
}

/// The visible text of `node` before cleaning.
pub fn dig(node: &MarkupNode) -> (text: String)
    ensures
        text@ == raw_text(*node),
{
    match node {
        MarkupNode::Text(piece) => piece.clone(),
        MarkupNode::Comment(_) => String::new(),
        MarkupNode::Element(element) => {
            let mut text = String::new();
            append_direct_text(&mut text, &element.children);
            let mut i: usize = 0;
            proof {
                lemma_flat_map_start(element.children@, |node: MarkupNode| element_text(node));
            }
            while i < element.children.len()
                invariant
                    i <= element.children.len(),
                    text@ == joined_text(element.children@) + nested_text(
                        element.children@.take(i as int),
                    ),
                decreases element.children.len() - i,
            {
                proof {
                    lemma_flat_map_step(
                        element.children@,
                        |node: MarkupNode| element_text(node),
                        i as int,
                    );
                }
                match &element.children[i] {
                    MarkupNode::Element(child) => {
                        append_direct_text(&mut text, &child.children);
                    },
                    _ => {},
                }
                i += 1;
            }
            assert(element.children@.take(i as int) =~= element.children@);
            text
        },
    }
}

/// Cleans a raw text: character references and line breaks become single
/// spaces, and the ends are trimmed.
pub(crate) fn clean(text: &str) -> (r: String)
    requires
        normalizer_ready(),
    ensures
        r@ == cleaned(text@),
{
    let unescaped = replace_all(CHARACTER_REFERENCE, text, " ").unwrap();
    let unescaped = trim(unescaped.as_str());
    let unbroken = replace_all(LINE_BREAK, unescaped.as_str(), " ").unwrap();
    trim(unbroken.as_str())
}

/// The normalised text of `node`, where the patterns are known to be
/// accepted.
pub(crate) fn normalize(node: &MarkupNode) -> (r: String)
    requires
        normalizer_ready(),
    ensures
        r@ == normalized(*node),
{
    let raw = dig(node);
    clean(raw.as_str())
}

/// The normalised text of `node`: its own text and that of its child
/// elements, cleaned. Fails only where the regular-expression engine refuses
/// a pattern of the normaliser.
pub fn inner_text(node: &MarkupNode) -> (r: Result<String, ExtractError>)
    ensures
        normalizer_ready() ==> (r matches Ok(text) && text@ == normalized(*node)),
        !normalizer_ready() ==> (r matches Err(e) && e@ == Failure::PatternRejected),
{
    if !normalizer_accepted() {
        return Err(ExtractError::PatternRejected);
    }
    Ok(normalize(node))
}

} // verus!
