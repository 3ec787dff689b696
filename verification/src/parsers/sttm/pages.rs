//! The pages of a rendered document: where they stand in the markup tree,
//! and the text blocks that each one holds.

use crate::error::{DocumentFault, ExtractError, Failure};
use crate::markup::{
    child_by_tag, get_child_by_tag, normalize, normalized, Markup, MarkupElement, MarkupNode,
};
use crate::pattern::normalizer_ready;
use crate::sequence::{lemma_filter_start, lemma_filter_step};
use crate::text::{lemma_texts_push, texts};
use vstd::prelude::*;

verus! {

/// A page is an element that carries an identifier.
pub open spec fn is_page(node: MarkupNode) -> bool {
    node matches MarkupNode::Element(element) && element.id is Some
}

/// The pages among `nodes`, in order.
pub open spec fn pages(nodes: Seq<MarkupNode>) -> Seq<MarkupElement> {
    nodes.filter(|node: MarkupNode| is_page(node)).map_values(
        |node: MarkupNode| node->Element_0,
    )
}

/// The normalised text of each element among `children`, in order.
pub open spec fn block_texts(children: Seq<MarkupNode>) -> Seq<Seq<char>> {
    children.filter(|node: MarkupNode| node is Element).map_values(
        |node: MarkupNode| normalized(node),
    )
}

/// No pages stand among no nodes.
pub proof fn lemma_pages_start(nodes: Seq<MarkupNode>)
    ensures
        pages(nodes.take(0)) == Seq::<MarkupElement>::empty(),
{
    lemma_filter_start(nodes, |node: MarkupNode| is_page(node));
    assert(pages(nodes.take(0)) =~= Seq::<MarkupElement>::empty());
}

/// One node more gives one page more where the node is a page.
pub proof fn lemma_pages_step(nodes: Seq<MarkupNode>, i: int)
    requires
        0 <= i < nodes.len(),
    ensures
        pages(nodes.take(i + 1)) == if is_page(nodes[i]) {
            pages(nodes.take(i)).push(nodes[i]->Element_0)
        } else {
            pages(nodes.take(i))
        },
{
    lemma_filter_step(nodes, |node: MarkupNode| is_page(node), i);
    if is_page(nodes[i]) {
        assert(pages(nodes.take(i + 1)) =~= pages(nodes.take(i)).push(nodes[i]->Element_0));
    }
}

/// The `body` element of a document: the first `body` child of the first
/// `html` element at the top level.
pub open spec fn document_body(dom: Markup) -> Result<MarkupElement, Failure> {
    match child_by_tag(dom.children@, "html"@) {
        None => Err(Failure::MalformedDocument(DocumentFault::NoHtmlElement)),
        Some(html) => match child_by_tag(html.children@, "body"@) {
            None => Err(Failure::MalformedDocument(DocumentFault::NoBodyElement)),
            Some(body) => Ok(body),
        },
    }
}

/// Finds the `body` element of a document. Fails with `MalformedDocument`
/// where the `html` element or its `body` is absent.
pub fn find_body<'a>(dom: &'a Markup) -> (r: Result<&'a MarkupElement, ExtractError>)
    ensures
        r matches Ok(body) ==> document_body(*dom) == Ok::<MarkupElement, Failure>(*body),
        r matches Err(e) ==> document_body(*dom) == Err::<MarkupElement, Failure>(e@),
{
    match get_child_by_tag(&dom.children, "html") {
        None => Err(ExtractError::MalformedDocument(DocumentFault::NoHtmlElement)),
        Some(html) => match get_child_by_tag(&html.children, "body") {
            None => Err(ExtractError::MalformedDocument(DocumentFault::NoBodyElement)),
            Some(body) => Ok(body),
        },
    }
}

/// The page that `node` is, where it is one.
pub fn page_of<'a>(node: &'a MarkupNode) -> (r: Option<&'a MarkupElement>)
    ensures
        r is Some <==> is_page(*node),
        r matches Some(page) ==> *node == MarkupNode::Element(*page),
{
    match node {
        MarkupNode::Element(element) => {
            if element.id.is_some() {
                Some(element)
            } else {
                None
            }
        },
        _ => None,
    }
}

/// The normalised text of each child element of `page`, in order.
pub(crate) fn gather_blocks(page: &MarkupElement) -> (r: Vec<String>)
    requires
        normalizer_ready(),
    ensures
        texts(r@) == block_texts(page.children@),
{
    let mut out: Vec<String> = Vec::new();
    let mut i: usize = 0;
    proof {
        lemma_filter_start(page.children@, |node: MarkupNode| node is Element);
        assert(texts(out@) =~= block_texts(page.children@.take(0)));
    }
    while i < page.children.len()
        invariant
            i <= page.children.len(),
            normalizer_ready(),
            texts(out@) == block_texts(page.children@.take(i as int)),
        decreases page.children.len() - i,
    {
        proof {
            lemma_filter_step(page.children@, |node: MarkupNode| node is Element, i as int);
        }
        match &page.children[i] {
            MarkupNode::Element(_) => {
                let text = normalize(&page.children[i]);
                proof {
                    lemma_texts_push(out@, text);
                    assert(block_texts(page.children@.take(i + 1)) =~= block_texts(
                        page.children@.take(i as int),
                    ).push(text@));
                }
                out.push(text);
            },
            _ => {},
        }
        i += 1;
    }
    assert(page.children@.take(i as int) =~= page.children@);
    out
}

} // verus!
