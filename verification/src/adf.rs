//! The remote system's structured rich-text documents, as a tree.
//!
//! A document is a nested tree of typed nodes; only text leaves carry
//! prose. Extraction concatenates the text leaves in document order and
//! ignores every other node kind, so unknown future node types pass
//! through harmlessly. Outgoing comments are wrapped in the remote format's
//! minimal shape: one document, one paragraph, one text run.

use vstd::prelude::*;

verus! {

/// One node of a structured rich-text document: a text leaf, or a typed
/// branch holding child nodes in document order.
#[derive(Debug)]
pub enum AdfNode {
    Text(String),
    Branch { kind: String, children: Vec<AdfNode> },
}

/// The plain text of a document: its text leaves, concatenated in
/// document order.
pub open spec fn adf_text_of(n: AdfNode) -> Seq<char>
    decreases n,
{
    match n {
        AdfNode::Text(s) => s@,
        AdfNode::Branch { kind, children } => adf_texts_of(children@),
    }
}

/// The concatenated plain text of a sequence of nodes.
pub open spec fn adf_texts_of(s: Seq<AdfNode>) -> Seq<char>
    decreases s,
{
    if s.len() == 0 {
        Seq::empty()
    } else {
        adf_text_of(s[0]) + adf_texts_of(s.drop_first())
    }
}

/// Extract the plain-text description from a structured comment document.
pub fn extract_adf_text(adf: &AdfNode) -> (r: String)
    ensures
        r@ == adf_text_of(*adf),
    decreases *adf,
{
    match adf {
        AdfNode::Text(s) => s.clone(),
        AdfNode::Branch { kind: _, children } => {
            let n = children.len();
            let mut out = String::new();
            let mut i: usize = 0;
            proof {
                assert(children@.subrange(0, n as int) =~= children@);
            }
            while i < n
                invariant
                    n == children@.len(),
                    i <= n,
                    out@ + adf_texts_of(children@.subrange(i as int, n as int)) == adf_texts_of(
                        children@,
                    ),
                    children@ == adf->Branch_children@,
                    *adf matches AdfNode::Branch { kind: _, children: c } && c@ == children@,
                decreases n - i,
            {
                let ghost rest = children@.subrange(i as int, n as int);
                proof {
                    assert(rest.len() > 0);
                    assert(rest[0] == children@[i as int]);
                    assert(rest.drop_first() =~= children@.subrange(i + 1, n as int));
                }
                let piece = extract_adf_text(&children[i]);
                out = out.concat(piece.as_str());
                i = i + 1;
            }
            proof {
                assert(children@.subrange(n as int, n as int).len() == 0);
                assert(out@ + Seq::<char>::empty() =~= out@);
            }
            out
        },
    }
}

/// The wire shape of an outgoing comment: one document node holding one
/// paragraph node holding one text run.
pub open spec fn wrapped_comment_ok(r: AdfNode, text: Seq<char>) -> bool {
    &&& r matches AdfNode::Branch { kind: dk, children: dc }
    &&& r->Branch_kind@ == "doc"@
    &&& r->Branch_children@.len() == 1
    &&& r->Branch_children@[0] matches AdfNode::Branch { kind: pk, children: pc }
    &&& r->Branch_children@[0]->Branch_kind@ == "paragraph"@
    &&& r->Branch_children@[0]->Branch_children@.len() == 1
    &&& r->Branch_children@[0]->Branch_children@[0] matches AdfNode::Text(t) && t@ == text
}

/// Wrap a non-empty comment in the remote system's document format.
/// Round trip: extracting the text of the wrapped comment gives the
/// comment back.
pub fn wrap_comment(text: String) -> (r: AdfNode)
    ensures
        wrapped_comment_ok(r, text@),
        adf_text_of(r) == text@,
{
    let ghost text_view = text@;
    let leaf = AdfNode::Text(text);
    let mut para_children: Vec<AdfNode> = Vec::new();
    para_children.push(leaf);
    let para = AdfNode::Branch { kind: String::from_str("paragraph"), children: para_children };
    let mut doc_children: Vec<AdfNode> = Vec::new();
    doc_children.push(para);
    let doc = AdfNode::Branch { kind: String::from_str("doc"), children: doc_children };
    proof {
        reveal_with_fuel(adf_texts_of, 3);
        let pc = doc->Branch_children@[0]->Branch_children@;
        assert(pc.drop_first().len() == 0);
        assert(adf_texts_of(pc) == text_view + Seq::<char>::empty());
        assert(text_view + Seq::<char>::empty() =~= text_view);
        let dc = doc->Branch_children@;
        assert(dc.drop_first().len() == 0);
        assert(adf_texts_of(dc) == adf_text_of(dc[0]) + Seq::<char>::empty());
        assert(adf_text_of(dc[0]) + Seq::<char>::empty() =~= adf_text_of(dc[0]));
    }
    doc
}

} // verus!
