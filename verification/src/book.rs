//! The tree walker: a hierarchy of documents, each with a text payload,
//! an optional location (its path segments from the tree root), and
//! nested child documents. The walker rewrites every document's text in
//! place, depth first, parents before children, and collects the render
//! requests of the whole tree in traversal order.

use vstd::prelude::*;
use crate::paths::{spec_location_depth, location_depth};
use crate::render::{RenderRequest, RenderRequestV};
use crate::rewrite::{spec_rewrite_from, spec_requests_from, rewrite_content, requests_view};

verus! {

/// A node of the document tree. `location`, when present, is the
/// document's path from the tree root, split into segments; the last
/// segment is the file name itself. A document without a location is
/// synthetic and sits at the root.
pub struct Document {
    pub content: Vec<u8>,
    pub location: Option<Vec<Vec<u8>>>,
    pub children: Vec<Document>,
}

/// The size of a document's subtree, counting the document itself.
pub open spec fn doc_count(d: Document) -> nat
    decreases d,
{
    1 + docs_count(d.children, d.children.len() as int)
}

/// The sizes of the first `n` subtrees of `v`, summed.
pub open spec fn docs_count(v: Vec<Document>, n: int) -> nat
    decreases v, n,
{
    if n <= 0 || n > v.len() {
        0
    } else {
        docs_count(v, n - 1) + doc_count(v[n - 1])
    }
}

/// A child's subtree is no larger than the sum over the children.
proof fn lemma_doc_count_child(v: Vec<Document>, k: int, n: int)
    requires
        0 <= k < n <= v.len(),
    ensures
        doc_count(v[k]) <= docs_count(v, n),
    decreases n,
{
    if k < n - 1 {
        lemma_doc_count_child(v, k, n - 1);
    }
}

/// The render requests of a document's subtree: the document's own
/// occurrences first, then its children's, left to right.
pub open spec fn doc_requests(d: Document) -> Seq<RenderRequestV>
    decreases d,
{
    spec_requests_from(d.content@, 0) + docs_requests(d.children, d.children.len() as int)
}

/// The render requests of the first `n` documents of `v`, in order.
pub open spec fn docs_requests(v: Vec<Document>, n: int) -> Seq<RenderRequestV>
    decreases v, n,
{
    if n <= 0 || n > v.len() {
        Seq::empty()
    } else {
        docs_requests(v, n - 1) + doc_requests(v[n - 1])
    }
}

/// `after` is `before` with its text rewritten for its own depth under
/// cache directory `dir`, its location kept, and every child rewritten
/// the same way.
pub open spec fn doc_rewritten(before: Document, after: Document, dir: Seq<u8>) -> bool
    decreases before,
{
    &&& after.content@ == spec_rewrite_from(
        before.content@,
        0,
        spec_location_depth(before.location),
        dir,
    )
    &&& after.location.deep_view() == before.location.deep_view()
    &&& after.children.len() == before.children.len()
    &&& docs_rewritten(before.children, after.children, before.children.len() as int, dir)
}

/// The first `n` documents of `a` are the first `n` documents of `b`,
/// rewritten.
pub open spec fn docs_rewritten(b: Vec<Document>, a: Vec<Document>, n: int, dir: Seq<u8>) -> bool
    decreases b, n,
{
    if n <= 0 || n > b.len() || n > a.len() {
        true
    } else {
        docs_rewritten(b, a, n - 1, dir) && doc_rewritten(b[n - 1], a[n - 1], dir)
    }
}

/// `docs_rewritten` only looks at the first `n` entries of `a`: entries
/// pushed behind them do not disturb it.
proof fn lemma_docs_rewritten_grow(
    b: Vec<Document>,
    a1: Vec<Document>,
    a2: Vec<Document>,
    n: int,
    dir: Seq<u8>,
)
    requires
        docs_rewritten(b, a1, n, dir),
        n <= a1.len() <= a2.len(),
        forall|j: int| 0 <= j < n ==> a2[j] == a1[j],
    ensures
        docs_rewritten(b, a2, n, dir),
    decreases n,
{
    if 0 < n <= b.len() {
        lemma_docs_rewritten_grow(b, a1, a2, n - 1, dir);
    }
}

/// Copies a byte vector.
fn clone_bytes(v: &Vec<u8>) -> (r: Vec<u8>)
    ensures
        r@ == v@,
{
    proof {
        assert(v@.subrange(0, v@.len() as int) =~= v@);
    }
    crate::paths::copy_range(v, 0, v.len())
}

/// Copies a document location.
fn clone_location(loc: &Option<Vec<Vec<u8>>>) -> (r: Option<Vec<Vec<u8>>>)
    ensures
        r.deep_view() == loc.deep_view(),
        spec_location_depth(r) == spec_location_depth(*loc),
{
    match loc {
        None => None,
        Some(segs) => {
            let mut out: Vec<Vec<u8>> = Vec::new();
            let mut i: usize = 0;
            while i < segs.len()
                invariant
                    out@.len() == i <= segs@.len(),
                    forall|j: int| 0 <= j < i ==> out@[j]@ == segs@[j]@,
                decreases segs@.len() - i,
            {
                out.push(clone_bytes(&segs[i]));
                i = i + 1;
            }
            proof {
                assert(out.deep_view() =~~= segs.deep_view());
            }
            Some(out)
        },
    }
}

/// Rewrites one document and its whole subtree, appending the subtree's
/// render requests, in traversal order, to `reqs`.
pub fn process_document(d: &Document, result_dir: &Vec<u8>, reqs: &mut Vec<RenderRequest>) -> (out:
    Document)
    ensures
        doc_rewritten(*d, out, result_dir@),
        requests_view(final(reqs)@) == requests_view(old(reqs)@) + doc_requests(*d),
    decreases doc_count(*d),
{
    let depth = location_depth(&d.location);
    let (new_content, mut my_reqs) = rewrite_content(&d.content, depth, result_dir);
    reqs.append(&mut my_reqs);
    let ghost reqs_base = reqs@;
    proof {
        assert(requests_view(reqs_base) =~= requests_view(old(reqs)@) + spec_requests_from(
            d.content@,
            0,
        ));
    }
    let mut new_children: Vec<Document> = Vec::new();
    let mut i: usize = 0;
    while i < d.children.len()
        invariant
            i == new_children@.len() <= d.children@.len(),
            docs_rewritten(d.children, new_children, i as int, result_dir@),
            requests_view(reqs@) == requests_view(reqs_base) + docs_requests(
                d.children,
                i as int,
            ),
        decreases d.children@.len() - i,
    {
        let ghost k = i as int;
        let ghost nc_pre: Vec<Document> = new_children;
        proof {
            lemma_doc_count_child(d.children, k, d.children.len() as int);
        }
        let pc = process_document(&d.children[i], result_dir, reqs);
        new_children.push(pc);
        proof {
            lemma_docs_rewritten_grow(d.children, nc_pre, new_children, k, result_dir@);
            assert(docs_rewritten(d.children, new_children, k + 1, result_dir@));
            assert(requests_view(reqs@) =~= requests_view(reqs_base) + docs_requests(
                d.children,
                k + 1,
            ));
        }
        i = i + 1;
    }
    let out = Document {
        content: new_content,
        location: clone_location(&d.location),
        children: new_children,
    };
    proof {
        assert(doc_rewritten(*d, out, result_dir@));
        assert(requests_view(reqs@) =~= requests_view(old(reqs)@) + doc_requests(*d));
    }
    out
}

/// The stage itself: rewrites every document of a tree.
pub struct DrawioPreprocessor;

impl DrawioPreprocessor {
    /// The stage's name.
    pub fn name(&self) -> (r: &'static str)
        ensures
            r@ == "mdbook-drawio"@,
    {
        "mdbook-drawio"
    }

    /// The stage works under every renderer.
    pub fn supports_renderer(&self, renderer: &str) -> (r: bool)
        ensures
            r,
    {
        true
    }

    /// Walks the whole document tree depth first, parents before
    /// children, rewriting every document's text for its own depth, and
    /// returns the rewritten tree together with all render requests in
    /// traversal order.
    pub fn run(&self, result_dir: &Vec<u8>, sections: &Vec<Document>) -> (r: (
        Vec<Document>,
        Vec<RenderRequest>,
    ))
        ensures
            r.0@.len() == sections@.len(),
            docs_rewritten(*sections, r.0, sections@.len() as int, result_dir@),
            requests_view(r.1@) == docs_requests(*sections, sections@.len() as int),
    {
        let mut reqs: Vec<RenderRequest> = Vec::new();
        let mut out: Vec<Document> = Vec::new();
        proof {
            assert(requests_view(reqs@) =~= Seq::<RenderRequestV>::empty());
        }
        let mut i: usize = 0;
        while i < sections.len()
            invariant
                i == out@.len() <= sections@.len(),
                docs_rewritten(*sections, out, i as int, result_dir@),
                requests_view(reqs@) == docs_requests(*sections, i as int),
            decreases sections@.len() - i,
        {
            let ghost k = i as int;
            let ghost out_pre: Vec<Document> = out;
            let pc = process_document(&sections[i], result_dir, &mut reqs);
            out.push(pc);
            proof {
                lemma_docs_rewritten_grow(*sections, out_pre, out, k, result_dir@);
                assert(docs_rewritten(*sections, out, k + 1, result_dir@));
                assert(requests_view(reqs@) =~= docs_requests(*sections, k + 1));
            }
            i = i + 1;
        }
        (out, reqs)
    }
}

} // verus!
