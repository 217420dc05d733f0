//! The directive rewriter: replaces every directive occurrence of a
//! document's text by image-embedding markup pointing at the occurrence's
//! cache artifact, leaves all other text byte for byte, and reports the
//! render requests the occurrences give rise to.

use vstd::prelude::*;
use crate::grammar::{
    match_at, try_match, DirectiveMatch, lemma_match_end_bounds, brace_free, LBRACE,
    lemma_match_open_close, lemma_brace_free_no_match,
};
use crate::paths::{
    spec_link, spec_artifact_name, stem_of, last_component, artifact_name, build_link,
    extend_bytes, link_prefix, ups, dec_digits, cur_prefix, up_step, page_infix, svg_suffix,
};
use crate::render::{RenderRequest, RenderRequestV};

verus! {

/// The byte string `![Diagram not found at `.
pub open spec fn alt_prefix() -> Seq<u8> {
    seq![33u8, 91u8, 68u8, 105u8, 97u8, 103u8, 114u8, 97u8, 109u8, 32u8, 110u8, 111u8, 116u8, 32u8, 102u8, 111u8, 117u8, 110u8, 100u8, 32u8, 97u8, 116u8, 32u8]
}

pub fn alt_prefix_vec() -> (v: Vec<u8>)
    ensures
        v@ == alt_prefix(),
{
    let mut v: Vec<u8> = Vec::new();
    v.push(33);
    v.push(91);
    v.push(68);
    v.push(105);
    v.push(97);
    v.push(103);
    v.push(114);
    v.push(97);
    v.push(109);
    v.push(32);
    v.push(110);
    v.push(111);
    v.push(116);
    v.push(32);
    v.push(102);
    v.push(111);
    v.push(117);
    v.push(110);
    v.push(100);
    v.push(32);
    v.push(97);
    v.push(116);
    v.push(32);
    proof {
        assert(v@ =~= alt_prefix());
    }
    v
}

/// The byte string `](`.
pub open spec fn link_mid() -> Seq<u8> {
    seq![93u8, 40u8]
}

pub fn link_mid_vec() -> (v: Vec<u8>)
    ensures
        v@ == link_mid(),
{
    let mut v: Vec<u8> = Vec::new();
    v.push(93);
    v.push(40);
    proof {
        assert(v@ =~= link_mid());
    }
    v
}

/// The byte string `)`.
pub open spec fn link_close() -> Seq<u8> {
    seq![41u8]
}

pub fn link_close_vec() -> (v: Vec<u8>)
    ensures
        v@ == link_close(),
{
    let mut v: Vec<u8> = Vec::new();
    v.push(41);
    proof {
        assert(v@ =~= link_close());
    }
    v
}


/// The image-embedding markup for one artifact link: its visible text
/// names the artifact the build expects, so a failed rendering shows as
/// a recognizable broken image rather than aborting the build.
pub open spec fn spec_snippet(link: Seq<u8>) -> Seq<u8> {
    alt_prefix() + link + link_mid() + link + link_close()
}

/// The artifact file name an occurrence resolves to.
pub open spec fn artifact_of(m: DirectiveMatch) -> Seq<u8> {
    spec_artifact_name(stem_of(last_component(m.path)), m.page)
}

/// The replacement text for one occurrence in a document at `depth`
/// with cache directory `dir`.
pub open spec fn replacement_text(m: DirectiveMatch, depth: nat, dir: Seq<u8>) -> Seq<u8> {
    spec_snippet(spec_link(depth, dir, artifact_of(m)))
}

/// The render request one occurrence gives rise to.
pub open spec fn request_of(m: DirectiveMatch) -> RenderRequestV {
    RenderRequestV { source: m.path, page: m.page, artifact: artifact_of(m) }
}

/// The rewritten text from position `i` on: a directive occurrence is
/// replaced and skipped whole, any other byte is kept, scanning left to
/// right.
pub open spec fn spec_rewrite_from(s: Seq<u8>, i: int, depth: nat, dir: Seq<u8>) -> Seq<u8>
    decreases s.len() - i,
    via spec_rewrite_from_dec
{
    if i < 0 || i >= s.len() {
        Seq::empty()
    } else {
        match match_at(s, i) {
            Some(m) => replacement_text(m, depth, dir) + spec_rewrite_from(s, m.end, depth, dir),
            None => seq![s[i]] + spec_rewrite_from(s, i + 1, depth, dir),
        }
    }
}

#[via_fn]
proof fn spec_rewrite_from_dec(s: Seq<u8>, i: int, depth: nat, dir: Seq<u8>) {
    if 0 <= i < s.len() && match_at(s, i) is Some {
        lemma_match_end_bounds(s, i);
    }
}

/// The render requests of the occurrences from position `i` on, in
/// text order.
pub open spec fn spec_requests_from(s: Seq<u8>, i: int) -> Seq<RenderRequestV>
    decreases s.len() - i,
    via spec_requests_from_dec
{
    if i < 0 || i >= s.len() {
        Seq::empty()
    } else {
        match match_at(s, i) {
            Some(m) => seq![request_of(m)] + spec_requests_from(s, m.end),
            None => spec_requests_from(s, i + 1),
        }
    }
}

#[via_fn]
proof fn spec_requests_from_dec(s: Seq<u8>, i: int) {
    if 0 <= i < s.len() && match_at(s, i) is Some {
        lemma_match_end_bounds(s, i);
    }
}

/// The views of a request vector's entries.
pub open spec fn requests_view(rs: Seq<RenderRequest>) -> Seq<RenderRequestV> {
    rs.map_values(|r: RenderRequest| r@)
}

/// Rewrites one document text: every directive occurrence becomes the
/// image markup for its artifact's relative link, everything else is
/// kept byte for byte; the occurrences' render requests come back in
/// text order.
pub fn rewrite_content(content: &Vec<u8>, depth: usize, result_dir: &Vec<u8>) -> (r: (
    Vec<u8>,
    Vec<RenderRequest>,
))
    ensures
        r.0@ == spec_rewrite_from(content@, 0, depth as nat, result_dir@),
        requests_view(r.1@) == spec_requests_from(content@, 0),
{
    let mut out: Vec<u8> = Vec::new();
    let mut reqs: Vec<RenderRequest> = Vec::new();
    let mut i: usize = 0;
    proof {
        assert(out@ + spec_rewrite_from(content@, 0, depth as nat, result_dir@)
            =~= spec_rewrite_from(content@, 0, depth as nat, result_dir@));
        assert(requests_view(reqs@) + spec_requests_from(content@, 0) =~= spec_requests_from(
            content@,
            0,
        ));
    }
    while i < content.len()
        invariant
            i <= content@.len(),
            spec_rewrite_from(content@, 0, depth as nat, result_dir@) == out@
                + spec_rewrite_from(content@, i as int, depth as nat, result_dir@),
            spec_requests_from(content@, 0) == requests_view(reqs@) + spec_requests_from(
                content@,
                i as int,
            ),
        decreases content@.len() - i,
    {
        let ghost out_pre = out@;
        let ghost reqs_pre = reqs@;
        match try_match(content, i) {
            None => {
                out.push(content[i]);
                proof {
                    assert(out@ + spec_rewrite_from(content@, i + 1, depth as nat, result_dir@)
                        =~= out_pre + spec_rewrite_from(
                        content@,
                        i as int,
                        depth as nat,
                        result_dir@,
                    ));
                }
                i = i + 1;
            },
            Some(d) => {
                let ghost m = DirectiveMatch { end: d.end as int, path: d.path@, page: d.page as nat };
                let art = artifact_name(&d.path, d.page);
                let link = build_link(depth, result_dir, &art);
                let alt = alt_prefix_vec();
                extend_bytes(&mut out, &alt);
                extend_bytes(&mut out, &link);
                let mid = link_mid_vec();
                extend_bytes(&mut out, &mid);
                extend_bytes(&mut out, &link);
                let close = link_close_vec();
                extend_bytes(&mut out, &close);
                let req = RenderRequest { source: d.path, page: d.page, artifact: art };
                reqs.push(req);
                proof {
                    assert(out@ =~= out_pre + replacement_text(m, depth as nat, result_dir@));
                    assert(out@ + spec_rewrite_from(content@, m.end, depth as nat, result_dir@)
                        =~= out_pre + spec_rewrite_from(
                        content@,
                        i as int,
                        depth as nat,
                        result_dir@,
                    ));
                    assert(requests_view(reqs@) =~= requests_view(reqs_pre).push(request_of(m)));
                    assert(requests_view(reqs@) + spec_requests_from(content@, m.end)
                        =~= requests_view(reqs_pre) + spec_requests_from(content@, i as int));
                }
                i = d.end;
            },
        }
    }
    proof {
        assert(spec_rewrite_from(content@, i as int, depth as nat, result_dir@) == Seq::<
            u8,
        >::empty());
        assert(out@ + Seq::<u8>::empty() =~= out@);
        assert(spec_requests_from(content@, i as int) == Seq::<RenderRequestV>::empty());
        assert(requests_view(reqs@) + Seq::<RenderRequestV>::empty() =~= requests_view(reqs@));
    }
    (out, reqs)
}

/// Text in which no position begins a directive occurrence — malformed
/// directive-like text included — is rewritten to itself, from `i` on.
pub proof fn lemma_rewrite_tail_identity(s: Seq<u8>, i: int, depth: nat, dir: Seq<u8>)
    requires
        0 <= i <= s.len(),
        forall|p: int| i <= p < s.len() ==> match_at(s, p) is None,
    ensures
        spec_rewrite_from(s, i, depth, dir) == s.subrange(i, s.len() as int),
        spec_requests_from(s, i) == Seq::<RenderRequestV>::empty(),
    decreases s.len() - i,
{
    if i >= s.len() {
        assert(s.subrange(i, s.len() as int) =~= Seq::<u8>::empty());
    } else {
        lemma_rewrite_tail_identity(s, i + 1, depth, dir);
        assert(seq![s[i]] + s.subrange(i + 1, s.len() as int) =~= s.subrange(i, s.len() as int));
    }
}

/// A text without any directive occurrence — malformed directive-like
/// text included — is left unchanged and requests no rendering.
pub proof fn lemma_no_occurrence_no_change(s: Seq<u8>, depth: nat, dir: Seq<u8>)
    requires
        forall|p: int| 0 <= p < s.len() ==> match_at(s, p) is None,
    ensures
        spec_rewrite_from(s, 0, depth, dir) == s,
        spec_requests_from(s, 0) == Seq::<RenderRequestV>::empty(),
{
    lemma_rewrite_tail_identity(s, 0, depth, dir);
    assert(s.subrange(0, s.len() as int) =~= s);
}


/// Every opening brace of `s` begins an occurrence, or directly follows
/// the brace that begins one.
pub open spec fn braces_only_open_occurrences(s: Seq<u8>) -> bool {
    forall|p: int|
        #![trigger s[p]]
        (0 <= p < s.len() && s[p] == LBRACE && match_at(s, p) is None) ==> (p > 0 && match_at(
            s,
            p - 1,
        ) is Some)
}

/// No occurrence of `s` carries an opening brace in its path.
pub open spec fn matched_paths_brace_free(s: Seq<u8>) -> bool {
    forall|p: int|
        #![trigger match_at(s, p)]
        match_at(s, p) matches Some(m) ==> brace_free(m.path)
}

proof fn lemma_brace_free_concat(a: Seq<u8>, b: Seq<u8>)
    requires
        brace_free(a),
        brace_free(b),
    ensures
        brace_free(a + b),
{
    assert forall|j: int| 0 <= j < (a + b).len() implies (a + b)[j] != LBRACE by {
        if j < a.len() {
            assert((a + b)[j] == a[j]);
        } else {
            assert((a + b)[j] == b[j - a.len()]);
        }
    }
}

proof fn lemma_ups_brace_free(depth: nat)
    ensures
        brace_free(ups(depth)),
    decreases depth,
{
    if depth > 0 {
        lemma_ups_brace_free((depth - 1) as nat);
        lemma_brace_free_concat(ups((depth - 1) as nat), up_step());
    }
}

proof fn lemma_dec_digits_brace_free(n: nat)
    ensures
        brace_free(dec_digits(n)),
    decreases n,
{
    if n >= 10 {
        lemma_dec_digits_brace_free(n / 10);
    }
}

proof fn lemma_last_component_brace_free(p: Seq<u8>)
    requires
        brace_free(p),
    ensures
        brace_free(last_component(p)),
    decreases p.len(),
{
    if p.len() > 0 && p[p.len() - 1] != 47 {
        lemma_last_component_brace_free(p.drop_last());
    }
}

/// A replacement snippet built from a brace-free path and a brace-free
/// cache directory holds no opening brace.
proof fn lemma_replacement_brace_free(m: DirectiveMatch, depth: nat, dir: Seq<u8>)
    requires
        brace_free(m.path),
        brace_free(dir),
    ensures
        brace_free(replacement_text(m, depth, dir)),
{
    lemma_last_component_brace_free(m.path);
    let name = last_component(m.path);
    crate::paths::lemma_last_dot_range(name);
    assert forall|j: int| 0 <= j < stem_of(name).len() implies stem_of(name)[j] != LBRACE by {
        assert(stem_of(name)[j] == name[j]);
    }
    assert(brace_free(stem_of(name)));
    lemma_dec_digits_brace_free(m.page);
    assert(brace_free(page_infix()));
    assert(brace_free(svg_suffix()));
    lemma_brace_free_concat(stem_of(name), page_infix());
    lemma_brace_free_concat(stem_of(name) + page_infix(), dec_digits(m.page));
    lemma_brace_free_concat(stem_of(name) + page_infix() + dec_digits(m.page), svg_suffix());
    let art = artifact_of(m);
    assert(brace_free(cur_prefix()));
    lemma_ups_brace_free(depth);
    assert(brace_free(link_prefix(depth)));
    assert(brace_free(seq![47u8]));
    lemma_brace_free_concat(link_prefix(depth), dir);
    lemma_brace_free_concat(link_prefix(depth) + dir, seq![47u8]);
    lemma_brace_free_concat(link_prefix(depth) + dir + seq![47u8], art);
    let link = spec_link(depth, dir, art);
    assert(brace_free(alt_prefix()));
    assert(brace_free(link_mid()));
    assert(brace_free(link_close()));
    lemma_brace_free_concat(alt_prefix(), link);
    lemma_brace_free_concat(alt_prefix() + link, link_mid());
    lemma_brace_free_concat(alt_prefix() + link + link_mid(), link);
    lemma_brace_free_concat(alt_prefix() + link + link_mid() + link, link_close());
}

/// The scan has reached position `i`: it is the start, or the previous
/// position was kept as a literal byte, or an occurrence ends here.
pub open spec fn scan_reaches(s: Seq<u8>, i: int) -> bool {
    ||| i == 0
    ||| match_at(s, i - 1) is None
    ||| exists|q: int|
        0 <= q < i && (#[trigger] match_at(s, q) matches Some(m) && m.end == i)
}

/// From any reached position, the rewritten text holds no opening
/// brace, provided every brace of the input begins (or sits second in)
/// an occurrence, no matched path carries a brace, and the cache
/// directory name carries none.
proof fn lemma_rewrite_brace_free(s: Seq<u8>, i: int, depth: nat, dir: Seq<u8>)
    requires
        0 <= i <= s.len(),
        braces_only_open_occurrences(s),
        matched_paths_brace_free(s),
        brace_free(dir),
        scan_reaches(s, i),
    ensures
        brace_free(spec_rewrite_from(s, i, depth, dir)),
    decreases s.len() - i,
{
    if i >= s.len() {
    } else {
        match match_at(s, i) {
            Some(m) => {
                lemma_match_end_bounds(s, i);
                assert(brace_free(m.path));
                lemma_replacement_brace_free(m, depth, dir);
                assert(scan_reaches(s, m.end)) by {
                    assert(0 <= i < m.end && (match_at(s, i) matches Some(mm) && mm.end
                        == m.end));
                }
                lemma_rewrite_brace_free(s, m.end, depth, dir);
                lemma_brace_free_concat(
                    replacement_text(m, depth, dir),
                    spec_rewrite_from(s, m.end, depth, dir),
                );
            },
            None => {
                if s[i] == LBRACE {
                    assert(i > 0 && match_at(s, i - 1) is Some);
                    let q = choose|q: int|
                        0 <= q < i && (#[trigger] match_at(s, q) matches Some(m) && m.end
                            == i);
                    lemma_match_open_close(s, q);
                    lemma_match_open_close(s, i - 1);
                    assert(false);
                }
                assert(brace_free(seq![s[i]]));
                lemma_rewrite_brace_free(s, i + 1, depth, dir);
                lemma_brace_free_concat(seq![s[i]], spec_rewrite_from(s, i + 1, depth, dir));
            },
        }
    }
}

/// Rewriting is idempotent: when every opening brace of the input
/// begins a directive occurrence (or sits second in its opening
/// marker), no matched path carries an opening brace, and the cache
/// directory name carries none, then rewriting the rewritten text
/// changes nothing and requests no rendering at all.
pub proof fn lemma_rewrite_idempotent(s: Seq<u8>, depth: nat, dir: Seq<u8>)
    requires
        braces_only_open_occurrences(s),
        matched_paths_brace_free(s),
        brace_free(dir),
    ensures
        spec_rewrite_from(spec_rewrite_from(s, 0, depth, dir), 0, depth, dir)
            == spec_rewrite_from(s, 0, depth, dir),
        spec_requests_from(spec_rewrite_from(s, 0, depth, dir), 0) == Seq::<
            RenderRequestV,
        >::empty(),
{
    lemma_rewrite_brace_free(s, 0, depth, dir);
    let t = spec_rewrite_from(s, 0, depth, dir);
    lemma_brace_free_no_match(t);
    lemma_no_occurrence_no_change(t, depth, dir);
}

} // verus!
