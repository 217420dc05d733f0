//! The path resolver: file names and stems, artifact names derived from a
//! diagram source and a page index, relative links from a nested document
//! to the flat cache directory, and the configured directory names with
//! their defaults.

use vstd::prelude::*;

verus! {

pub const SLASH: u8 = 47;
pub const DOT: u8 = 46;

/// The byte string `mdbook-drawio`.
pub open spec fn default_result_dir() -> Seq<u8> {
    seq![109u8, 100u8, 98u8, 111u8, 111u8, 107u8, 45u8, 100u8, 114u8, 97u8, 119u8, 105u8, 111u8]
}

pub fn default_result_dir_vec() -> (v: Vec<u8>)
    ensures
        v@ == default_result_dir(),
{
    let mut v: Vec<u8> = Vec::new();
    v.push(109);
    v.push(100);
    v.push(98);
    v.push(111);
    v.push(111);
    v.push(107);
    v.push(45);
    v.push(100);
    v.push(114);
    v.push(97);
    v.push(119);
    v.push(105);
    v.push(111);
    proof {
        assert(v@ =~= default_result_dir());
    }
    v
}

/// The byte string `-page-`.
pub open spec fn page_infix() -> Seq<u8> {
    seq![45u8, 112u8, 97u8, 103u8, 101u8, 45u8]
}

pub fn page_infix_vec() -> (v: Vec<u8>)
    ensures
        v@ == page_infix(),
{
    let mut v: Vec<u8> = Vec::new();
    v.push(45);
    v.push(112);
    v.push(97);
    v.push(103);
    v.push(101);
    v.push(45);
    proof {
        assert(v@ =~= page_infix());
    }
    v
}

/// The byte string `.svg`.
pub open spec fn svg_suffix() -> Seq<u8> {
    seq![46u8, 115u8, 118u8, 103u8]
}

pub fn svg_suffix_vec() -> (v: Vec<u8>)
    ensures
        v@ == svg_suffix(),
{
    let mut v: Vec<u8> = Vec::new();
    v.push(46);
    v.push(115);
    v.push(118);
    v.push(103);
    proof {
        assert(v@ =~= svg_suffix());
    }
    v
}

/// The byte string `../`.
pub open spec fn up_step() -> Seq<u8> {
    seq![46u8, 46u8, 47u8]
}

pub fn up_step_vec() -> (v: Vec<u8>)
    ensures
        v@ == up_step(),
{
    let mut v: Vec<u8> = Vec::new();
    v.push(46);
    v.push(46);
    v.push(47);
    proof {
        assert(v@ =~= up_step());
    }
    v
}

/// The byte string `./`.
pub open spec fn cur_prefix() -> Seq<u8> {
    seq![46u8, 47u8]
}

pub fn cur_prefix_vec() -> (v: Vec<u8>)
    ensures
        v@ == cur_prefix(),
{
    let mut v: Vec<u8> = Vec::new();
    v.push(46);
    v.push(47);
    proof {
        assert(v@ =~= cur_prefix());
    }
    v
}


/// Appends all bytes of `src` to `dst`.
pub fn extend_bytes(dst: &mut Vec<u8>, src: &Vec<u8>)
    ensures
        final(dst)@ == old(dst)@ + src@,
{
    let mut i: usize = 0;
    while i < src.len()
        invariant
            i <= src.len(),
            dst@ == old(dst)@ + src@.subrange(0, i as int),
        decreases src.len() - i,
    {
        dst.push(src[i]);
        proof {
            assert(old(dst)@ + src@.subrange(0, i as int) + seq![src@[i as int]] =~= old(
                dst,
            )@ + src@.subrange(0, i + 1 as int));
        }
        i = i + 1;
    }
    proof {
        assert(src@.subrange(0, src@.len() as int) =~= src@);
    }
}

/// Copies the byte range `[from, to)` of `src` into a fresh vector.
pub fn copy_range(src: &Vec<u8>, from: usize, to: usize) -> (v: Vec<u8>)
    requires
        from <= to <= src.len(),
    ensures
        v@ == src@.subrange(from as int, to as int),
{
    let mut v: Vec<u8> = Vec::new();
    let mut i: usize = from;
    while i < to
        invariant
            from <= i <= to <= src.len(),
            v@ == src@.subrange(from as int, i as int),
        decreases to - i,
    {
        v.push(src[i]);
        proof {
            assert(src@.subrange(from as int, i as int) + seq![src@[i as int]] =~= src@.subrange(
                from as int,
                i + 1 as int,
            ));
        }
        i = i + 1;
    }
    v
}

/// The decimal digits of `n`, most significant first, as ASCII bytes.
pub open spec fn dec_digits(n: nat) -> Seq<u8>
    decreases n,
{
    if n < 10 {
        seq![(48 + n) as u8]
    } else {
        dec_digits(n / 10).push((48 + n % 10) as u8)
    }
}

/// Renders `n` in decimal, without leading zeros.
pub fn u32_digits(n: u32) -> (v: Vec<u8>)
    ensures
        v@ == dec_digits(n as nat),
    decreases n,
{
    let d: u8 = (n % 10) as u8 + 48;
    if n < 10 {
        let mut v: Vec<u8> = Vec::new();
        v.push(d);
        proof {
            assert(v@ =~= dec_digits(n as nat));
        }
        v
    } else {
        let mut v = u32_digits(n / 10);
        v.push(d);
        v
    }
}

/// The part of `p` after its last slash (all of `p` if it has none).
pub open spec fn last_component(p: Seq<u8>) -> Seq<u8>
    decreases p.len(),
{
    if p.len() == 0 {
        Seq::empty()
    } else if p[p.len() - 1] == SLASH {
        Seq::empty()
    } else {
        last_component(p.drop_last()).push(p[p.len() - 1])
    }
}

pub proof fn lemma_last_component_subrange(p: Seq<u8>, k: int)
    requires
        0 <= k <= p.len(),
        forall|j: int| k <= j < p.len() ==> p[j] != SLASH,
        k == 0 || p[k - 1] == SLASH,
    ensures
        last_component(p) == p.subrange(k, p.len() as int),
    decreases p.len(),
{
    if p.len() == 0 {
        assert(last_component(p) =~= p.subrange(0, 0));
    } else if p[p.len() - 1] == SLASH {
        assert(k == p.len());
        assert(last_component(p) =~= p.subrange(k, p.len() as int));
    } else {
        assert(k < p.len());
        let q = p.drop_last();
        lemma_last_component_subrange(q, k);
        assert(q.subrange(k, q.len() as int) =~= p.subrange(k, p.len() - 1));
        assert(p.subrange(k, p.len() - 1).push(p[p.len() - 1]) =~= p.subrange(k, p.len() as int));
    }
}

/// Extracts the file name (the part after the last slash) of a path.
pub fn file_name(p: &Vec<u8>) -> (v: Vec<u8>)
    ensures
        v@ == last_component(p@),
{
    let mut k: usize = p.len();
    while k > 0 && p[k - 1] != SLASH
        invariant
            k <= p.len(),
            forall|j: int| k <= j < p@.len() ==> p@[j] != SLASH,
        decreases k,
    {
        k = k - 1;
    }
    proof {
        lemma_last_component_subrange(p@, k as int);
    }
    copy_range(p, k, p.len())
}

/// The index of the last dot of `p`, or -1 if it has none.
pub open spec fn last_dot(p: Seq<u8>) -> int
    decreases p.len(),
{
    if p.len() == 0 {
        -1
    } else if p[p.len() - 1] == DOT {
        p.len() - 1
    } else {
        last_dot(p.drop_last())
    }
}

/// The file stem of a file name: everything before the last dot, except
/// that a dot in first position (a hidden file) does not begin an
/// extension.
pub open spec fn stem_of(name: Seq<u8>) -> Seq<u8> {
    if last_dot(name) > 0 {
        name.subrange(0, last_dot(name))
    } else {
        name
    }
}

/// The last-dot index lies within the name.
pub proof fn lemma_last_dot_range(p: Seq<u8>)
    ensures
        -1 <= last_dot(p) < p.len(),
    decreases p.len(),
{
    if p.len() > 0 && p[p.len() - 1] != DOT {
        lemma_last_dot_range(p.drop_last());
    }
}

pub proof fn lemma_last_dot_at(p: Seq<u8>, k: int)
    requires
        0 <= k <= p.len(),
        forall|j: int| k <= j < p.len() ==> p[j] != DOT,
        k == 0 || p[k - 1] == DOT,
    ensures
        last_dot(p) == k - 1,
    decreases p.len(),
{
    if p.len() == 0 {
    } else if p[p.len() - 1] == DOT {
        assert(k == p.len());
    } else {
        assert(k < p.len());
        lemma_last_dot_at(p.drop_last(), k);
    }
}

/// Extracts the file stem of a file name.
pub fn file_stem(name: &Vec<u8>) -> (v: Vec<u8>)
    ensures
        v@ == stem_of(name@),
{
    let mut k: usize = name.len();
    while k > 0 && name[k - 1] != DOT
        invariant
            k <= name.len(),
            forall|j: int| k <= j < name@.len() ==> name@[j] != DOT,
        decreases k,
    {
        k = k - 1;
    }
    proof {
        lemma_last_dot_at(name@, k as int);
    }
    if k >= 2 {
        copy_range(name, 0, k - 1)
    } else {
        proof {
            assert(name@.subrange(0, name@.len() as int) =~= name@);
        }
        copy_range(name, 0, name.len())
    }
}

/// The artifact file name for a diagram stem and a page index:
/// `<stem>-page-<page>.svg`.
pub open spec fn spec_artifact_name(stem: Seq<u8>, page: nat) -> Seq<u8> {
    stem + page_infix() + dec_digits(page) + svg_suffix()
}

/// Derives the cache artifact name from a diagram source path and a page
/// index: the source's file stem, `-page-`, the page in decimal, `.svg`.
pub fn artifact_name(source_path: &Vec<u8>, page: u32) -> (v: Vec<u8>)
    ensures
        v@ == spec_artifact_name(stem_of(last_component(source_path@)), page as nat),
{
    let base = file_name(source_path);
    let mut v = file_stem(&base);
    let infix = page_infix_vec();
    extend_bytes(&mut v, &infix);
    let digits = u32_digits(page);
    extend_bytes(&mut v, &digits);
    let suffix = svg_suffix_vec();
    extend_bytes(&mut v, &suffix);
    v
}

/// `depth` repetitions of `../`.
pub open spec fn ups(depth: nat) -> Seq<u8>
    decreases depth,
{
    if depth == 0 {
        Seq::empty()
    } else {
        ups((depth - 1) as nat) + up_step()
    }
}

/// The prefix that climbs from a document at `depth` back to the tree
/// root: `./` at the root itself, otherwise one `../` per level.
pub open spec fn link_prefix(depth: nat) -> Seq<u8> {
    if depth == 0 {
        cur_prefix()
    } else {
        ups(depth)
    }
}

/// The relative link from a document at `depth` to `file` inside the
/// cache directory `dir` at the tree root.
pub open spec fn spec_link(depth: nat, dir: Seq<u8>, file: Seq<u8>) -> Seq<u8> {
    link_prefix(depth) + dir + seq![SLASH] + file
}

/// Builds the relative link from a document at `depth` to `file` inside
/// the cache directory `dir`.
pub fn build_link(depth: usize, dir: &Vec<u8>, file: &Vec<u8>) -> (v: Vec<u8>)
    ensures
        v@ == spec_link(depth as nat, dir@, file@),
{
    let mut v: Vec<u8> = Vec::new();
    if depth == 0 {
        v.push(DOT);
        v.push(SLASH);
        proof {
            assert(v@ =~= cur_prefix());
        }
    } else {
        let mut i: usize = 0;
        while i < depth
            invariant
                i <= depth,
                v@ == ups(i as nat),
            decreases depth - i,
        {
            v.push(DOT);
            v.push(DOT);
            v.push(SLASH);
            proof {
                assert(v@ =~= ups(i as nat) + up_step());
            }
            i = i + 1;
        }
    }
    extend_bytes(&mut v, dir);
    v.push(SLASH);
    extend_bytes(&mut v, file);
    proof {
        assert(v@ =~= spec_link(depth as nat, dir@, file@));
    }
    v
}

/// Joining a relative path onto a base path, the way path concatenation
/// behaves: an empty base or an absolute right side yields the right
/// side; a base already ending in a slash gets no second one.
pub open spec fn spec_join(a: Seq<u8>, b: Seq<u8>) -> Seq<u8> {
    if a.len() == 0 {
        b
    } else if b.len() > 0 && b[0] == SLASH {
        b
    } else if a[a.len() - 1] == SLASH {
        a + b
    } else {
        a + seq![SLASH] + b
    }
}

/// Joins path `b` onto base path `a`.
pub fn join_path(a: &Vec<u8>, b: &Vec<u8>) -> (v: Vec<u8>)
    ensures
        v@ == spec_join(a@, b@),
{
    if a.len() == 0 || (b.len() > 0 && b[0] == SLASH) {
        proof {
            assert(b@.subrange(0, b@.len() as int) =~= b@);
        }
        return copy_range(b, 0, b.len());
    }
    let mut v = copy_range(a, 0, a.len());
    proof {
        assert(a@.subrange(0, a@.len() as int) =~= a@);
    }
    if a[a.len() - 1] != SLASH {
        v.push(SLASH);
    }
    extend_bytes(&mut v, b);
    v
}

/// The cache directory name: the configured one, or `mdbook-drawio` when
/// none is configured.
pub fn get_result_dir(configured: &Option<Vec<u8>>) -> (v: Vec<u8>)
    ensures
        (*configured) matches Some(c) ==> v@ == c@,
        (*configured) is None ==> v@ == default_result_dir(),
{
    match configured {
        Some(c) => {
            proof {
                assert(c@.subrange(0, c@.len() as int) =~= c@);
            }
            copy_range(c, 0, c.len())
        },
        None => default_result_dir_vec(),
    }
}

/// Where the cache directory lives: under the tree's source root, which
/// itself lives under the project root.
pub open spec fn spec_result_dir_abs(root: Seq<u8>, source_dir: Seq<u8>, name: Seq<u8>) -> Seq<
    u8,
> {
    spec_join(spec_join(root, source_dir), name)
}

/// The absolute path of the cache directory: the project root, the
/// tree's source directory, and the (configured or default) cache
/// directory name, joined.
pub fn get_result_dir_abs(root: &Vec<u8>, source_dir: &Vec<u8>, configured: &Option<Vec<u8>>) -> (v:
    Vec<u8>)
    ensures
        (*configured) matches Some(c) ==> v@ == spec_result_dir_abs(root@, source_dir@, c@),
        (*configured) is None ==> v@ == spec_result_dir_abs(
            root@,
            source_dir@,
            default_result_dir(),
        ),
{
    let name = get_result_dir(configured);
    let base = join_path(root, source_dir);
    join_path(&base, &name)
}

/// Depth of a document whose location is the given path segments (the
/// last segment being the file name): the number of parent segments. A
/// document without a location sits at the root.
pub open spec fn spec_location_depth(location: Option<Vec<Vec<u8>>>) -> nat {
    match location {
        None => 0,
        Some(segs) => if segs.len() == 0 {
            0
        } else {
            (segs.len() - 1) as nat
        },
    }
}

/// Computes a document's depth from its location segments.
pub fn location_depth(location: &Option<Vec<Vec<u8>>>) -> (depth: usize)
    ensures
        depth as nat == spec_location_depth(*location),
{
    match location {
        None => 0,
        Some(segs) => if segs.len() == 0 {
            0
        } else {
            segs.len() - 1
        },
    }
}

/// The relative link from a document to a target artifact: one `../` per
/// parent segment of the document's location (`./` when it has none),
/// then the cache directory name, then the artifact's bare file name.
pub fn relative_path_from_chapter(
    location: &Option<Vec<Vec<u8>>>,
    result_dir: &Vec<u8>,
    target: &Vec<u8>,
) -> (v: Vec<u8>)
    ensures
        v@ == spec_link(spec_location_depth(*location), result_dir@, last_component(target@)),
{
    let depth = location_depth(location);
    let file = file_name(target);
    build_link(depth, result_dir, &file)
}

} // verus!
