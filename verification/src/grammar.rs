//! The directive grammar: an opening marker, a double-quoted path
//! attribute, an unsigned decimal page attribute, optional ignored
//! trailing attributes, and a closing marker, all on a single line.
//! `match_at` says, for every position of a text, whether a directive
//! occurrence starts there and what it carries; `try_match` decides it.

use vstd::prelude::*;
use crate::paths::copy_range;

verus! {

pub const LBRACE: u8 = 123;
pub const QUOTE: u8 = 34;
pub const NEWLINE: u8 = 10;
pub const RBRACE: u8 = 125;

/// The byte string `{{#drawio`.
pub open spec fn open_marker() -> Seq<u8> {
    seq![123u8, 123u8, 35u8, 100u8, 114u8, 97u8, 119u8, 105u8, 111u8]
}

pub fn open_marker_vec() -> (v: Vec<u8>)
    ensures
        v@ == open_marker(),
{
    let mut v: Vec<u8> = Vec::new();
    v.push(123);
    v.push(123);
    v.push(35);
    v.push(100);
    v.push(114);
    v.push(97);
    v.push(119);
    v.push(105);
    v.push(111);
    proof {
        assert(v@ =~= open_marker());
    }
    v
}

/// The byte string `path="`.
pub open spec fn path_marker() -> Seq<u8> {
    seq![112u8, 97u8, 116u8, 104u8, 61u8, 34u8]
}

pub fn path_marker_vec() -> (v: Vec<u8>)
    ensures
        v@ == path_marker(),
{
    let mut v: Vec<u8> = Vec::new();
    v.push(112);
    v.push(97);
    v.push(116);
    v.push(104);
    v.push(61);
    v.push(34);
    proof {
        assert(v@ =~= path_marker());
    }
    v
}

/// The byte string `page=`.
pub open spec fn page_marker() -> Seq<u8> {
    seq![112u8, 97u8, 103u8, 101u8, 61u8]
}

pub fn page_marker_vec() -> (v: Vec<u8>)
    ensures
        v@ == page_marker(),
{
    let mut v: Vec<u8> = Vec::new();
    v.push(112);
    v.push(97);
    v.push(103);
    v.push(101);
    v.push(61);
    proof {
        assert(v@ =~= page_marker());
    }
    v
}


pub open spec fn is_ws(b: u8) -> bool {
    b == 32 || b == 9
}

pub open spec fn is_digit(b: u8) -> bool {
    48 <= b && b <= 57
}

/// The bytes of `lit` stand in `s` at position `i`.
pub open spec fn lit_at(s: Seq<u8>, i: int, lit: Seq<u8>) -> bool {
    &&& 0 <= i
    &&& i + lit.len() <= s.len()
    &&& forall|j: int| 0 <= j < lit.len() ==> s[i + j] == lit[j]
}

/// First position at or after `i` whose byte is not a space or tab.
pub open spec fn ws_end(s: Seq<u8>, i: int) -> int
    decreases s.len() - i,
{
    if i < 0 || i >= s.len() {
        i
    } else if is_ws(s[i]) {
        ws_end(s, i + 1)
    } else {
        i
    }
}

/// First position at or after `i` holding a quote or a newline.
pub open spec fn quoted_end(s: Seq<u8>, i: int) -> int
    decreases s.len() - i,
{
    if i < 0 || i >= s.len() {
        i
    } else if s[i] == QUOTE || s[i] == NEWLINE {
        i
    } else {
        quoted_end(s, i + 1)
    }
}

/// First position at or after `i` whose byte is not a decimal digit.
pub open spec fn digits_end(s: Seq<u8>, i: int) -> int
    decreases s.len() - i,
{
    if i < 0 || i >= s.len() {
        i
    } else if is_digit(s[i]) {
        digits_end(s, i + 1)
    } else {
        i
    }
}

/// First position at or after `i` holding a closing brace or a newline.
pub open spec fn attrs_end(s: Seq<u8>, i: int) -> int
    decreases s.len() - i,
{
    if i < 0 || i >= s.len() {
        i
    } else if s[i] == RBRACE || s[i] == NEWLINE {
        i
    } else {
        attrs_end(s, i + 1)
    }
}

pub proof fn lemma_ws_end_bounds(s: Seq<u8>, i: int)
    requires
        0 <= i <= s.len(),
    ensures
        i <= ws_end(s, i) <= s.len(),
    decreases s.len() - i,
{
    if i < s.len() && is_ws(s[i]) {
        lemma_ws_end_bounds(s, i + 1);
    }
}

pub proof fn lemma_quoted_end_bounds(s: Seq<u8>, i: int)
    requires
        0 <= i <= s.len(),
    ensures
        i <= quoted_end(s, i) <= s.len(),
    decreases s.len() - i,
{
    if i < s.len() && !(s[i] == QUOTE || s[i] == NEWLINE) {
        lemma_quoted_end_bounds(s, i + 1);
    }
}

pub proof fn lemma_digits_end_bounds(s: Seq<u8>, i: int)
    requires
        0 <= i <= s.len(),
    ensures
        i <= digits_end(s, i) <= s.len(),
    decreases s.len() - i,
{
    if i < s.len() && is_digit(s[i]) {
        lemma_digits_end_bounds(s, i + 1);
    }
}

pub proof fn lemma_attrs_end_bounds(s: Seq<u8>, i: int)
    requires
        0 <= i <= s.len(),
    ensures
        i <= attrs_end(s, i) <= s.len(),
    decreases s.len() - i,
{
    if i < s.len() && !(s[i] == RBRACE || s[i] == NEWLINE) {
        lemma_attrs_end_bounds(s, i + 1);
    }
}

/// Value of a run of ASCII decimal digits, most significant first.
pub open spec fn dec_value(ds: Seq<u8>) -> int
    decreases ds.len(),
{
    if ds.len() == 0 {
        0
    } else {
        dec_value(ds.drop_last()) * 10 + (ds.last() - 48)
    }
}

/// What a directive occurrence carries: the position just past its
/// closing marker, the quoted path, and the page index.
pub ghost struct DirectiveMatch {
    pub end: int,
    pub path: Seq<u8>,
    pub page: nat,
}

/// Whether a directive occurrence starts at position `i` of `s`, and
/// what it carries. The occurrence is the opening marker, whitespace,
/// `path="` with a non-empty quote-free path, whitespace, `page=` with a
/// non-empty digit run whose value fits 32 bits, any further bytes up to
/// the first closing brace, and a doubled closing brace; none of it may
/// cross a newline.
pub open spec fn match_at(s: Seq<u8>, i: int) -> Option<DirectiveMatch> {
    if !lit_at(s, i, open_marker()) {
        None
    } else {
        let b = ws_end(s, i + 9);
        if b == i + 9 || !lit_at(s, b, path_marker()) {
            None
        } else {
            let c = b + 6;
            let d = quoted_end(s, c);
            if !(c < d && d < s.len() && s[d] == QUOTE) {
                None
            } else {
                let e = ws_end(s, d + 1);
                if e == d + 1 || !lit_at(s, e, page_marker()) {
                    None
                } else {
                    let f = e + 5;
                    let g = digits_end(s, f);
                    if g == f || dec_value(s.subrange(f, g)) > u32::MAX as int {
                        None
                    } else {
                        let h = attrs_end(s, g);
                        if h + 1 < s.len() && s[h] == RBRACE && s[h + 1] == RBRACE {
                            Some(
                                DirectiveMatch {
                                    end: h + 2,
                                    path: s.subrange(c, d),
                                    page: dec_value(s.subrange(f, g)) as nat,
                                },
                            )
                        } else {
                            None
                        }
                    }
                }
            }
        }
    }
}

/// A directive occurrence has positive length and ends within the text.
pub proof fn lemma_match_end_bounds(s: Seq<u8>, i: int)
    requires
        match_at(s, i) is Some,
    ensures
        match_at(s, i) matches Some(m) ==> i < m.end <= s.len(),
{
    let b = ws_end(s, i + 9);
    lemma_ws_end_bounds(s, i + 9);
    let c = b + 6;
    let d = quoted_end(s, c);
    lemma_quoted_end_bounds(s, c);
    let e = ws_end(s, d + 1);
    lemma_ws_end_bounds(s, d + 1);
    let f = e + 5;
    let g = digits_end(s, f);
    lemma_digits_end_bounds(s, f);
    let h = attrs_end(s, g);
    lemma_attrs_end_bounds(s, g);
}

/// A parsed directive occurrence: where it ends, its path, its page.
pub struct Directive {
    pub end: usize,
    pub path: Vec<u8>,
    pub page: u32,
}

/// Whether the bytes of `lit` stand in `s` at position `i`.
fn bytes_at(s: &Vec<u8>, i: usize, lit: &Vec<u8>) -> (r: bool)
    ensures
        r == lit_at(s@, i as int, lit@),
{
    if i > s.len() || s.len() - i < lit.len() {
        return false;
    }
    let mut j: usize = 0;
    while j < lit.len()
        invariant
            i + lit@.len() <= s@.len() <= usize::MAX,
            j <= lit@.len(),
            forall|t: int| 0 <= t < j ==> s@[i + t] == lit@[t],
        decreases lit@.len() - j,
    {
        if s[i + j] != lit[j] {
            return false;
        }
        j = j + 1;
    }
    true
}

fn scan_ws(s: &Vec<u8>, i: usize) -> (r: usize)
    requires
        i <= s@.len(),
    ensures
        r as int == ws_end(s@, i as int),
        i <= r <= s@.len(),
{
    let mut j: usize = i;
    while j < s.len() && (s[j] == 32 || s[j] == 9)
        invariant
            i <= j <= s@.len(),
            ws_end(s@, i as int) == ws_end(s@, j as int),
        decreases s@.len() - j,
    {
        j = j + 1;
    }
    j
}

fn scan_quoted(s: &Vec<u8>, i: usize) -> (r: usize)
    requires
        i <= s@.len(),
    ensures
        r as int == quoted_end(s@, i as int),
        i <= r <= s@.len(),
{
    let mut j: usize = i;
    while j < s.len() && s[j] != QUOTE && s[j] != NEWLINE
        invariant
            i <= j <= s@.len(),
            quoted_end(s@, i as int) == quoted_end(s@, j as int),
        decreases s@.len() - j,
    {
        j = j + 1;
    }
    j
}

fn scan_attrs(s: &Vec<u8>, i: usize) -> (r: usize)
    requires
        i <= s@.len(),
    ensures
        r as int == attrs_end(s@, i as int),
        i <= r <= s@.len(),
{
    let mut j: usize = i;
    while j < s.len() && s[j] != RBRACE && s[j] != NEWLINE
        invariant
            i <= j <= s@.len(),
            attrs_end(s@, i as int) == attrs_end(s@, j as int),
        decreases s@.len() - j,
    {
        j = j + 1;
    }
    j
}

/// Scans the digit run starting at `i` and accumulates its value; the
/// value comes back as `None` when it does not fit 32 bits.
fn scan_digits(s: &Vec<u8>, i: usize) -> (r: (usize, Option<u32>))
    requires
        i <= s@.len(),
    ensures
        r.0 as int == digits_end(s@, i as int),
        i <= r.0 <= s@.len(),
        r.1 matches Some(v) ==> v as int == dec_value(s@.subrange(i as int, r.0 as int)),
        r.1 is None ==> dec_value(s@.subrange(i as int, r.0 as int)) > u32::MAX as int,
{
    let mut j: usize = i;
    let mut val: u64 = 0;
    let mut big = false;
    while j < s.len() && s[j] >= 48 && s[j] <= 57
        invariant
            i <= j <= s@.len(),
            digits_end(s@, i as int) == digits_end(s@, j as int),
            !big ==> val as int == dec_value(s@.subrange(i as int, j as int)) && val <= u32::MAX
                as u64,
            big ==> dec_value(s@.subrange(i as int, j as int)) > u32::MAX as int,
        decreases s@.len() - j,
    {
        let d: u8 = s[j] - 48;
        proof {
            assert(s@.subrange(i as int, j + 1 as int).drop_last() =~= s@.subrange(
                i as int,
                j as int,
            ));
            assert(s@.subrange(i as int, j + 1 as int).last() == s@[j as int]);
        }
        if !big {
            let nv: u64 = val * 10 + (d as u64);
            if nv > 4294967295u64 {
                big = true;
            } else {
                val = nv;
            }
        }
        j = j + 1;
    }
    if big {
        (j, None)
    } else {
        (j, Some(val as u32))
    }
}

/// Decides whether a directive occurrence starts at position `i`, and
/// parses it if so.
pub fn try_match(s: &Vec<u8>, i: usize) -> (r: Option<Directive>)
    requires
        i <= s@.len(),
    ensures
        r is None ==> match_at(s@, i as int) is None,
        r matches Some(d) ==> match_at(s@, i as int) == Some(
            DirectiveMatch { end: d.end as int, path: d.path@, page: d.page as nat },
        ) && i < d.end <= s@.len(),
{
    let open_m = open_marker_vec();
    if !bytes_at(s, i, &open_m) {
        return None;
    }
    proof {
        assert(s.len() >= i + 9);
    }
    let a = i + 9;
    let b = scan_ws(s, a);
    if b == a {
        return None;
    }
    let path_m = path_marker_vec();
    if !bytes_at(s, b, &path_m) {
        return None;
    }
    proof {
        assert(s.len() >= b + 6);
    }
    let c = b + 6;
    let d = scan_quoted(s, c);
    if !(c < d && d < s.len()) {
        return None;
    }
    if s[d] != QUOTE {
        return None;
    }
    let e = scan_ws(s, d + 1);
    if e == d + 1 {
        return None;
    }
    let page_m = page_marker_vec();
    if !bytes_at(s, e, &page_m) {
        return None;
    }
    let f = e + 5;
    let (g, value) = scan_digits(s, f);
    if g == f {
        return None;
    }
    let page = match value {
        Some(v) => v,
        None => {
            return None;
        },
    };
    let h = scan_attrs(s, g);
    if h < s.len() && s[h] == RBRACE && h + 1 < s.len() && s[h + 1] == RBRACE {
        let path = copy_range(s, c, d);
        Some(Directive { end: h + 2, path, page })
    } else {
        None
    }
}

/// A byte sequence without any opening brace.
pub open spec fn brace_free(s: Seq<u8>) -> bool {
    forall|j: int| 0 <= j < s.len() ==> s[j] != LBRACE
}

/// An occurrence starts with an opening brace and ends with a closing
/// one.
pub proof fn lemma_match_open_close(s: Seq<u8>, i: int)
    requires
        match_at(s, i) is Some,
    ensures
        match_at(s, i) matches Some(m) ==> s[i] == LBRACE && s[m.end - 1] == RBRACE,
{
    assert(lit_at(s, i, open_marker()));
    assert(s[i + 0] == open_marker()[0]);
}

/// Text without an opening brace has no occurrence anywhere.
pub proof fn lemma_brace_free_no_match(t: Seq<u8>)
    requires
        brace_free(t),
    ensures
        forall|p: int| #[trigger] match_at(t, p) is None,
{
    assert forall|p: int| #[trigger] match_at(t, p) is None by {
        if 0 <= p && p + open_marker().len() <= t.len() {
            if lit_at(t, p, open_marker()) {
                assert(t[p + 0] == open_marker()[0]);
            }
        }
    }
}

} // verus!
