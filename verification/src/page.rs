//! Page keys: a chapter (major number with an optional sub-chapter) plus an
//! optional page number, with a total order, a canonical textual token form,
//! and parsing that is the exact inverse of formatting.

use vstd::prelude::*;
use crate::digits::{
    all_digits, digits_val, fmt_padded, is_digit, lemma_padded_len, lemma_padded_val,
    lemma_pow10_small, lemma_val_bound, padded, parse_digits, pow10,
};
use vstd::slice::slice_subrange;
use core::cmp::Ordering;

verus! {

/// A chapter identity: `major` number plus an optional sub-chapter `minor`.
/// An absent `minor` is encoded as the digit `0` in the token form.
#[derive(Clone, Copy, Debug)]
pub struct Chapter {
    pub major: usize,
    pub minor: Option<usize>,
}

/// The ordering identity of one page: chapter plus optional page number.
/// In list mode `page` is always absent; in paged mode always present.
#[derive(Clone, Copy, Debug)]
pub struct Page {
    pub chapter: Chapter,
    pub page: Option<usize>,
}

impl PartialEq for Chapter {
    fn eq(&self, other: &Chapter) -> (r: bool) {
        self.major == other.major && opt_eq(&self.minor, &other.minor)
    }
}

impl vstd::std_specs::cmp::PartialEqSpecImpl for Chapter {
    open spec fn obeys_eq_spec() -> bool {
        true
    }

    open spec fn eq_spec(&self, other: &Chapter) -> bool {
        *self == *other
    }
}

impl PartialEq for Page {
    fn eq(&self, other: &Page) -> (r: bool) {
        self.chapter == other.chapter && opt_eq(&self.page, &other.page)
    }
}

impl vstd::std_specs::cmp::PartialEqSpecImpl for Page {
    open spec fn obeys_eq_spec() -> bool {
        true
    }

    open spec fn eq_spec(&self, other: &Page) -> bool {
        *self == *other
    }
}

/// Rank of an optional field: absence sorts strictly before any present value.
pub open spec fn opt_rank(o: Option<usize>) -> int {
    match o {
        None => -1,
        Some(v) => v as int,
    }
}

/// Strict order on chapters: by `major`, then by `minor` with absence first.
pub open spec fn chapter_lt(a: Chapter, b: Chapter) -> bool {
    a.major < b.major || (a.major == b.major && opt_rank(a.minor) < opt_rank(b.minor))
}

/// Total order on page keys: by chapter, then by `page` with absence first.
pub open spec fn page_le(a: Page, b: Page) -> bool {
    chapter_lt(a.chapter, b.chapter) || (a.chapter == b.chapter && opt_rank(a.page) <= opt_rank(
        b.page,
    ))
}

pub open spec fn page_lt(a: Page, b: Page) -> bool {
    chapter_lt(a.chapter, b.chapter) || (a.chapter == b.chapter && opt_rank(a.page) < opt_rank(
        b.page,
    ))
}

/// The ordering that comparing two chapters yields.
pub open spec fn chapter_cmp_spec(a: Chapter, b: Chapter) -> Ordering {
    if chapter_lt(a, b) {
        Ordering::Less
    } else if chapter_lt(b, a) {
        Ordering::Greater
    } else {
        Ordering::Equal
    }
}

/// The ordering that comparing two page keys yields.
pub open spec fn page_cmp_spec(a: Page, b: Page) -> Ordering {
    if page_lt(a, b) {
        Ordering::Less
    } else if page_lt(b, a) {
        Ordering::Greater
    } else {
        Ordering::Equal
    }
}

impl PartialOrd for Chapter {
    fn partial_cmp(&self, other: &Chapter) -> (r: Option<Ordering>) {
        if self.major < other.major {
            Some(Ordering::Less)
        } else if self.major > other.major {
            Some(Ordering::Greater)
        } else {
            match (self.minor, other.minor) {
                (Some(a), Some(b)) => if a < b {
                    Some(Ordering::Less)
                } else if a > b {
                    Some(Ordering::Greater)
                } else {
                    Some(Ordering::Equal)
                },
                (Some(_), None) => Some(Ordering::Greater),
                (None, Some(_)) => Some(Ordering::Less),
                (None, None) => Some(Ordering::Equal),
            }
        }
    }
}

impl vstd::std_specs::cmp::PartialOrdSpecImpl for Chapter {
    open spec fn obeys_partial_cmp_spec() -> bool {
        true
    }

    open spec fn partial_cmp_spec(&self, other: &Chapter) -> Option<Ordering> {
        Some(chapter_cmp_spec(*self, *other))
    }
}

impl PartialOrd for Page {
    fn partial_cmp(&self, other: &Page) -> (r: Option<Ordering>) {
        match self.chapter.partial_cmp(&other.chapter) {
            Some(Ordering::Equal) => match (self.page, other.page) {
                (Some(a), Some(b)) => if a < b {
                    Some(Ordering::Less)
                } else if a > b {
                    Some(Ordering::Greater)
                } else {
                    Some(Ordering::Equal)
                },
                (Some(_), None) => Some(Ordering::Greater),
                (None, Some(_)) => Some(Ordering::Less),
                (None, None) => Some(Ordering::Equal),
            },
            r => r,
        }
    }
}

impl vstd::std_specs::cmp::PartialOrdSpecImpl for Page {
    open spec fn obeys_partial_cmp_spec() -> bool {
        true
    }

    open spec fn partial_cmp_spec(&self, other: &Page) -> Option<Ordering> {
        Some(page_cmp_spec(*self, *other))
    }
}

/// The page-key order is a total order.
pub proof fn lemma_page_order_total(a: Page, b: Page, c: Page)
    ensures
        page_le(a, b) || page_le(b, a),
        page_le(a, b) && page_le(b, a) ==> a == b,
        page_le(a, b) && page_le(b, c) ==> page_le(a, c),
        page_lt(a, b) <==> !page_le(b, a),
{
}

/// A parse failure: the token does not have the canonical layout.
#[derive(Clone, Copy, PartialEq, Eq, Debug)]
pub struct ParseError;

/// The token `t` has the layout that `Page::parse` accepts in the given mode:
/// four major digits, one minor digit, and — in paged mode — a page number
/// from the seventh byte on whose value fits in `usize`.
pub open spec fn parseable(t: Seq<u8>, is_list: bool) -> bool {
    &&& t.len() >= 5
    &&& all_digits(t.take(4))
    &&& is_digit(t[4])
    &&& !is_list ==> {
        &&& t.len() >= 7
        &&& all_digits(t.skip(6))
        &&& digits_val(t.skip(6)) <= usize::MAX
    }
}

/// The key denoted by a parseable token.
pub open spec fn spec_parse(t: Seq<u8>, is_list: bool) -> Page
    recommends
        parseable(t, is_list),
{
    let major = digits_val(t.take(4)) as usize;
    let minor_digit = (t[4] - 0x30) as usize;
    Page {
        chapter: Chapter {
            major,
            minor: if minor_digit == 0 {
                None
            } else {
                Some(minor_digit)
            },
        },
        page: if is_list {
            None
        } else {
            Some(digits_val(t.skip(6)) as usize)
        },
    }
}

/// The minor digit that the token form of a chapter carries: `0` for absence.
pub open spec fn minor_val(c: Chapter) -> nat {
    match c.minor {
        None => 0,
        Some(m) => m as nat,
    }
}

/// Canonical chapter prefix of a token: zero-padded four-digit major followed
/// by the single minor digit.
pub open spec fn spec_format_chapter(c: Chapter) -> Seq<u8> {
    padded(c.major as nat, 4) + padded(minor_val(c), 1)
}

/// Canonical token of a key: the chapter prefix and — when a page number is
/// present — a dash and a zero-padded three-digit page number.
pub open spec fn spec_format(k: Page) -> Seq<u8> {
    spec_format_chapter(k.chapter) + match k.page {
        None => Seq::<u8>::empty(),
        Some(p) => seq![0x2Du8] + padded(p as nat, 3),
    }
}

/// The keys whose canonical token parses back to the same key in the given
/// mode: major at most four digits, minor absent or a single nonzero digit,
/// and a page number exactly in paged mode.
pub open spec fn valid_key(k: Page, is_list: bool) -> bool {
    &&& k.chapter.major <= 9999
    &&& match k.chapter.minor {
        None => true,
        Some(m) => 1 <= m <= 9,
    }
    &&& if is_list {
        k.page is None
    } else {
        k.page is Some
    }
}

/// Parsing is the exact inverse of formatting: the canonical token of a valid
/// key parses back to that key, in both modes.
pub proof fn lemma_parse_format(k: Page, is_list: bool)
    requires
        valid_key(k, is_list),
    ensures
        parseable(spec_format(k), is_list),
        spec_parse(spec_format(k), is_list) == k,
{
    let t = spec_format(k);
    let major_part = padded(k.chapter.major as nat, 4);
    let minor_part = padded(minor_val(k.chapter), 1);
    lemma_pow10_small();
    lemma_padded_val(k.chapter.major as nat, 4);
    lemma_padded_val(minor_val(k.chapter), 1);
    lemma_padded_len(k.chapter.major as nat, 4);
    lemma_padded_len(minor_val(k.chapter), 1);
    // the minor part is one digit byte carrying exactly the minor value
    assert(minor_part.drop_last() =~= Seq::<u8>::empty());
    assert(minor_part[0] == 0x30 + minor_val(k.chapter));
    assert(t.take(4) =~= major_part);
    assert(t[4] == minor_part[0]);
    assert(is_digit(t[4]));
    match k.page {
        None => {
            assert(t.len() == 5);
        },
        Some(p) => {
            lemma_padded_val(p as nat, 3);
            assert(t.skip(6) =~= padded(p as nat, 3));
            assert(digits_val(t.skip(6)) == p as nat);
            assert(t.len() >= 7);
        },
    }
    assert(digits_val(t.take(4)) == k.chapter.major as nat);
    let parsed = spec_parse(t, is_list);
    assert(parsed.chapter.major == k.chapter.major);
    assert((t[4] - 0x30) as usize == minor_val(k.chapter));
    assert(parsed.chapter.minor == k.chapter.minor);
    assert(parsed.page == k.page);
}

/// The canonical form is an identity: two valid keys with the same canonical
/// token are the same key (and so are two chapters with the same prefix).
pub proof fn lemma_format_injective(a: Page, b: Page, is_list: bool)
    requires
        valid_key(a, is_list),
        valid_key(b, is_list),
        spec_format(a) == spec_format(b),
    ensures
        a == b,
{
    lemma_parse_format(a, is_list);
    lemma_parse_format(b, is_list);
}

/// Round trip on tokens: every canonical token formats back to itself after
/// parsing, in both modes.
pub proof fn lemma_format_parse(t: Seq<u8>, is_list: bool)
    requires
        exists|k: Page| valid_key(k, is_list) && spec_format(k) == t,
    ensures
        parseable(t, is_list),
        spec_format(spec_parse(t, is_list)) == t,
{
    let k = choose|k: Page| valid_key(k, is_list) && spec_format(k) == t;
    lemma_parse_format(k, is_list);
}

impl Page {
    /// Parse a token under the session mode. Fails exactly on tokens without
    /// the canonical layout; on success returns the denoted key.
    pub fn parse(raw: &[u8], is_list: bool) -> (r: Result<Page, ParseError>)
        ensures
            r is Ok <==> parseable(raw@, is_list),
            r is Ok ==> r->Ok_0 == spec_parse(raw@, is_list),
    {
        if raw.len() < 5 {
            return Err(ParseError);
        }
        let major_digits = slice_subrange(raw, 0, 4);
        proof {
            assert(major_digits@ =~= raw@.take(4));
        }
        let major = match parse_digits(major_digits) {
            Some(v) => v,
            None => {
                proof {
                    if all_digits(raw@.take(4)) {
                        lemma_val_bound(raw@.take(4));
                        lemma_pow10_small();
                    }
                }
                return Err(ParseError);
            },
        };
        let minor_byte = raw[4];
        if minor_byte < 0x30 || minor_byte > 0x39 {
            return Err(ParseError);
        }
        let minor_digit = (minor_byte - 0x30) as usize;
        let minor = if minor_digit == 0 {
            None
        } else {
            Some(minor_digit)
        };
        let page = if is_list {
            None
        } else {
            if raw.len() < 7 {
                return Err(ParseError);
            }
            let page_digits = slice_subrange(raw, 6, raw.len());
            proof {
                assert(page_digits@ =~= raw@.skip(6));
            }
            match parse_digits(page_digits) {
                Some(v) => Some(v),
                None => {
                    return Err(ParseError);
                },
            }
        };
        Ok(Page { chapter: Chapter { major, minor }, page })
    }
}

/// Format a chapter as its canonical token prefix.
pub fn format_chapter(c: &Chapter) -> (r: Vec<u8>)
    ensures
        r@ == spec_format_chapter(*c),
{
    let mut v = fmt_padded(c.major, 4);
    let minor_digit: usize = match c.minor {
        None => 0,
        Some(m) => m,
    };
    let mut md = fmt_padded(minor_digit, 1);
    v.append(&mut md);
    proof {
        assert(v@ =~= spec_format_chapter(*c));
    }
    v
}

/// Format a key as its canonical token.
pub fn format_token(k: &Page) -> (r: Vec<u8>)
    ensures
        r@ == spec_format(*k),
{
    let mut v = format_chapter(&k.chapter);
    match k.page {
        None => {},
        Some(p) => {
            v.push(0x2D);
            let mut pd = fmt_padded(p, 3);
            v.append(&mut pd);
        },
    }
    proof {
        assert(v@ =~= spec_format(*k));
    }
    v
}

/// Structural equality of two keys, usable from verified code.
pub fn key_eq(a: &Page, b: &Page) -> (r: bool)
    ensures
        r == (*a == *b),
{
    let chap = a.chapter.major == b.chapter.major && opt_eq(&a.chapter.minor, &b.chapter.minor);
    chap && opt_eq(&a.page, &b.page)
}

fn opt_eq(a: &Option<usize>, b: &Option<usize>) -> (r: bool)
    ensures
        r == (*a == *b),
{
    match (a, b) {
        (None, None) => true,
        (Some(x), Some(y)) => *x == *y,
        _ => false,
    }
}

/// Exec comparison: strictly-less in the page-key order.
pub fn page_lt_exec(a: &Page, b: &Page) -> (r: bool)
    ensures
        r == page_lt(*a, *b),
{
    if a.chapter.major < b.chapter.major {
        true
    } else if a.chapter.major > b.chapter.major {
        false
    } else {
        let ar = opt_rank_lt(&a.chapter.minor, &b.chapter.minor);
        let br = opt_rank_lt(&b.chapter.minor, &a.chapter.minor);
        if ar {
            true
        } else if br {
            false
        } else {
            opt_rank_lt(&a.page, &b.page)
        }
    }
}

fn opt_rank_lt(a: &Option<usize>, b: &Option<usize>) -> (r: bool)
    ensures
        r == (opt_rank(*a) < opt_rank(*b)),
{
    match (a, b) {
        (None, None) => false,
        (None, Some(_)) => true,
        (Some(_), None) => false,
        (Some(x), Some(y)) => *x < *y,
    }
}

} // verus!
