//! Pagination headers of the hosting platform's REST listings, and the page count
//! they give.

use vstd::prelude::*;
use crate::json::json_array_len;
use crate::text::{
    chars_of, contains, find_char, lemma_find_char_from_bounds, matches_at, occurs_at, split_from,
    sub_vec,
};

verus! {

/// Whether a header token is the relation to the last page.
pub open spec fn names_last_page(tok: Seq<char>) -> bool {
    exists|i: int| occurs_at(tok, "rel=\"last\""@, i)
}

/// The first of `toks` that is the relation to the last page.
pub open spec fn first_last_token(toks: Seq<Seq<char>>) -> Option<Seq<char>>
    decreases toks.len(),
{
    if toks.len() == 0 {
        None
    } else if names_last_page(toks[0]) {
        Some(toks[0])
    } else {
        first_last_token(toks.drop_first())
    }
}

/// Whether the key of the `page` query parameter starts at `i`: `page=` right after
/// `?` or `&`.
pub open spec fn page_key_at(tok: Seq<char>, i: int) -> bool {
    0 < i && (tok[i - 1] == '?' || tok[i - 1] == '&') && occurs_at(tok, "page="@, i)
}

/// Where the first key of the `page` parameter at or after `i` starts, or `tok.len()`.
pub open spec fn page_key_from(tok: Seq<char>, i: int) -> int
    decreases tok.len() - i,
{
    if i < 0 || i >= tok.len() {
        tok.len() as int
    } else if page_key_at(tok, i) {
        i
    } else {
        page_key_from(tok, i + 1)
    }
}

pub open spec fn is_digit(c: char) -> bool {
    '0' <= c <= '9'
}

pub open spec fn digit_value(c: char) -> nat {
    (c as int - '0' as int) as nat
}

/// Where the run of decimal digits that starts at `i` ends.
pub open spec fn digits_end_from(tok: Seq<char>, i: int) -> int
    decreases tok.len() - i,
{
    if 0 <= i < tok.len() && is_digit(tok[i]) {
        digits_end_from(tok, i + 1)
    } else {
        i
    }
}

/// The number that a run of decimal digits writes.
pub open spec fn decimal_value(ds: Seq<char>) -> nat
    decreases ds.len(),
{
    if ds.len() == 0 {
        0
    } else {
        decimal_value(ds.drop_last()) * 10 + digit_value(ds.last())
    }
}

/// The value of the `page` query parameter in a header token, when it is written
/// with at least one digit and fits in a `u32`.
pub open spec fn page_param(tok: Seq<char>) -> Option<u32> {
    let k = page_key_from(tok, 0);
    let e = digits_end_from(tok, k + 5);
    if k >= tok.len() || e == k + 5 || decimal_value(tok.subrange(k + 5, e)) > u32::MAX {
        None
    } else {
        Some(decimal_value(tok.subrange(k + 5, e)) as u32)
    }
}

/// The page count that a pagination header gives: the `page` parameter of its first
/// token that is the relation to the last page.
pub open spec fn header_page_count(h: Seq<char>) -> Option<u32> {
    match first_last_token(split_from(h, ',', 0)) {
        Some(t) => page_param(t),
        None => None,
    }
}

/// The number of pages of a listing at one item per page, from its pagination header
/// when there is one, else from whether its body is a non-empty array.
pub open spec fn page_count(link: Option<Seq<char>>, body: Seq<char>) -> Option<u32> {
    match link {
        Some(h) => header_page_count(h),
        None => match json_array_len(body) {
            Some(n) => Some(if n == 0 { 0u32 } else { 1u32 }),
            None => None,
        },
    }
}

proof fn lemma_first_last_token(toks: Seq<Seq<char>>, k: int)
    requires
        0 <= k < toks.len(),
        names_last_page(toks[k]),
        forall|i: int| 0 <= i < toks.len() && i != k ==> !names_last_page(#[trigger] toks[i]),
    ensures
        first_last_token(toks) == Some(toks[k]),
    decreases toks.len(),
{
    if k > 0 {
        let t = toks.drop_first();
        assert forall|i: int| 0 <= i < t.len() && i != k - 1 implies !names_last_page(
            #[trigger] t[i],
        ) by {
            assert(t[i] == toks[i + 1]);
        }
        lemma_first_last_token(t, k - 1);
    }
}

/// A pagination header gives the page count of its one token that is the relation to
/// the last page, wherever that token stands among the others.
pub proof fn lemma_page_count_from_last_token(h: Seq<char>, body: Seq<char>, k: int)
    requires
        0 <= k < split_from(h, ',', 0).len(),
        names_last_page(split_from(h, ',', 0)[k]),
        forall|i: int|
            0 <= i < split_from(h, ',', 0).len() && i != k ==> !names_last_page(
                #[trigger] split_from(h, ',', 0)[i],
            ),
    ensures
        page_count(Some(h), body) == page_param(split_from(h, ',', 0)[k]),
{
    lemma_first_last_token(split_from(h, ',', 0), k);
}

proof fn lemma_digits_end_from(tok: Seq<char>, i: int)
    requires
        0 <= i <= tok.len(),
    ensures
        i <= digits_end_from(tok, i) <= tok.len(),
        forall|m: int| i <= m < digits_end_from(tok, i) ==> is_digit(tok[m]),
        digits_end_from(tok, i) < tok.len() ==> !is_digit(tok[digits_end_from(tok, i)]),
    decreases tok.len() - i,
{
    if i < tok.len() && is_digit(tok[i]) {
        lemma_digits_end_from(tok, i + 1);
    }
}

proof fn lemma_page_key_from(tok: Seq<char>, i: int)
    requires
        0 <= i <= tok.len(),
    ensures
        i <= page_key_from(tok, i) <= tok.len(),
        page_key_from(tok, i) < tok.len() ==> page_key_at(tok, page_key_from(tok, i)),
    decreases tok.len() - i,
{
    if i < tok.len() && !page_key_at(tok, i) {
        lemma_page_key_from(tok, i + 1);
    }
}

proof fn lemma_decimal_value_grows(ds: Seq<char>, n: int)
    requires
        0 <= n <= ds.len(),
    ensures
        decimal_value(ds.subrange(0, n)) <= decimal_value(ds),
    decreases ds.len(),
{
    if n < ds.len() {
        assert(ds.drop_last() =~= ds.subrange(0, ds.len() - 1));
        assert(ds.drop_last().subrange(0, n) =~= ds.subrange(0, n));
        lemma_decimal_value_grows(ds.drop_last(), n);
    } else {
        assert(ds.subrange(0, n) =~= ds);
    }
}

/// Whether `tok` is the relation to the last page.
fn names_last_page_exec(tok: &[char]) -> (r: bool)
    ensures
        r == names_last_page(tok@),
{
    let pat = chars_of("rel=\"last\"");
    proof {
        reveal_strlit("rel=\"last\"");
    }
    contains(tok, pat.as_slice())
}

/// Where the first key of the `page` parameter starts, or `tok.len()`.
fn find_page_key(tok: &[char]) -> (r: usize)
    ensures
        r == page_key_from(tok@, 0),
{
    let key = chars_of("page=");
    let mut k: usize = 0;
    while k < tok.len()
        invariant
            k <= tok@.len(),
            key@ == "page="@,
            page_key_from(tok@, 0) == page_key_from(tok@, k as int),
        decreases tok@.len() - k,
    {
        if k > 0 && (tok[k - 1] == '?' || tok[k - 1] == '&') && matches_at(tok, key.as_slice(), k) {
            return k;
        }
        k += 1;
    }
    k
}

/// The value of the `page` query parameter in a header token.
fn page_param_exec(tok: &[char]) -> (r: Option<u32>)
    ensures
        r == page_param(tok@),
{
    let k = find_page_key(tok);
    if k >= tok.len() {
        return None;
    }
    proof {
        reveal_strlit("page=");
        lemma_page_key_from(tok@, 0);
    }
    let v = k + 5;
    let ghost e = digits_end_from(tok@, v as int);
    proof {
        lemma_digits_end_from(tok@, v as int);
    }
    let mut acc: u64 = 0;
    let mut i: usize = v;
    while i < tok.len() && '0' <= tok[i] && tok[i] <= '9'
        invariant
            v <= i <= e,
            v == k + 5,
            k == page_key_from(tok@, 0),
            e <= tok@.len(),
            e == digits_end_from(tok@, v as int),
            forall|m: int| v <= m < e ==> is_digit(tok@[m]),
            e < tok@.len() ==> !is_digit(tok@[e]),
            acc == decimal_value(tok@.subrange(v as int, i as int)),
            acc <= u32::MAX,
        decreases tok@.len() - i,
    {
        let d = (tok[i] as u32 - '0' as u32) as u64;
        let ghost ds = tok@.subrange(v as int, i + 1);
        proof {
            assert(ds.drop_last() =~= tok@.subrange(v as int, i as int));
            assert(ds.last() == tok@[i as int]);
            assert(decimal_value(ds) == acc * 10 + d);
        }
        assert(i < e);
        if acc * 10 + d > u32::MAX as u64 {
            proof {
                lemma_decimal_value_grows(tok@.subrange(v as int, e), i + 1 - v);
                assert(tok@.subrange(v as int, e).subrange(0, i + 1 - v) =~= ds);
            }
            return None;
        }
        acc = acc * 10 + d;
        i += 1;
    }
    proof {
        if i < e {
            assert(is_digit(tok@[i as int]));
        }
    }
    if i == v {
        None
    } else {
        Some(acc as u32)
    }
}

/// The page count that a pagination header gives.
pub fn last_page(header: &str) -> (r: Option<u32>)
    ensures
        r == header_page_count(header@),
{
    let hc = chars_of(header);
    let n = hc.len();
    let mut start: usize = 0;
    loop
        invariant
            start <= n,
            n == hc@.len(),
            hc@ == header@,
            first_last_token(split_from(hc@, ',', start as int)) == first_last_token(
                split_from(hc@, ',', 0),
            ),
        decreases n - start,
    {
        let j = find_char(hc.as_slice(), ',', start);
        proof {
            lemma_find_char_from_bounds(hc@, ',', start as int);
        }
        let tok = sub_vec(hc.as_slice(), start, j);
        let ghost toks = split_from(hc@, ',', start as int);
        assert(toks[0] == tok@);
        if names_last_page_exec(tok.as_slice()) {
            return page_param_exec(tok.as_slice());
        }
        if j == n {
            assert(toks.drop_first() =~= Seq::<Seq<char>>::empty());
            assert(first_last_token(toks.drop_first()) == None::<Seq<char>>);
            return None;
        }
        assert(toks.drop_first() =~= split_from(hc@, ',', j + 1));
        start = j + 1;
    }
}

} // verus!
