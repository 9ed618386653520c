//! Building the remote search request.
//!
//! One fetch asks the remote API for one page: the keyword, the page
//! number, the page size, and the three filter dimensions, each filter
//! serialized as a comma-joined list of numeric codes — or the sentinel
//! `0`, which is what the remote API requires to mean "no filter" (an
//! empty list would not do).

use vstd::prelude::*;
use vstd::string::StringExecFns;
use crate::query::{OpendictQuery, QueryView};

verus! {

/// The decimal digit character for `d`.
pub open spec fn digit_char(d: nat) -> char {
    if d == 0 {
        '0'
    } else if d == 1 {
        '1'
    } else if d == 2 {
        '2'
    } else if d == 3 {
        '3'
    } else if d == 4 {
        '4'
    } else if d == 5 {
        '5'
    } else if d == 6 {
        '6'
    } else if d == 7 {
        '7'
    } else if d == 8 {
        '8'
    } else {
        '9'
    }
}

/// The decimal representation of `n`, without leading zeros (except for
/// `0` itself).
pub open spec fn dec_rep(n: nat) -> Seq<char>
    decreases n,
{
    if n < 10 {
        seq![digit_char(n)]
    } else {
        dec_rep(n / 10).push(digit_char(n % 10))
    }
}

/// A filter dimension on the wire: the comma-joined decimal codes.
pub open spec fn codes_rep(codes: Seq<u8>) -> Seq<char>
    decreases codes.len(),
{
    if codes.len() == 0 {
        Seq::empty()
    } else if codes.len() == 1 {
        dec_rep(codes[0] as nat)
    } else {
        dec_rep(codes[0] as nat) + seq![','] + codes_rep(codes.skip(1))
    }
}

/// A filter dimension on the wire, with the remote API's sentinel: `0`
/// when the filter is empty (meaning "all"), the joined codes otherwise.
pub open spec fn filter_rep(codes: Seq<u8>) -> Seq<char> {
    if codes.len() == 0 {
        seq!['0']
    } else {
        codes_rep(codes)
    }
}

/// Append one decimal digit.
fn append_digit(out: &mut String, d: u32)
    requires
        d < 10,
    ensures
        final(out)@ == old(out)@ + seq![digit_char(d as nat)],
{
    proof {
        reveal_strlit("0");
        reveal_strlit("1");
        reveal_strlit("2");
        reveal_strlit("3");
        reveal_strlit("4");
        reveal_strlit("5");
        reveal_strlit("6");
        reveal_strlit("7");
        reveal_strlit("8");
        reveal_strlit("9");
    }
    if d == 0 {
        out.append("0");
    } else if d == 1 {
        out.append("1");
    } else if d == 2 {
        out.append("2");
    } else if d == 3 {
        out.append("3");
    } else if d == 4 {
        out.append("4");
    } else if d == 5 {
        out.append("5");
    } else if d == 6 {
        out.append("6");
    } else if d == 7 {
        out.append("7");
    } else if d == 8 {
        out.append("8");
    } else {
        out.append("9");
    }
    proof {
        assert(final(out)@ =~= old(out)@ + seq![digit_char(d as nat)]);
    }
}

/// Append the decimal representation of `n`.
fn append_u32_decimal(out: &mut String, n: u32)
    ensures
        final(out)@ == old(out)@ + dec_rep(n as nat),
    decreases n,
{
    if n >= 10 {
        append_u32_decimal(out, n / 10);
    }
    append_digit(out, n % 10);
    proof {
        if n < 10 {
            assert(n as nat % 10 == n as nat);
        }
        assert(final(out)@ =~= old(out)@ + dec_rep(n as nat));
    }
}

/// Appending one more code extends the joined representation by a comma
/// and that code (or starts it, for the first code).
proof fn lemma_codes_rep_push(codes: Seq<u8>, x: u8)
    ensures
        codes.len() == 0 ==> codes_rep(codes.push(x)) == dec_rep(x as nat),
        codes.len() > 0 ==> codes_rep(codes.push(x)) == codes_rep(codes) + seq![','] + dec_rep(
            x as nat,
        ),
    decreases codes.len(),
{
    if codes.len() == 0 {
        assert(codes.push(x).len() == 1);
        assert(codes.push(x)[0] == x);
    } else {
        lemma_codes_rep_push(codes.skip(1), x);
        assert(codes.push(x).skip(1) =~= codes.skip(1).push(x));
        assert(codes.push(x)[0] == codes[0]);
        if codes.len() == 1 {
            assert(codes_rep(codes.push(x)) == dec_rep(codes[0] as nat) + seq![','] + codes_rep(
                codes.skip(1).push(x),
            ));
            assert(codes_rep(codes.skip(1).push(x)) == dec_rep(x as nat));
        } else {
            assert(codes_rep(codes.push(x)) =~= codes_rep(codes) + seq![','] + dec_rep(x as nat));
        }
    }
}

/// Append a filter dimension: the comma-joined codes, or the sentinel
/// `0` for an empty filter.
fn append_filter(out: &mut String, codes: &Vec<u8>)
    ensures
        final(out)@ == old(out)@ + filter_rep(codes@),
{
    if codes.len() == 0 {
        proof {
            reveal_strlit("0");
        }
        out.append("0");
        proof {
            assert(final(out)@ =~= old(out)@ + filter_rep(codes@));
        }
        return ;
    }
    let ghost base = out@;
    let mut i: usize = 0;
    while i < codes.len()
        invariant
            i <= codes@.len(),
            codes@.len() > 0,
            out@ == base + codes_rep(codes@.take(i as int)),
        decreases codes@.len() - i,
    {
        let ghost prefix = codes@.take(i as int);
        proof {
            reveal_strlit(",");
        }
        if i > 0 {
            out.append(",");
        }
        append_u32_decimal(out, codes[i] as u32);
        proof {
            lemma_codes_rep_push(prefix, codes@[i as int]);
            assert(codes@.take(i as int + 1) =~= prefix.push(codes@[i as int]));
            assert(out@ =~= base + codes_rep(codes@.take(i as int + 1)));
        }
        i += 1;
    }
    proof {
        assert(codes@.take(codes@.len() as int) =~= codes@);
        assert(out@ =~= old(out)@ + filter_rep(codes@));
    }
}

/// Relies on `String::push` of std: it appends exactly the one
/// character.
#[verifier::external_body]
fn append_char(out: &mut String, c: char)
    ensures
        final(out)@ == old(out)@ + seq![c],
{
    out.push(c);
}

/// The full search URL for one query, with the credential inlined, as
/// the remote API expects it.
pub open spec fn spec_search_url(q: QueryView, key: Seq<char>) -> Seq<char> {
    "https://opendict.korean.go.kr/api/search?key="@ + key + "&q="@ + seq![q.keyword]
        + "&req_type=json&start="@ + dec_rep(q.page as nat) + "&num="@ + dec_rep(q.amount as nat)
        + "&method=include&advanced=y&pos="@ + filter_rep(q.pos) + "&region="@ + filter_rep(
        q.region,
    ) + "&cat="@ + filter_rep(q.category)
}

fn pos_codes(xs: &Vec<crate::query::Pos>) -> (r: Vec<u8>)
    ensures
        r@ == xs@.map_values(|p: crate::query::Pos| p.0),
{
    let mut codes: Vec<u8> = Vec::new();
    let mut i: usize = 0;
    while i < xs.len()
        invariant
            i <= xs@.len(),
            codes@.len() == i,
            forall|j: int| 0 <= j < i ==> codes@[j] == xs@[j].0,
        decreases xs@.len() - i,
    {
        codes.push(xs[i].0);
        i += 1;
    }
    proof {
        assert(codes@ =~= xs@.map_values(|p: crate::query::Pos| p.0));
    }
    codes
}

fn region_codes(xs: &Vec<crate::query::Region>) -> (r: Vec<u8>)
    ensures
        r@ == xs@.map_values(|p: crate::query::Region| p.0),
{
    let mut codes: Vec<u8> = Vec::new();
    let mut i: usize = 0;
    while i < xs.len()
        invariant
            i <= xs@.len(),
            codes@.len() == i,
            forall|j: int| 0 <= j < i ==> codes@[j] == xs@[j].0,
        decreases xs@.len() - i,
    {
        codes.push(xs[i].0);
        i += 1;
    }
    proof {
        assert(codes@ =~= xs@.map_values(|p: crate::query::Region| p.0));
    }
    codes
}

fn category_codes(xs: &Vec<crate::query::Category>) -> (r: Vec<u8>)
    ensures
        r@ == xs@.map_values(|p: crate::query::Category| p.0),
{
    let mut codes: Vec<u8> = Vec::new();
    let mut i: usize = 0;
    while i < xs.len()
        invariant
            i <= xs@.len(),
            codes@.len() == i,
            forall|j: int| 0 <= j < i ==> codes@[j] == xs@[j].0,
        decreases xs@.len() - i,
    {
        codes.push(xs[i].0);
        i += 1;
    }
    proof {
        assert(codes@ =~= xs@.map_values(|p: crate::query::Category| p.0));
    }
    codes
}

/// Build the search URL for one query with the given credential.
pub fn build_search_url(query: &OpendictQuery, key: &str) -> (r: String)
    ensures
        r@ == spec_search_url(query@, key@),
{
    let mut out = String::new();
    out.append("https://opendict.korean.go.kr/api/search?key=");
    out.append(key);
    out.append("&q=");
    append_char(&mut out, query.keyword);
    out.append("&req_type=json&start=");
    append_u32_decimal(&mut out, query.page as u32);
    out.append("&num=");
    append_u32_decimal(&mut out, query.amount as u32);
    out.append("&method=include&advanced=y&pos=");
    let pos = pos_codes(&query.pos);
    append_filter(&mut out, &pos);
    out.append("&region=");
    let region = region_codes(&query.region);
    append_filter(&mut out, &region);
    out.append("&cat=");
    let category = category_codes(&query.category);
    append_filter(&mut out, &category);
    proof {
        assert(out@ =~= spec_search_url(query@, key@));
    }
    out
}

} // verus!
