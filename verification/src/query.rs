//! The crawl cursor: one query identifies one page of remote results.
//!
//! A query is a keyword from the Hangul alphabet, a page number, the number
//! of results requested per page, and three filter dimensions. Each filter
//! dimension is a closed set of numeric codes; an empty list means "no
//! filter". Queries double as cache keys, so equality is structural over
//! all fields.

use vstd::prelude::*;
use crate::alphabet::is_keyword;

verus! {

/// Highest page number the remote API serves for one keyword.
pub const PAGE_CEILING: u16 = 1000;

/// Largest number of results one page may request.
pub const MAX_AMOUNT: u8 = 100;

/// A part-of-speech filter code. The remote API defines the closed range
/// `1..=27`.
#[derive(Debug, Clone, Copy, PartialEq, Eq, Structural)]
pub struct Pos(pub u8);

/// A dialect-region filter code. The remote API defines the closed range
/// `1..=23`.
#[derive(Debug, Clone, Copy, PartialEq, Eq, Structural)]
pub struct Region(pub u8);

/// A subject-category filter code. The remote API defines the closed range
/// `1..=66`.
#[derive(Debug, Clone, Copy, PartialEq, Eq, Structural)]
pub struct Category(pub u8);

impl Pos {
    pub open spec fn wf(self) -> bool {
        1 <= self.0 <= 27
    }

    /// The code of a known part of speech, or `None` outside the closed set.
    pub fn from_code(code: u8) -> (r: Option<Pos>)
        ensures
            r matches Some(p) ==> p.0 == code && p.wf(),
            r is None <==> !(1 <= code <= 27),
    {
        if 1 <= code && code <= 27 {
            Some(Pos(code))
        } else {
            None
        }
    }
}

impl Region {
    pub open spec fn wf(self) -> bool {
        1 <= self.0 <= 23
    }

    /// The code of a known dialect region, or `None` outside the closed set.
    pub fn from_code(code: u8) -> (r: Option<Region>)
        ensures
            r matches Some(p) ==> p.0 == code && p.wf(),
            r is None <==> !(1 <= code <= 23),
    {
        if 1 <= code && code <= 23 {
            Some(Region(code))
        } else {
            None
        }
    }
}

impl Category {
    pub open spec fn wf(self) -> bool {
        1 <= self.0 <= 66
    }

    /// The code of a known subject category, or `None` outside the closed set.
    pub fn from_code(code: u8) -> (r: Option<Category>)
        ensures
            r matches Some(p) ==> p.0 == code && p.wf(),
            r is None <==> !(1 <= code <= 66),
    {
        if 1 <= code && code <= 66 {
            Some(Category(code))
        } else {
            None
        }
    }
}

/// The mathematical value of a query: the keyword, the two bounded
/// counters, and the three filter dimensions as sequences of raw codes.
#[verifier::ext_equal]
pub struct QueryView {
    pub keyword: char,
    pub page: u16,
    pub amount: u8,
    pub pos: Seq<u8>,
    pub region: Seq<u8>,
    pub category: Seq<u8>,
}

/// One page worth of search criteria: the crawl cursor and the cache key.
#[derive(Debug, Clone)]
pub struct OpendictQuery {
    /// The single search keyword, drawn from the Hangul syllable block.
    pub keyword: char,
    /// Page number, `1..=1000`.
    pub page: u16,
    /// Results requested per page, `1..=100`.
    pub amount: u8,
    /// Part-of-speech filter; empty means all.
    pub pos: Vec<Pos>,
    /// Dialect-region filter; empty means all.
    pub region: Vec<Region>,
    /// Subject-category filter; empty means all.
    pub category: Vec<Category>,
}

impl View for OpendictQuery {
    type V = QueryView;

    open spec fn view(&self) -> QueryView {
        QueryView {
            keyword: self.keyword,
            page: self.page,
            amount: self.amount,
            pos: self.pos@.map_values(|p: Pos| p.0),
            region: self.region@.map_values(|p: Region| p.0),
            category: self.category@.map_values(|p: Category| p.0),
        }
    }
}

impl QueryView {
    /// A query is well formed when its keyword lies in the alphabet and
    /// every filter code lies in its closed set. The page may exceed the
    /// ceiling transiently: the sequencer turns such a cursor into a
    /// keyword advance.
    pub open spec fn wf(self) -> bool {
        &&& is_keyword(self.keyword)
        &&& 1 <= self.page
        &&& 1 <= self.amount <= MAX_AMOUNT
        &&& forall|i: int| 0 <= i < self.pos.len() ==> 1 <= #[trigger] self.pos[i] <= 27
        &&& forall|i: int| 0 <= i < self.region.len() ==> 1 <= #[trigger] self.region[i] <= 23
        &&& forall|i: int| 0 <= i < self.category.len() ==> 1 <= #[trigger] self.category[i] <= 66
    }
}

/// Whether a query is well formed: keyword in the alphabet, counters in
/// range, every filter code in its closed set.
pub fn query_wf(q: &OpendictQuery) -> (r: bool)
    ensures
        r == q@.wf(),
{
    let kw: u32 = q.keyword as u32;
    if !(0xAC00 <= kw && kw <= 0xD7A3) {
        proof {
            vstd::utf8::char_is_scalar(q.keyword);
        }
        return false;
    }
    if q.page < 1 {
        return false;
    }
    if q.amount < 1 || q.amount > MAX_AMOUNT {
        return false;
    }
    let mut i: usize = 0;
    while i < q.pos.len()
        invariant
            i <= q.pos@.len(),
            forall|j: int| 0 <= j < i ==> 1 <= #[trigger] q@.pos[j] <= 27,
        decreases q.pos@.len() - i,
    {
        if q.pos[i].0 < 1 || q.pos[i].0 > 27 {
            proof {
                assert(q@.pos[i as int] == q.pos@[i as int].0);
            }
            return false;
        }
        i += 1;
    }
    let mut i: usize = 0;
    while i < q.region.len()
        invariant
            i <= q.region@.len(),
            forall|j: int| 0 <= j < i ==> 1 <= #[trigger] q@.region[j] <= 23,
        decreases q.region@.len() - i,
    {
        if q.region[i].0 < 1 || q.region[i].0 > 23 {
            proof {
                assert(q@.region[i as int] == q.region@[i as int].0);
            }
            return false;
        }
        i += 1;
    }
    let mut i: usize = 0;
    while i < q.category.len()
        invariant
            i <= q.category@.len(),
            forall|j: int| 0 <= j < i ==> 1 <= #[trigger] q@.category[j] <= 66,
        decreases q.category@.len() - i,
    {
        if q.category[i].0 < 1 || q.category[i].0 > 66 {
            proof {
                assert(q@.category[i as int] == q.category@[i as int].0);
            }
            return false;
        }
        i += 1;
    }
    true
}

fn pos_lists_equal(a: &Vec<Pos>, b: &Vec<Pos>) -> (r: bool)
    ensures
        r == (a@.map_values(|p: Pos| p.0) == b@.map_values(|p: Pos| p.0)),
{
    if a.len() != b.len() {
        proof {
            assert(a@.map_values(|p: Pos| p.0).len() == a@.len());
        }
        return false;
    }
    let ghost am = a@.map_values(|p: Pos| p.0);
    let ghost bm = b@.map_values(|p: Pos| p.0);
    let mut i: usize = 0;
    while i < a.len()
        invariant
            i <= a.len(),
            a.len() == b.len(),
            am == a@.map_values(|p: Pos| p.0),
            bm == b@.map_values(|p: Pos| p.0),
            forall|j: int| 0 <= j < i ==> am[j] == bm[j],
        decreases a.len() - i,
    {
        if a[i].0 != b[i].0 {
            proof {
                assert(am[i as int] != bm[i as int]);
            }
            return false;
        }
        i += 1;
    }
    proof {
        assert(am =~= bm);
    }
    true
}

fn region_lists_equal(a: &Vec<Region>, b: &Vec<Region>) -> (r: bool)
    ensures
        r == (a@.map_values(|p: Region| p.0) == b@.map_values(|p: Region| p.0)),
{
    if a.len() != b.len() {
        proof {
            assert(a@.map_values(|p: Region| p.0).len() == a@.len());
        }
        return false;
    }
    let ghost am = a@.map_values(|p: Region| p.0);
    let ghost bm = b@.map_values(|p: Region| p.0);
    let mut i: usize = 0;
    while i < a.len()
        invariant
            i <= a.len(),
            a.len() == b.len(),
            am == a@.map_values(|p: Region| p.0),
            bm == b@.map_values(|p: Region| p.0),
            forall|j: int| 0 <= j < i ==> am[j] == bm[j],
        decreases a.len() - i,
    {
        if a[i].0 != b[i].0 {
            proof {
                assert(am[i as int] != bm[i as int]);
            }
            return false;
        }
        i += 1;
    }
    proof {
        assert(am =~= bm);
    }
    true
}

fn category_lists_equal(a: &Vec<Category>, b: &Vec<Category>) -> (r: bool)
    ensures
        r == (a@.map_values(|p: Category| p.0) == b@.map_values(|p: Category| p.0)),
{
    if a.len() != b.len() {
        proof {
            assert(a@.map_values(|p: Category| p.0).len() == a@.len());
        }
        return false;
    }
    let ghost am = a@.map_values(|p: Category| p.0);
    let ghost bm = b@.map_values(|p: Category| p.0);
    let mut i: usize = 0;
    while i < a.len()
        invariant
            i <= a.len(),
            a.len() == b.len(),
            am == a@.map_values(|p: Category| p.0),
            bm == b@.map_values(|p: Category| p.0),
            forall|j: int| 0 <= j < i ==> am[j] == bm[j],
        decreases a.len() - i,
    {
        if a[i].0 != b[i].0 {
            proof {
                assert(am[i as int] != bm[i as int]);
            }
            return false;
        }
        i += 1;
    }
    proof {
        assert(am =~= bm);
    }
    true
}

impl PartialEq for OpendictQuery {
    /// Structural equality over all fields; two queries are the same cache
    /// key exactly when their views agree.
    fn eq(&self, other: &OpendictQuery) -> (r: bool) {
        let r = self.keyword == other.keyword && self.page == other.page
            && self.amount == other.amount && pos_lists_equal(&self.pos, &other.pos)
            && region_lists_equal(&self.region, &other.region)
            && category_lists_equal(&self.category, &other.category);
        proof {
            if r {
                assert(self@ =~= other@);
            }
        }
        r
    }
}

impl vstd::std_specs::cmp::PartialEqSpecImpl for OpendictQuery {
    open spec fn obeys_eq_spec() -> bool {
        true
    }

    open spec fn eq_spec(&self, other: &OpendictQuery) -> bool {
        self@ == other@
    }
}

impl Eq for OpendictQuery {}

} // verus!
