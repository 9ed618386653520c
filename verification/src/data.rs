//! Durable data: one page of results and one dictionary entry.
//!
//! A page result records what one successful fetch returned; an entry is
//! one headword sense, keyed by the globally unique code the remote source
//! assigned to it. Both are written once per successful fetch and never
//! merged, only superseded.

use vstd::prelude::*;

verus! {

/// A calendar timestamp with second precision, as the remote API reports
/// its build date. Held as plain fields so validity is a statement about
/// integers.
#[derive(Debug, Clone, Copy, PartialEq, Eq, Structural)]
pub struct OpendictDateTime {
    pub year: u16,
    pub month: u8,
    pub day: u8,
    pub hour: u8,
    pub minute: u8,
    pub second: u8,
}

/// The Gregorian leap-year rule.
pub open spec fn is_leap_year(year: int) -> bool {
    (year % 4 == 0 && year % 100 != 0) || year % 400 == 0
}

/// Days in a month of the proleptic Gregorian calendar.
pub open spec fn days_in_month(year: int, month: int) -> int {
    if month == 2 {
        if is_leap_year(year) {
            29
        } else {
            28
        }
    } else if month == 4 || month == 6 || month == 9 || month == 11 {
        30
    } else {
        31
    }
}

impl OpendictDateTime {
    /// A timestamp is well formed when it names a real calendar date and a
    /// real time of day.
    pub open spec fn wf(self) -> bool {
        &&& self.year <= 9999
        &&& 1 <= self.month <= 12
        &&& 1 <= self.day <= days_in_month(self.year as int, self.month as int)
        &&& self.hour < 24
        &&& self.minute < 60
        &&& self.second < 60
    }
}

/// The mathematical value of a page result.
#[verifier::ext_equal]
pub struct ResultView {
    pub total: u32,
    pub size: u32,
    pub page: u32,
    pub data_index: Seq<u32>,
    pub datetime: OpendictDateTime,
}

/// What one successful fetch of a query returned: the remote totals and
/// the codes of the entries on the page, in page order.
#[derive(Debug, Clone)]
pub struct OpendictResult {
    /// Total number of matches the remote source reports for the keyword.
    pub total: u32,
    /// Number of entries actually returned on this page.
    pub size: u32,
    /// The page number the remote source echoed back.
    pub page: u32,
    /// The entry codes on this page, in the order the page listed them.
    pub data_index: Vec<u32>,
    /// The build date the remote source reported with the page.
    pub datetime: OpendictDateTime,
}

impl View for OpendictResult {
    type V = ResultView;

    open spec fn view(&self) -> ResultView {
        ResultView {
            total: self.total,
            size: self.size,
            page: self.page,
            data_index: self.data_index@,
            datetime: self.datetime,
        }
    }
}

fn code_lists_equal(a: &Vec<u32>, b: &Vec<u32>) -> (r: bool)
    ensures
        r == (a@ == b@),
{
    if a.len() != b.len() {
        return false;
    }
    let mut i: usize = 0;
    while i < a.len()
        invariant
            i <= a.len(),
            a.len() == b.len(),
            forall|j: int| 0 <= j < i ==> a@[j] == b@[j],
        decreases a.len() - i,
    {
        if a[i] != b[i] {
            return false;
        }
        i += 1;
    }
    proof {
        assert(a@ =~= b@);
    }
    true
}

impl PartialEq for OpendictResult {
    /// Structural equality over all fields.
    fn eq(&self, other: &OpendictResult) -> (r: bool) {
        let r = self.total == other.total && self.size == other.size && self.page == other.page
            && self.datetime == other.datetime
            && code_lists_equal(&self.data_index, &other.data_index);
        proof {
            if r {
                assert(self@ =~= other@);
            }
        }
        r
    }
}

impl vstd::std_specs::cmp::PartialEqSpecImpl for OpendictResult {
    open spec fn obeys_eq_spec() -> bool {
        true
    }

    open spec fn eq_spec(&self, other: &OpendictResult) -> bool {
        self@ == other@
    }
}

impl Eq for OpendictResult {}

/// The mathematical value of an entry.
#[verifier::ext_equal]
pub struct DataView {
    pub syntactic_annotation: Option<Seq<char>>,
    pub syntactic_argument: Option<Seq<char>>,
    pub word: Seq<char>,
    pub definition: Seq<char>,
    pub code: u32,
    pub kind: Seq<char>,
    pub pos: Seq<char>,
    pub origin: Option<Seq<char>>,
}

/// One dictionary headword sense, keyed in storage by `code` alone, so an
/// entry reached through different pages is deduplicated by overwrite.
#[derive(Debug, Clone)]
pub struct OpendictData {
    pub syntactic_annotation: Option<String>,
    pub syntactic_argument: Option<String>,
    pub word: String,
    pub definition: String,
    /// The globally unique entry code the remote source assigned.
    pub code: u32,
    /// The remote "type" field: the broad class of the headword.
    pub kind: String,
    /// The remote part-of-speech label, as free text.
    pub pos: String,
    pub origin: Option<String>,
}

/// The view of an optional string: `None`, or the character sequence.
pub open spec fn opt_string_view(s: Option<String>) -> Option<Seq<char>> {
    match s {
        Some(t) => Some(t@),
        None => None,
    }
}

impl View for OpendictData {
    type V = DataView;

    open spec fn view(&self) -> DataView {
        DataView {
            syntactic_annotation: opt_string_view(self.syntactic_annotation),
            syntactic_argument: opt_string_view(self.syntactic_argument),
            word: self.word@,
            definition: self.definition@,
            code: self.code,
            kind: self.kind@,
            pos: self.pos@,
            origin: opt_string_view(self.origin),
        }
    }
}

fn opt_strings_equal(a: &Option<String>, b: &Option<String>) -> (r: bool)
    ensures
        r == (opt_string_view(*a) == opt_string_view(*b)),
{
    match a {
        Some(x) => match b {
            Some(y) => x.eq(y),
            None => false,
        },
        None => b.is_none(),
    }
}

impl PartialEq for OpendictData {
    /// Structural equality over all fields.
    fn eq(&self, other: &OpendictData) -> (r: bool) {
        let r = self.code == other.code && self.word == other.word
            && self.definition == other.definition && self.kind == other.kind
            && self.pos == other.pos
            && opt_strings_equal(&self.syntactic_annotation, &other.syntactic_annotation)
            && opt_strings_equal(&self.syntactic_argument, &other.syntactic_argument)
            && opt_strings_equal(&self.origin, &other.origin);
        proof {
            if r {
                assert(self@ =~= other@);
            }
        }
        r
    }
}

impl vstd::std_specs::cmp::PartialEqSpecImpl for OpendictData {
    open spec fn obeys_eq_spec() -> bool {
        true
    }

    open spec fn eq_spec(&self, other: &OpendictData) -> bool {
        self@ == other@
    }
}

impl Eq for OpendictData {}

} // verus!
