//! Row-level policy of the bulk importers, and office-id normalization.
//!
//! The importers take rows of plain parsed cell values: the surrounding
//! application reads the spreadsheet and hands each row over as optional
//! integers.  Validation, defaulting, the derived outside-lab spend, the
//! duplicate-week skip policy and the follow-up monthly rollup all
//! happen here, under contract.

use vstd::prelude::*;

use vstd::string::StringSliceAdditionalSpecFns;

use crate::records::{FinancialData, WeeklyVolumeData, KeyedRow, row_at, fin_row_wf,
    weekly_row_wf, MAX_UNITS};
use crate::store::{Store, spec_fin_merge};
use crate::rollup::{aggregate_weekly_to_monthly, rollup_rel, group_keys_seq};

verus! {

/// Largest magnitude accepted for an imported monetary amount, in minor
/// units.  Half the store's bound, so that the derived outside-lab
/// spend (a difference of two amounts) stays within the store's bound.
pub const IMPORT_AMOUNT_LIMIT: i64 = 500_000_000_000_000;

// ---------------------------------------------------------------------
// Office-id normalization
// ---------------------------------------------------------------------

/// Byte length of the whitespace character encoded at the front of `s`,
/// zero when `s` does not start with whitespace.  The character set is
/// Unicode's White_Space, the one `char::is_whitespace` recognizes, as
/// UTF-8 byte sequences: the six ASCII controls and space; next line
/// and no-break space; ogham space mark; the en-quad .. hair-space run;
/// line and paragraph separators; narrow no-break, medium mathematical
/// and ideographic spaces.
pub open spec fn space_prefix_len(s: Seq<u8>) -> int {
    if s.len() >= 1 && (s[0] == 9 || s[0] == 10 || s[0] == 11 || s[0] == 12 || s[0] == 13 || s[0]
        == 32) {
        1
    } else if s.len() >= 2 && s[0] == 0xc2 && (s[1] == 0x85 || s[1] == 0xa0) {
        2
    } else if s.len() >= 3 && s[0] == 0xe1 && s[1] == 0x9a && s[2] == 0x80 {
        3
    } else if s.len() >= 3 && s[0] == 0xe2 && s[1] == 0x80 && (0x80 <= s[2] <= 0x8a || s[2] == 0xa8
        || s[2] == 0xa9 || s[2] == 0xaf) {
        3
    } else if s.len() >= 3 && s[0] == 0xe2 && s[1] == 0x81 && s[2] == 0x9f {
        3
    } else if s.len() >= 3 && s[0] == 0xe3 && s[1] == 0x80 && s[2] == 0x80 {
        3
    } else {
        0
    }
}

/// Byte length of the whitespace character encoded at the end of `s`,
/// zero when `s` does not end with whitespace; the same character set
/// as [`space_prefix_len`].  On valid UTF-8 the match is unambiguous:
/// no leading byte of these sequences can be a continuation byte.
pub open spec fn space_suffix_len(s: Seq<u8>) -> int {
    let n = s.len() as int;
    if n >= 1 && (s[n - 1] == 9 || s[n - 1] == 10 || s[n - 1] == 11 || s[n - 1] == 12 || s[n - 1]
        == 13 || s[n - 1] == 32) {
        1
    } else if n >= 2 && s[n - 2] == 0xc2 && (s[n - 1] == 0x85 || s[n - 1] == 0xa0) {
        2
    } else if n >= 3 && s[n - 3] == 0xe1 && s[n - 2] == 0x9a && s[n - 1] == 0x80 {
        3
    } else if n >= 3 && s[n - 3] == 0xe2 && s[n - 2] == 0x80 && (0x80 <= s[n - 1] <= 0x8a || s[n
        - 1] == 0xa8 || s[n - 1] == 0xa9 || s[n - 1] == 0xaf) {
        3
    } else if n >= 3 && s[n - 3] == 0xe2 && s[n - 2] == 0x81 && s[n - 1] == 0x9f {
        3
    } else if n >= 3 && s[n - 3] == 0xe3 && s[n - 2] == 0x80 && s[n - 1] == 0x80 {
        3
    } else {
        0
    }
}

pub open spec fn trim_front(s: Seq<u8>) -> Seq<u8>
    decreases s.len(),
{
    let k = space_prefix_len(s);
    if k > 0 {
        trim_front(s.subrange(k, s.len() as int))
    } else {
        s
    }
}

pub open spec fn trim_back(s: Seq<u8>) -> Seq<u8>
    decreases s.len(),
{
    let k = space_suffix_len(s);
    if k > 0 {
        trim_back(s.subrange(0, s.len() - k))
    } else {
        s
    }
}

pub open spec fn trimmed(s: Seq<u8>) -> Seq<u8> {
    trim_back(trim_front(s))
}

pub open spec fn is_digit_byte(b: u8) -> bool {
    48 <= b <= 57
}

pub open spec fn all_digits(s: Seq<u8>) -> bool {
    forall|i: int| 0 <= i < s.len() ==> is_digit_byte(#[trigger] s[i])
}

/// The number written by a digit string, most significant digit first.
pub open spec fn digits_value(s: Seq<u8>) -> int
    decreases s.len(),
{
    if s.len() == 0 {
        0
    } else {
        digits_value(s.drop_last()) * 10 + (s.last() - 48)
    }
}

/// Splits a leading sign off a byte string: the sign's meaning and the
/// remaining digits.
pub open spec fn sign_split(t: Seq<u8>) -> (bool, Seq<u8>) {
    if t.len() == 0 {
        (false, t)
    } else if t[0] == 45 {
        (true, t.subrange(1, t.len() as int))
    } else if t[0] == 43 {
        (false, t.subrange(1, t.len() as int))
    } else {
        (false, t)
    }
}

/// Decimal parse of a trimmed byte string: an optional sign, then one or
/// more digits, with the value inside the signed 64-bit range.
pub open spec fn spec_parse_i64(t: Seq<u8>) -> Option<i64> {
    let (neg, ds) = sign_split(t);
    if t.len() == 0 || ds.len() == 0 || !all_digits(ds) {
        None
    } else {
        let v = digits_value(ds);
        if neg {
            if v <= 0x8000_0000_0000_0000 {
                Some((-v) as i64)
            } else {
                None
            }
        } else {
            if v <= 0x7fff_ffff_ffff_ffff {
                Some(v as i64)
            } else {
                None
            }
        }
    }
}

/// Office-id cells normalize by trimming surrounding whitespace and
/// reading the remainder as a decimal integer, which also strips
/// leading zeros.
pub open spec fn spec_normalize_office_id(s: Seq<u8>) -> Option<i64> {
    spec_parse_i64(trimmed(s))
}

/// Byte length of the whitespace character at position `start` of `b`,
/// looking no further than `end`.
fn space_at(b: &[u8], start: usize, end: usize) -> (k: usize)
    requires
        start <= end <= b@.len(),
    ensures
        k as int == space_prefix_len(b@.subrange(start as int, end as int)),
{
    let n = end - start;
    if n >= 1 {
        let b0 = b[start];
        if b0 == 9 || b0 == 10 || b0 == 11 || b0 == 12 || b0 == 13 || b0 == 32 {
            return 1;
        }
        if n >= 2 {
            let b1 = b[start + 1];
            if b0 == 0xc2 && (b1 == 0x85 || b1 == 0xa0) {
                return 2;
            }
            if n >= 3 {
                let b2 = b[start + 2];
                if b0 == 0xe1 && b1 == 0x9a && b2 == 0x80 {
                    return 3;
                }
                if b0 == 0xe2 && b1 == 0x80 && ((0x80 <= b2 && b2 <= 0x8a) || b2 == 0xa8 || b2
                    == 0xa9 || b2 == 0xaf) {
                    return 3;
                }
                if b0 == 0xe2 && b1 == 0x81 && b2 == 0x9f {
                    return 3;
                }
                if b0 == 0xe3 && b1 == 0x80 && b2 == 0x80 {
                    return 3;
                }
            }
        }
    }
    0
}

/// Byte length of the whitespace character ending at position `end` of
/// `b`, looking no further back than `start`.
fn space_at_end(b: &[u8], start: usize, end: usize) -> (k: usize)
    requires
        start <= end <= b@.len(),
    ensures
        k as int == space_suffix_len(b@.subrange(start as int, end as int)),
{
    let n = end - start;
    if n >= 1 {
        let b1 = b[end - 1];
        if b1 == 9 || b1 == 10 || b1 == 11 || b1 == 12 || b1 == 13 || b1 == 32 {
            return 1;
        }
        if n >= 2 {
            let b2 = b[end - 2];
            if b2 == 0xc2 && (b1 == 0x85 || b1 == 0xa0) {
                return 2;
            }
            if n >= 3 {
                let b3 = b[end - 3];
                if b3 == 0xe1 && b2 == 0x9a && b1 == 0x80 {
                    return 3;
                }
                if b3 == 0xe2 && b2 == 0x80 && ((0x80 <= b1 && b1 <= 0x8a) || b1 == 0xa8 || b1
                    == 0xa9 || b1 == 0xaf) {
                    return 3;
                }
                if b3 == 0xe2 && b2 == 0x81 && b1 == 0x9f {
                    return 3;
                }
                if b3 == 0xe3 && b2 == 0x80 && b1 == 0x80 {
                    return 3;
                }
            }
        }
    }
    0
}

proof fn lemma_digits_nonneg(s: Seq<u8>)
    requires
        all_digits(s),
    ensures
        digits_value(s) >= 0,
    decreases s.len(),
{
    if s.len() > 0 {
        let head = s.drop_last();
        assert forall|x: int| 0 <= x < head.len() implies is_digit_byte(#[trigger] head[x]) by {
            assert(head[x] == s[x]);
        }
        lemma_digits_nonneg(head);
        assert(is_digit_byte(s.last()));
    }
}

/// More digits never shrink the value.
proof fn lemma_digits_extend(s: Seq<u8>, i: int)
    requires
        all_digits(s),
        0 <= i <= s.len(),
    ensures
        digits_value(s) >= digits_value(s.take(i)),
    decreases s.len() - i,
{
    if i < s.len() {
        let a = s.take(i);
        let b = s.take(i + 1);
        assert(b.drop_last() =~= a);
        assert(b.last() == s[i]);
        assert forall|x: int| 0 <= x < a.len() implies is_digit_byte(#[trigger] a[x]) by {
            assert(a[x] == s[x]);
        }
        lemma_digits_nonneg(a);
        assert(is_digit_byte(s[i]));
        assert(digits_value(b) == digits_value(a) * 10 + (s[i] - 48));
        assert(digits_value(a) * 10 >= digits_value(a));
        lemma_digits_extend(s, i + 1);
    } else {
        assert(s.take(s.len() as int) =~= s);
    }
}

/// Normalizes an office-id cell: trims surrounding whitespace and reads
/// the remainder as a decimal integer (stripping leading zeros); `None`
/// when nothing numeric remains or the value overflows 64 bits.
pub fn normalize_office_id(raw_id: &str) -> (r: Option<i64>)
    ensures
        r == spec_normalize_office_id(raw_id.spec_bytes()),
{
    let b = raw_id.as_bytes();
    let n = b.len();
    proof {
        assert(b@.subrange(0, n as int) =~= b@);
    }
    let mut start: usize = 0;
    loop
        invariant_except_break
            start <= n,
            n == b@.len(),
            trim_front(b@) == trim_front(b@.subrange(start as int, n as int)),
        ensures
            start <= n,
            n == b@.len(),
            trim_front(b@) == b@.subrange(start as int, n as int),
        decreases n - start,
    {
        let k = space_at(b, start, n);
        if k == 0 {
            break ;
        }
        proof {
            let s0 = b@.subrange(start as int, n as int);
            assert(s0.subrange(space_prefix_len(s0), s0.len() as int) =~= b@.subrange(
                start as int + k as int,
                n as int,
            ));
        }
        start = start + k;
    }
    let mut end: usize = n;
    loop
        invariant_except_break
            start <= end <= n,
            n == b@.len(),
            trim_front(b@) == b@.subrange(start as int, n as int),
            trim_back(b@.subrange(start as int, n as int)) == trim_back(
                b@.subrange(start as int, end as int),
            ),
        ensures
            start <= end <= n,
            n == b@.len(),
            trimmed(b@) == b@.subrange(start as int, end as int),
        decreases end,
    {
        let k = space_at_end(b, start, end);
        if k == 0 {
            break ;
        }
        proof {
            let s0 = b@.subrange(start as int, end as int);
            assert(s0.subrange(0, s0.len() - space_suffix_len(s0)) =~= b@.subrange(
                start as int,
                end as int - k as int,
            ));
        }
        end = end - k;
    }
    let ghost t = b@.subrange(start as int, end as int);
    if start == end {
        return None;
    }
    let first = b[start];
    let neg = first == 45u8;
    let ds_start = if first == 45u8 || first == 43u8 {
        start + 1
    } else {
        start
    };
    let ghost ds = b@.subrange(ds_start as int, end as int);
    proof {
        assert(t[0] == b@[start as int]);
        if first == 45u8 || first == 43u8 {
            assert(t.subrange(1, t.len() as int) =~= ds);
        } else {
            assert(t =~= ds);
        }
        assert(sign_split(t) == (neg, ds));
    }
    if ds_start == end {
        return None;
    }
    let mut m: u128 = 0;
    let mut p: usize = ds_start;
    while p < end
        invariant
            ds_start <= p <= end,
            end <= n,
            n == b@.len(),
            t == trimmed(raw_id.spec_bytes()),
            t.len() > 0,
            sign_split(t) == (neg, ds),
            ds == b@.subrange(ds_start as int, end as int),
            ds.len() > 0,
            all_digits(b@.subrange(ds_start as int, p as int)),
            m == digits_value(b@.subrange(ds_start as int, p as int)),
            m <= 0x8000_0000_0000_0000,
        decreases end - p,
    {
        let ghost processed = b@.subrange(ds_start as int, p as int);
        let c = b[p];
        if c < 48 || c > 57 {
            proof {
                assert(ds[p - ds_start] == b@[p as int]);
                assert(!is_digit_byte(ds[p - ds_start]));
            }
            return None;
        }
        let d = (c - 48) as u128;
        let m2 = m * 10 + d;
        proof {
            let next = b@.subrange(ds_start as int, p as int + 1);
            assert(next.drop_last() =~= processed);
            assert(next.last() == b@[p as int]);
            assert forall|x: int| 0 <= x < next.len() implies is_digit_byte(
                #[trigger] next[x],
            ) by {
                if x < next.len() - 1 {
                    assert(next[x] == processed[x]);
                }
            }
        }
        if m2 > 0x8000_0000_0000_0000u128 {
            proof {
                if all_digits(ds) {
                    let next = b@.subrange(ds_start as int, p as int + 1);
                    assert(ds.take(p as int + 1 - ds_start) =~= next);
                    lemma_digits_extend(ds, p as int + 1 - ds_start);
                    assert(digits_value(ds) >= m2);
                }
            }
            return None;
        }
        m = m2;
        p = p + 1;
    }
    proof {
        assert(b@.subrange(ds_start as int, end as int) =~= ds);
        lemma_digits_nonneg(ds);
    }
    if neg {
        Some((-(m as i128)) as i64)
    } else {
        if m > 0x7fff_ffff_ffff_ffffu128 {
            None
        } else {
            Some(m as i64)
        }
    }
}

// ---------------------------------------------------------------------
// Bulk financial import
// ---------------------------------------------------------------------

/// Why an imported row was rejected.
#[derive(Clone, Copy, Debug, PartialEq, Eq, Structural)]
pub enum IssueKind {
    MissingOfficeId,
    MissingYear,
    MissingMonth,
    InvalidMonth,
    MissingWeek,
    InvalidWeek,
    YearOutOfRange,
    AmountOutOfRange,
    CountOutOfRange,
}

/// One rejected row of a bulk import, by its index in the input.
#[derive(Clone, Copy, Debug, PartialEq, Eq, Structural)]
pub struct ImportIssue {
    pub row: usize,
    pub kind: IssueKind,
}

/// One parsed row of a bulk financial import; a missing or unparseable
/// cell is `None`.
#[derive(Clone, Copy, Debug, PartialEq, Eq)]
pub struct FinancialImportRow {
    pub office_id: Option<i64>,
    pub year: Option<i64>,
    pub month: Option<i64>,
    pub revenue: Option<i64>,
    pub lab_exp_no_outside: Option<i64>,
    pub lab_exp_with_outside: Option<i64>,
    pub teeth_supplies: Option<i64>,
    pub lab_supplies: Option<i64>,
    pub lab_hub: Option<i64>,
    pub lss_expense: Option<i64>,
    pub personnel_exp: Option<i64>,
    pub overtime_exp: Option<i64>,
    pub bonus_exp: Option<i64>,
}

/// What the importer decides for one row.
#[derive(Clone, Copy, Debug, PartialEq, Eq)]
pub enum FinDecision {
    Reject(IssueKind),
    Upsert(FinancialData),
}

/// A missing amount cell imports as zero.
pub open spec fn amount_or_zero(a: Option<i64>) -> i64 {
    match a {
        Some(v) => v,
        None => 0,
    }
}

pub open spec fn import_amount_ok(a: Option<i64>) -> bool {
    -IMPORT_AMOUNT_LIMIT <= amount_or_zero(a) <= IMPORT_AMOUNT_LIMIT
}

/// The financial import policy for one row: identity cells must be
/// present and valid, amounts default to zero and must be in range, and
/// the outside-lab spend is always derived from the two lab-expense
/// figures — never taken from the file.
pub open spec fn spec_financial_decision(r: FinancialImportRow) -> FinDecision {
    match r.office_id {
        None => FinDecision::Reject(IssueKind::MissingOfficeId),
        Some(o) => match r.year {
            None => FinDecision::Reject(IssueKind::MissingYear),
            Some(y) => match r.month {
                None => FinDecision::Reject(IssueKind::MissingMonth),
                Some(m) => if !(1 <= m <= 12) {
                    FinDecision::Reject(IssueKind::InvalidMonth)
                } else if !(-0x8000_0000 <= y <= 0x7fff_ffff) {
                    FinDecision::Reject(IssueKind::YearOutOfRange)
                } else if !(import_amount_ok(r.revenue) && import_amount_ok(r.lab_exp_no_outside)
                    && import_amount_ok(r.lab_exp_with_outside) && import_amount_ok(
                    r.teeth_supplies,
                ) && import_amount_ok(r.lab_supplies) && import_amount_ok(r.lab_hub)
                    && import_amount_ok(r.lss_expense) && import_amount_ok(r.personnel_exp)
                    && import_amount_ok(r.overtime_exp) && import_amount_ok(r.bonus_exp)) {
                    FinDecision::Reject(IssueKind::AmountOutOfRange)
                } else {
                    FinDecision::Upsert(
                        FinancialData {
                            id: None,
                            office_id: o,
                            year: y as i32,
                            month: m as i32,
                            revenue: Some(amount_or_zero(r.revenue)),
                            lab_exp_no_outside: Some(amount_or_zero(r.lab_exp_no_outside)),
                            lab_exp_with_outside: Some(amount_or_zero(r.lab_exp_with_outside)),
                            outside_lab_spend: Some(
                                (amount_or_zero(r.lab_exp_with_outside) - amount_or_zero(
                                    r.lab_exp_no_outside,
                                )) as i64,
                            ),
                            teeth_supplies: Some(amount_or_zero(r.teeth_supplies)),
                            lab_supplies: Some(amount_or_zero(r.lab_supplies)),
                            lab_hub: Some(amount_or_zero(r.lab_hub)),
                            lss_expense: Some(amount_or_zero(r.lss_expense)),
                            personnel_exp: Some(amount_or_zero(r.personnel_exp)),
                            overtime_exp: Some(amount_or_zero(r.overtime_exp)),
                            bonus_exp: Some(amount_or_zero(r.bonus_exp)),
                        },
                    )
                },
            },
        },
    }
}

fn amount_in_range(a: Option<i64>) -> (r: bool)
    ensures
        r == import_amount_ok(a),
{
    match a {
        Some(v) => -IMPORT_AMOUNT_LIMIT <= v && v <= IMPORT_AMOUNT_LIMIT,
        None => true,
    }
}

fn amount_value(a: Option<i64>) -> (r: i64)
    ensures
        r == amount_or_zero(a),
{
    match a {
        Some(v) => v,
        None => 0,
    }
}

/// Applies the financial import policy to one row.
pub fn financial_row_decision(r: &FinancialImportRow) -> (d: FinDecision)
    ensures
        d == spec_financial_decision(*r),
{
    let o = match r.office_id {
        None => {
            return FinDecision::Reject(IssueKind::MissingOfficeId);
        },
        Some(o) => o,
    };
    let y = match r.year {
        None => {
            return FinDecision::Reject(IssueKind::MissingYear);
        },
        Some(y) => y,
    };
    let m = match r.month {
        None => {
            return FinDecision::Reject(IssueKind::MissingMonth);
        },
        Some(m) => m,
    };
    if !(1 <= m && m <= 12) {
        return FinDecision::Reject(IssueKind::InvalidMonth);
    }
    if !(-0x8000_0000 <= y && y <= 0x7fff_ffff) {
        return FinDecision::Reject(IssueKind::YearOutOfRange);
    }
    if !(amount_in_range(r.revenue) && amount_in_range(r.lab_exp_no_outside) && amount_in_range(
        r.lab_exp_with_outside,
    ) && amount_in_range(r.teeth_supplies) && amount_in_range(r.lab_supplies) && amount_in_range(
        r.lab_hub,
    ) && amount_in_range(r.lss_expense) && amount_in_range(r.personnel_exp) && amount_in_range(
        r.overtime_exp,
    ) && amount_in_range(r.bonus_exp)) {
        return FinDecision::Reject(IssueKind::AmountOutOfRange);
    }
    let no_outside = amount_value(r.lab_exp_no_outside);
    let with_outside = amount_value(r.lab_exp_with_outside);
    FinDecision::Upsert(
        FinancialData {
            id: None,
            office_id: o,
            year: y as i32,
            month: m as i32,
            revenue: Some(amount_value(r.revenue)),
            lab_exp_no_outside: Some(no_outside),
            lab_exp_with_outside: Some(with_outside),
            outside_lab_spend: Some(with_outside - no_outside),
            teeth_supplies: Some(amount_value(r.teeth_supplies)),
            lab_supplies: Some(amount_value(r.lab_supplies)),
            lab_hub: Some(amount_value(r.lab_hub)),
            lss_expense: Some(amount_value(r.lss_expense)),
            personnel_exp: Some(amount_value(r.personnel_exp)),
            overtime_exp: Some(amount_value(r.overtime_exp)),
            bonus_exp: Some(amount_value(r.bonus_exp)),
        },
    )
}

/// The accepted row, if the policy accepts it.
pub open spec fn fin_accepted(r: FinancialImportRow) -> Option<FinancialData> {
    match spec_financial_decision(r) {
        FinDecision::Upsert(x) => Some(x),
        FinDecision::Reject(_) => None,
    }
}

/// The last accepted row carrying key `k`: imports upsert, so the last
/// write wins.
pub open spec fn last_accepted_fin(rows: Seq<FinancialImportRow>, k: (int, int, int)) -> Option<
    FinancialData,
>
    decreases rows.len(),
{
    if rows.len() == 0 {
        None
    } else {
        match fin_accepted(rows.last()) {
            Some(x) => if x.row_key() == k {
                Some(x)
            } else {
                last_accepted_fin(rows.drop_last(), k)
            },
            None => last_accepted_fin(rows.drop_last(), k),
        }
    }
}

/// Number of rows the policy accepts.
pub open spec fn fin_accepted_count(rows: Seq<FinancialImportRow>) -> int
    decreases rows.len(),
{
    if rows.len() == 0 {
        0
    } else {
        fin_accepted_count(rows.drop_last()) + (match fin_accepted(rows.last()) {
            Some(_) => 1int,
            None => 0int,
        })
    }
}

/// The stored id a key had before the import, if any.
pub open spec fn old_fin_id(s: Seq<FinancialData>, k: (int, int, int)) -> Option<i64> {
    match row_at(s, k) {
        Some(p) => p.id,
        None => None,
    }
}

/// Outcome counts of a bulk financial import.
#[derive(Clone, Debug, PartialEq, Eq)]
pub struct FinancialImportOutcome {
    pub rows_processed: usize,
    pub rows_inserted: usize,
    pub rows_updated: usize,
    pub issues: Vec<ImportIssue>,
}

/// Applies a parsed bulk financial import to the store: every valid row
/// is upserted under its (office, year, month) key, last write wins;
/// rejected rows are reported with their index and reason.
pub fn import_bulk_financial_rows(store: &mut Store, rows: &Vec<FinancialImportRow>) -> (out:
    FinancialImportOutcome)
    requires
        old(store).wf(),
    ensures
        final(store).wf(),
        final(store).offices == old(store).offices,
        final(store).ops == old(store).ops,
        final(store).volumes == old(store).volumes,
        final(store).weekly == old(store).weekly,
        final(store).notes == old(store).notes,
        final(store).submissions == old(store).submissions,
        forall|k: (int, int, int)| #[trigger]
            row_at(final(store).financials@, k) == (match last_accepted_fin(rows@, k) {
                Some(x) => Some(FinancialData { id: old_fin_id(old(store).financials@, k), ..x }),
                None => row_at(old(store).financials@, k),
            }),
        out.rows_processed == rows@.len(),
        out.rows_inserted == final(store).financials@.len() - old(store).financials@.len(),
        out.rows_inserted + out.rows_updated == fin_accepted_count(rows@),
        out.issues@.len() == rows@.len() - fin_accepted_count(rows@),
        forall|x: int|
            0 <= x < out.issues@.len() ==> (#[trigger] out.issues@[x]).row < rows@.len()
                && spec_financial_decision(rows@[out.issues@[x].row as int]) == FinDecision::Reject(
                out.issues@[x].kind,
            ),
{
    let ghost fin0 = store.financials@;
    let mut inserted: usize = 0;
    let mut updated: usize = 0;
    let mut issues: Vec<ImportIssue> = Vec::new();
    let mut i: usize = 0;
    while i < rows.len()
        invariant
            store.wf(),
            store.offices == old(store).offices,
            store.ops == old(store).ops,
            store.volumes == old(store).volumes,
            store.weekly == old(store).weekly,
            store.notes == old(store).notes,
            store.submissions == old(store).submissions,
            fin0 == old(store).financials@,
            i <= rows@.len(),
            inserted + updated == fin_accepted_count(rows@.take(i as int)),
            inserted == store.financials@.len() - fin0.len(),
            issues@.len() == i - fin_accepted_count(rows@.take(i as int)),
            forall|x: int|
                0 <= x < issues@.len() ==> (#[trigger] issues@[x]).row < i
                    && spec_financial_decision(rows@[issues@[x].row as int]) == FinDecision::Reject(
                    issues@[x].kind,
                ),
            forall|k: (int, int, int)| #[trigger]
                row_at(store.financials@, k) == (match last_accepted_fin(rows@.take(i as int), k) {
                    Some(x) => Some(FinancialData { id: old_fin_id(fin0, k), ..x }),
                    None => row_at(fin0, k),
                }),
        decreases rows@.len() - i,
    {
        let ghost prefix = rows@.take(i as int);
        let row = rows[i];
        proof {
            let next = rows@.take(i as int + 1);
            assert(next.drop_last() =~= prefix);
            assert(next.last() == rows@[i as int]);
        }
        match financial_row_decision(&row) {
            FinDecision::Reject(kind) => {
                issues.push(ImportIssue { row: i, kind });
            },
            FinDecision::Upsert(fin_row) => {
                let existing = store.get_monthly_financial(
                    fin_row.office_id,
                    fin_row.year,
                    fin_row.month,
                );
                let ghost pre = store.financials@;
                store.upsert_monthly_financial(fin_row);
                match existing {
                    Some(_) => {
                        updated = updated + 1;
                    },
                    None => {
                        inserted = inserted + 1;
                    },
                }
                proof {
                    let k0 = fin_row.row_key();
                    let next = rows@.take(i as int + 1);
                    assert forall|k: (int, int, int)| #[trigger]
                        row_at(store.financials@, k) == (match last_accepted_fin(next, k) {
                            Some(x) => Some(FinancialData { id: old_fin_id(fin0, k), ..x }),
                            None => row_at(fin0, k),
                        }) by {
                        if k == k0 {
                            assert(last_accepted_fin(next, k) == Some(fin_row));
                            assert(row_at(store.financials@, k) == Some(
                                spec_fin_merge(row_at(pre, k), fin_row),
                            ));
                        }
                    }
                }
            },
        }
        i = i + 1;
    }
    proof {
        assert(rows@.take(rows@.len() as int) =~= rows@);
    }
    FinancialImportOutcome {
        rows_processed: rows.len(),
        rows_inserted: inserted,
        rows_updated: updated,
        issues,
    }
}

// ---------------------------------------------------------------------
// Bulk weekly volume import
// ---------------------------------------------------------------------

/// One parsed row of a bulk weekly volume import; a missing or
/// unparseable cell is `None`.
#[derive(Clone, Copy, Debug, PartialEq, Eq)]
pub struct WeeklyImportRow {
    pub office_id: Option<i64>,
    pub year: Option<i64>,
    pub week_number: Option<i64>,
    pub lab_setups: Option<i64>,
    pub lab_fixed_cases: Option<i64>,
    pub lab_over_denture: Option<i64>,
    pub lab_processes: Option<i64>,
    pub lab_finishes: Option<i64>,
    pub clinic_wax_tryin: Option<i64>,
    pub clinic_delivery: Option<i64>,
    pub clinic_outside_lab: Option<i64>,
    pub clinic_on_hold: Option<i64>,
    pub immediate_units: Option<i64>,
    pub economy_units: Option<i64>,
    pub economy_plus_units: Option<i64>,
    pub premium_units: Option<i64>,
    pub ultimate_units: Option<i64>,
    pub repair_units: Option<i64>,
    pub reline_units: Option<i64>,
    pub partial_units: Option<i64>,
    pub retry_units: Option<i64>,
    pub remake_units: Option<i64>,
    pub bite_block_units: Option<i64>,
}

/// What the importer decides for one weekly row.
#[derive(Clone, Copy, Debug, PartialEq, Eq)]
pub enum WeeklyDecision {
    Reject(IssueKind),
    Insert(WeeklyVolumeData),
}

/// A missing counter cell imports as zero.
pub open spec fn count_or_zero(a: Option<i64>) -> i64 {
    match a {
        Some(v) => v,
        None => 0,
    }
}

pub open spec fn import_count_ok(a: Option<i64>) -> bool {
    0 <= count_or_zero(a) <= MAX_UNITS as i64
}

/// The weekly import policy for one row: identity cells must be present
/// and valid, counters default to zero and must be in range.
pub open spec fn spec_weekly_decision(r: WeeklyImportRow) -> WeeklyDecision {
    match r.office_id {
        None => WeeklyDecision::Reject(IssueKind::MissingOfficeId),
        Some(o) => match r.year {
            None => WeeklyDecision::Reject(IssueKind::MissingYear),
            Some(y) => match r.week_number {
                None => WeeklyDecision::Reject(IssueKind::MissingWeek),
                Some(wk) => if !(1 <= wk <= 53) {
                    WeeklyDecision::Reject(IssueKind::InvalidWeek)
                } else if !(-0x8000_0000 <= y <= 0x7fff_ffff) {
                    WeeklyDecision::Reject(IssueKind::YearOutOfRange)
                } else if !(import_count_ok(r.lab_setups) && import_count_ok(r.lab_fixed_cases)
                    && import_count_ok(r.lab_over_denture) && import_count_ok(r.lab_processes)
                    && import_count_ok(r.lab_finishes) && import_count_ok(r.clinic_wax_tryin)
                    && import_count_ok(r.clinic_delivery) && import_count_ok(r.clinic_outside_lab)
                    && import_count_ok(r.clinic_on_hold) && import_count_ok(r.immediate_units)
                    && import_count_ok(r.economy_units) && import_count_ok(r.economy_plus_units)
                    && import_count_ok(r.premium_units) && import_count_ok(r.ultimate_units)
                    && import_count_ok(r.repair_units) && import_count_ok(r.reline_units)
                    && import_count_ok(r.partial_units) && import_count_ok(r.retry_units)
                    && import_count_ok(r.remake_units) && import_count_ok(r.bite_block_units)) {
                    WeeklyDecision::Reject(IssueKind::CountOutOfRange)
                } else {
                    WeeklyDecision::Insert(
                        WeeklyVolumeData {
                            id: None,
                            office_id: o,
                            year: y as i32,
                            week_number: wk as i32,
                            lab_setups: count_or_zero(r.lab_setups) as i32,
                            lab_fixed_cases: count_or_zero(r.lab_fixed_cases) as i32,
                            lab_over_denture: count_or_zero(r.lab_over_denture) as i32,
                            lab_processes: count_or_zero(r.lab_processes) as i32,
                            lab_finishes: count_or_zero(r.lab_finishes) as i32,
                            clinic_wax_tryin: count_or_zero(r.clinic_wax_tryin) as i32,
                            clinic_delivery: count_or_zero(r.clinic_delivery) as i32,
                            clinic_outside_lab: count_or_zero(r.clinic_outside_lab) as i32,
                            clinic_on_hold: count_or_zero(r.clinic_on_hold) as i32,
                            immediate_units: count_or_zero(r.immediate_units) as i32,
                            economy_units: count_or_zero(r.economy_units) as i32,
                            economy_plus_units: count_or_zero(r.economy_plus_units) as i32,
                            premium_units: count_or_zero(r.premium_units) as i32,
                            ultimate_units: count_or_zero(r.ultimate_units) as i32,
                            repair_units: count_or_zero(r.repair_units) as i32,
                            reline_units: count_or_zero(r.reline_units) as i32,
                            partial_units: count_or_zero(r.partial_units) as i32,
                            retry_units: count_or_zero(r.retry_units) as i32,
                            remake_units: count_or_zero(r.remake_units) as i32,
                            bite_block_units: count_or_zero(r.bite_block_units) as i32,
                        },
                    )
                },
            },
        },
    }
}

fn count_in_range(a: Option<i64>) -> (r: bool)
    ensures
        r == import_count_ok(a),
{
    match a {
        Some(v) => 0 <= v && v <= MAX_UNITS as i64,
        None => true,
    }
}

fn count_value(a: Option<i64>) -> (r: i64)
    ensures
        r == count_or_zero(a),
{
    match a {
        Some(v) => v,
        None => 0,
    }
}

/// Applies the weekly import policy to one row.
pub fn weekly_row_decision(r: &WeeklyImportRow) -> (d: WeeklyDecision)
    ensures
        d == spec_weekly_decision(*r),
{
    let o = match r.office_id {
        None => {
            return WeeklyDecision::Reject(IssueKind::MissingOfficeId);
        },
        Some(o) => o,
    };
    let y = match r.year {
        None => {
            return WeeklyDecision::Reject(IssueKind::MissingYear);
        },
        Some(y) => y,
    };
    let wk = match r.week_number {
        None => {
            return WeeklyDecision::Reject(IssueKind::MissingWeek);
        },
        Some(w) => w,
    };
    if !(1 <= wk && wk <= 53) {
        return WeeklyDecision::Reject(IssueKind::InvalidWeek);
    }
    if !(-0x8000_0000 <= y && y <= 0x7fff_ffff) {
        return WeeklyDecision::Reject(IssueKind::YearOutOfRange);
    }
    if !(count_in_range(r.lab_setups) && count_in_range(r.lab_fixed_cases) && count_in_range(
        r.lab_over_denture,
    ) && count_in_range(r.lab_processes) && count_in_range(r.lab_finishes) && count_in_range(
        r.clinic_wax_tryin,
    ) && count_in_range(r.clinic_delivery) && count_in_range(r.clinic_outside_lab)
        && count_in_range(r.clinic_on_hold) && count_in_range(r.immediate_units) && count_in_range(
        r.economy_units,
    ) && count_in_range(r.economy_plus_units) && count_in_range(r.premium_units) && count_in_range(
        r.ultimate_units,
    ) && count_in_range(r.repair_units) && count_in_range(r.reline_units) && count_in_range(
        r.partial_units,
    ) && count_in_range(r.retry_units) && count_in_range(r.remake_units) && count_in_range(
        r.bite_block_units,
    )) {
        return WeeklyDecision::Reject(IssueKind::CountOutOfRange);
    }
    WeeklyDecision::Insert(
        WeeklyVolumeData {
            id: None,
            office_id: o,
            year: y as i32,
            week_number: wk as i32,
            lab_setups: count_value(r.lab_setups) as i32,
            lab_fixed_cases: count_value(r.lab_fixed_cases) as i32,
            lab_over_denture: count_value(r.lab_over_denture) as i32,
            lab_processes: count_value(r.lab_processes) as i32,
            lab_finishes: count_value(r.lab_finishes) as i32,
            clinic_wax_tryin: count_value(r.clinic_wax_tryin) as i32,
            clinic_delivery: count_value(r.clinic_delivery) as i32,
            clinic_outside_lab: count_value(r.clinic_outside_lab) as i32,
            clinic_on_hold: count_value(r.clinic_on_hold) as i32,
            immediate_units: count_value(r.immediate_units) as i32,
            economy_units: count_value(r.economy_units) as i32,
            economy_plus_units: count_value(r.economy_plus_units) as i32,
            premium_units: count_value(r.premium_units) as i32,
            ultimate_units: count_value(r.ultimate_units) as i32,
            repair_units: count_value(r.repair_units) as i32,
            reline_units: count_value(r.reline_units) as i32,
            partial_units: count_value(r.partial_units) as i32,
            retry_units: count_value(r.retry_units) as i32,
            remake_units: count_value(r.remake_units) as i32,
            bite_block_units: count_value(r.bite_block_units) as i32,
        },
    )
}

/// The accepted weekly row, if the policy accepts it.
pub open spec fn weekly_accepted(r: WeeklyImportRow) -> Option<WeeklyVolumeData> {
    match spec_weekly_decision(r) {
        WeeklyDecision::Insert(x) => Some(x),
        WeeklyDecision::Reject(_) => None,
    }
}

/// The first accepted row carrying key `k`: weekly rows are immutable,
/// so the first write wins and later duplicates are skipped.
pub open spec fn first_accepted_weekly(rows: Seq<WeeklyImportRow>, k: (int, int, int)) -> Option<
    WeeklyVolumeData,
>
    decreases rows.len(),
{
    if rows.len() == 0 {
        None
    } else {
        match first_accepted_weekly(rows.drop_last(), k) {
            Some(x) => Some(x),
            None => match weekly_accepted(rows.last()) {
                Some(x) => if x.row_key() == k {
                    Some(x)
                } else {
                    None
                },
                None => None,
            },
        }
    }
}

pub open spec fn weekly_accepted_count(rows: Seq<WeeklyImportRow>) -> int
    decreases rows.len(),
{
    if rows.len() == 0 {
        0
    } else {
        weekly_accepted_count(rows.drop_last()) + (match weekly_accepted(rows.last()) {
            Some(_) => 1int,
            None => 0int,
        })
    }
}

/// Outcome counts of a bulk weekly volume import.
#[derive(Clone, Debug, PartialEq, Eq)]
pub struct WeeklyImportOutcome {
    pub rows_processed: usize,
    pub weekly_inserted: usize,
    pub weekly_skipped: usize,
    pub monthly_updated: usize,
    pub issues: Vec<ImportIssue>,
}

/// Applies a parsed bulk weekly volume import to the store: every valid
/// row is inserted under its (office, year, week) key unless that key
/// already exists — duplicates are skipped, by policy — and the monthly
/// volume table is then recomputed from the weekly table.
pub fn import_bulk_weekly_rows(store: &mut Store, rows: &Vec<WeeklyImportRow>) -> (out:
    WeeklyImportOutcome)
    requires
        old(store).wf(),
    ensures
        final(store).wf(),
        final(store).offices == old(store).offices,
        final(store).financials == old(store).financials,
        final(store).ops == old(store).ops,
        final(store).notes == old(store).notes,
        final(store).submissions == old(store).submissions,
        forall|k: (int, int, int)| #[trigger]
            row_at(final(store).weekly@, k) == (match row_at(old(store).weekly@, k) {
                Some(r) => Some(r),
                None => first_accepted_weekly(rows@, k),
            }),
        rollup_rel(old(store).volumes@, final(store).volumes@, final(store).weekly@),
        out.rows_processed == rows@.len(),
        out.weekly_inserted == final(store).weekly@.len() - old(store).weekly@.len(),
        out.weekly_inserted + out.weekly_skipped == weekly_accepted_count(rows@),
        out.monthly_updated == group_keys_seq(final(store).weekly@).len(),
        out.issues@.len() == rows@.len() - weekly_accepted_count(rows@),
        forall|x: int|
            0 <= x < out.issues@.len() ==> (#[trigger] out.issues@[x]).row < rows@.len()
                && spec_weekly_decision(rows@[out.issues@[x].row as int]) == WeeklyDecision::Reject(
                out.issues@[x].kind,
            ),
{
    let ghost w0 = store.weekly@;
    let mut inserted: usize = 0;
    let mut skipped: usize = 0;
    let mut issues: Vec<ImportIssue> = Vec::new();
    let mut i: usize = 0;
    while i < rows.len()
        invariant
            store.wf(),
            store.offices == old(store).offices,
            store.financials == old(store).financials,
            store.ops == old(store).ops,
            store.volumes == old(store).volumes,
            store.notes == old(store).notes,
            store.submissions == old(store).submissions,
            w0 == old(store).weekly@,
            i <= rows@.len(),
            inserted + skipped == weekly_accepted_count(rows@.take(i as int)),
            inserted == store.weekly@.len() - w0.len(),
            issues@.len() == i - weekly_accepted_count(rows@.take(i as int)),
            forall|x: int|
                0 <= x < issues@.len() ==> (#[trigger] issues@[x]).row < i && spec_weekly_decision(
                    rows@[issues@[x].row as int],
                ) == WeeklyDecision::Reject(issues@[x].kind),
            forall|k: (int, int, int)| #[trigger]
                row_at(store.weekly@, k) == (match row_at(w0, k) {
                    Some(r) => Some(r),
                    None => first_accepted_weekly(rows@.take(i as int), k),
                }),
        decreases rows@.len() - i,
    {
        let ghost prefix = rows@.take(i as int);
        let row = rows[i];
        proof {
            let next = rows@.take(i as int + 1);
            assert(next.drop_last() =~= prefix);
            assert(next.last() == rows@[i as int]);
        }
        match weekly_row_decision(&row) {
            WeeklyDecision::Reject(kind) => {
                issues.push(ImportIssue { row: i, kind });
            },
            WeeklyDecision::Insert(wrow) => {
                let ghost pre = store.weekly@;
                let added = store.insert_weekly(wrow);
                if added {
                    inserted = inserted + 1;
                } else {
                    skipped = skipped + 1;
                }
                proof {
                    let k0 = wrow.row_key();
                    let next = rows@.take(i as int + 1);
                    assert forall|k: (int, int, int)| #[trigger]
                        row_at(store.weekly@, k) == (match row_at(w0, k) {
                            Some(r) => Some(r),
                            None => first_accepted_weekly(next, k),
                        }) by {
                        if k == k0 {
                        } else {
                            assert(first_accepted_weekly(next, k) == first_accepted_weekly(
                                prefix,
                                k,
                            ));
                        }
                    }
                }
            },
        }
        i = i + 1;
    }
    proof {
        assert(rows@.take(rows@.len() as int) =~= rows@);
    }
    let monthly_updated = aggregate_weekly_to_monthly(store);
    WeeklyImportOutcome {
        rows_processed: rows.len(),
        weekly_inserted: inserted,
        weekly_skipped: skipped,
        monthly_updated,
        issues,
    }
}

} // verus!
