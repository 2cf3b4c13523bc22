//! Weekly rollup aggregator: recomputes monthly volume rows from the
//! weekly volume table.
//!
//! Weekly rows are grouped by (office, year, owning month); each group's
//! counters are averaged over exactly the weeks inside the month's
//! canonical week range, rounded half away from zero, and upserted as the
//! group's monthly row.  Running the rollup twice over unchanged weekly
//! data leaves the monthly table as it stood after the first run
//! ([`lemma_rollup_idempotent`]).

use vstd::prelude::*;

use crate::period::{month_valid, spec_week_to_month, spec_week_start, spec_week_end,
    lemma_week_month_partition, month_to_week_range, week_to_month};
use crate::records::{VolumeData, WeeklyVolumeData, KeyedRow, row_at, unique_keys, weekly_row_wf,
    weekly_counter, weekly_counter_get, lemma_row_at_present, lemma_row_at_props, MAX_UNITS};
use crate::store::{Store, weeks_in_range, spec_vol_merge};
use crate::value::{rounded_ratio, round_ratio, lemma_rounded_ratio_bounds};

verus! {

/// (office, year, month) triples that own at least one weekly row.
pub open spec fn is_group_key(w: Seq<WeeklyVolumeData>, k: (int, int, int)) -> bool {
    exists|i: int|
        0 <= i < w.len() && (#[trigger] w[i]).office_id as int == k.0 && w[i].year as int == k.1
            && spec_week_to_month(w[i].week_number as int) == k.2
}

/// The group key of one weekly row.
pub open spec fn row_group_key(r: WeeklyVolumeData) -> (int, int, int) {
    (r.office_id as int, r.year as int, spec_week_to_month(r.week_number as int))
}

/// Group keys of the weekly table, first occurrence first, no duplicates.
pub open spec fn group_keys_seq(w: Seq<WeeklyVolumeData>) -> Seq<(int, int, int)>
    decreases w.len(),
{
    if w.len() == 0 {
        Seq::empty()
    } else {
        let rest = group_keys_seq(w.drop_last());
        if rest.contains(row_group_key(w.last())) {
            rest
        } else {
            rest.push(row_group_key(w.last()))
        }
    }
}

/// Sum of counter `j` over a group of weekly rows.
pub open spec fn sum_counter(g: Seq<WeeklyVolumeData>, j: int) -> int
    decreases g.len(),
{
    if g.len() == 0 {
        0
    } else {
        sum_counter(g.drop_last(), j) + weekly_counter(g.last(), j)
    }
}

/// The weekly rows backing month `m` of office `o` in year `y`: exactly
/// the weeks inside the month's canonical range.
pub open spec fn group_of(w: Seq<WeeklyVolumeData>, o: int, y: int, m: int) -> Seq<
    WeeklyVolumeData,
> {
    weeks_in_range(w, o, y, spec_week_start(m), spec_week_end(m))
}

/// The stored id under key `k`, kept across an upsert.
pub open spec fn prev_id(s: Seq<VolumeData>, k: (int, int, int)) -> Option<i64> {
    match row_at(s, k) {
        Some(r) => r.id,
        None => None,
    }
}

/// The monthly row the rollup writes for one group: each counter is the
/// rounded mean over the group's weeks, and the backlog and unit totals
/// are derived from the rounded means.
pub open spec fn rollup_row(
    w: Seq<WeeklyVolumeData>,
    o: int,
    y: int,
    m: int,
    id: Option<i64>,
) -> VolumeData {
    let g = group_of(w, o, y, m);
    let n = g.len() as int;
    let c0 = rounded_ratio(sum_counter(g, 0), n);
    let c1 = rounded_ratio(sum_counter(g, 1), n);
    let c2 = rounded_ratio(sum_counter(g, 2), n);
    let c3 = rounded_ratio(sum_counter(g, 3), n);
    let c4 = rounded_ratio(sum_counter(g, 4), n);
    let c5 = rounded_ratio(sum_counter(g, 5), n);
    let c6 = rounded_ratio(sum_counter(g, 6), n);
    let c7 = rounded_ratio(sum_counter(g, 7), n);
    let c8 = rounded_ratio(sum_counter(g, 8), n);
    let c9 = rounded_ratio(sum_counter(g, 9), n);
    let c10 = rounded_ratio(sum_counter(g, 10), n);
    let c11 = rounded_ratio(sum_counter(g, 11), n);
    let c12 = rounded_ratio(sum_counter(g, 12), n);
    let c13 = rounded_ratio(sum_counter(g, 13), n);
    let c14 = rounded_ratio(sum_counter(g, 14), n);
    let c15 = rounded_ratio(sum_counter(g, 15), n);
    let c16 = rounded_ratio(sum_counter(g, 16), n);
    let c17 = rounded_ratio(sum_counter(g, 17), n);
    let c18 = rounded_ratio(sum_counter(g, 18), n);
    let c19 = rounded_ratio(sum_counter(g, 19), n);
    VolumeData {
        id: id,
        office_id: o as i64,
        year: y as i32,
        month: m as i32,
        backlog_in_lab: (c0 + c1 + c2 + c3 + c4) as i32,
        backlog_in_clinic: (c5 + c6 + c7 + c8) as i32,
        lab_setups: c0 as i32,
        lab_fixed_cases: c1 as i32,
        lab_over_denture: c2 as i32,
        lab_processes: c3 as i32,
        lab_finishes: c4 as i32,
        clinic_wax_tryin: c5 as i32,
        clinic_delivery: c6 as i32,
        clinic_outside_lab: c7 as i32,
        clinic_on_hold: c8 as i32,
        immediate_units: c9 as i32,
        economy_units: c10 as i32,
        economy_plus_units: c11 as i32,
        premium_units: c12 as i32,
        ultimate_units: c13 as i32,
        repair_units: c14 as i32,
        reline_units: c15 as i32,
        partial_units: c16 as i32,
        retry_units: c17 as i32,
        remake_units: c18 as i32,
        bite_block_units: c19 as i32,
        total_weekly_units: (c9 + c10 + c11 + c12 + c13 + c14 + c15 + c16 + c17 + c18 + c19) as i32,
    }
}

/// What one rollup run does to the monthly volume table: every group key
/// carries the recomputed row (stored id kept), every other key is
/// untouched.
pub open spec fn rollup_rel(
    m_old: Seq<VolumeData>,
    m_new: Seq<VolumeData>,
    w: Seq<WeeklyVolumeData>,
) -> bool {
    forall|k: (int, int, int)| #[trigger]
        row_at(m_new, k) == (if is_group_key(w, k) {
            Some(rollup_row(w, k.0, k.1, k.2, prev_id(m_old, k)))
        } else {
            row_at(m_old, k)
        })
}

/// Rollup idempotence: a second run over the same weekly table leaves
/// every monthly lookup exactly as the first run left it — recomputed
/// rows are recomputed identically and untouched rows stay untouched.
pub proof fn lemma_rollup_idempotent(
    m0: Seq<VolumeData>,
    m1: Seq<VolumeData>,
    m2: Seq<VolumeData>,
    w: Seq<WeeklyVolumeData>,
)
    requires
        rollup_rel(m0, m1, w),
        rollup_rel(m1, m2, w),
    ensures
        forall|k: (int, int, int)| #[trigger] row_at(m2, k) == row_at(m1, k),
{
    assert forall|k: (int, int, int)| #[trigger] row_at(m2, k) == row_at(m1, k) by {
        if is_group_key(w, k) {
            assert(row_at(m1, k) == Some(rollup_row(w, k.0, k.1, k.2, prev_id(m0, k))));
            assert(prev_id(m1, k) == prev_id(m0, k));
        }
    }
}

/// The group-key list contains exactly the group keys, without
/// duplicates; every listed key names a valid month when the weekly rows
/// are well formed.
proof fn lemma_group_keys_props(w: Seq<WeeklyVolumeData>)
    requires
        forall|i: int| 0 <= i < w.len() ==> weekly_row_wf(#[trigger] w[i]),
    ensures
        forall|k: (int, int, int)| group_keys_seq(w).contains(k) <==> is_group_key(w, k),
        forall|a: int, b: int|
            0 <= a < b < group_keys_seq(w).len() ==> group_keys_seq(w)[a] != group_keys_seq(w)[b],
        forall|a: int|
            0 <= a < group_keys_seq(w).len() ==> month_valid((#[trigger] group_keys_seq(w)[a]).2),
    decreases w.len(),
{
    if w.len() > 0 {
        let head = w.drop_last();
        assert forall|i: int| 0 <= i < head.len() implies weekly_row_wf(#[trigger] head[i]) by {
            assert(head[i] == w[i]);
        }
        lemma_group_keys_props(head);
        let rest = group_keys_seq(head);
        let lastk = row_group_key(w.last());
        assert(month_valid(lastk.2));
        assert forall|k: (int, int, int)| group_keys_seq(w).contains(k) implies is_group_key(w, k) by {
            if rest.contains(k) {
                assert(is_group_key(head, k));
                let i = choose|i: int|
                    0 <= i < head.len() && (#[trigger] head[i]).office_id as int == k.0
                        && head[i].year as int == k.1 && spec_week_to_month(
                        head[i].week_number as int,
                    ) == k.2;
                assert(w[i] == head[i]);
            } else {
                assert(k == lastk);
                assert(w[w.len() - 1] == w.last());
            }
        }
        assert forall|k: (int, int, int)| is_group_key(w, k) implies group_keys_seq(w).contains(
            k,
        ) by {
            let i = choose|i: int|
                0 <= i < w.len() && (#[trigger] w[i]).office_id as int == k.0 && w[i].year as int
                    == k.1 && spec_week_to_month(w[i].week_number as int) == k.2;
            if i < w.len() - 1 {
                assert(head[i] == w[i]);
                assert(is_group_key(head, k));
                assert(rest.contains(k));
                if !rest.contains(lastk) {
                    assert(group_keys_seq(w) == rest.push(lastk));
                    let l = choose|l: int| 0 <= l < rest.len() && rest[l] == k;
                    assert(group_keys_seq(w)[l] == k);
                }
            } else {
                assert(k == lastk);
                if rest.contains(k) {
                } else {
                    assert(group_keys_seq(w)[rest.len() as int] == k);
                }
            }
        }
    }
}

/// A present week inside the range makes the group non-empty.
proof fn lemma_weeks_nonempty(w: Seq<WeeklyVolumeData>, o: int, y: int, a: int, b: int, wk: int)
    requires
        a <= wk <= b,
        row_at(w, (o, y, wk)) is Some,
    ensures
        weeks_in_range(w, o, y, a, b).len() >= 1,
    decreases b - a,
{
    if wk < b {
        lemma_weeks_nonempty(w, o, y, a, b - 1, wk);
    }
}

/// Every row of a week-range selection is a row of the table, hence well
/// formed when the table is.
proof fn lemma_weeks_rows_wf(w: Seq<WeeklyVolumeData>, o: int, y: int, a: int, b: int)
    requires
        forall|i: int| 0 <= i < w.len() ==> weekly_row_wf(#[trigger] w[i]),
    ensures
        forall|i: int|
            0 <= i < weeks_in_range(w, o, y, a, b).len() ==> weekly_row_wf(
                #[trigger] weeks_in_range(w, o, y, a, b)[i],
            ),
    decreases b - a + 1,
{
    if a <= b {
        lemma_weeks_rows_wf(w, o, y, a, b - 1);
        let g = weeks_in_range(w, o, y, a, b);
        let head = weeks_in_range(w, o, y, a, b - 1);
        assert forall|i: int| 0 <= i < g.len() implies weekly_row_wf(#[trigger] g[i]) by {
            if i < head.len() {
                assert(g[i] == head[i]);
            } else {
                lemma_row_at_props(w, (o, y, b));
            }
        }
    }
}

/// Counter sums over a well-formed group lie in `[0, len * MAX_UNITS]`.
proof fn lemma_sum_counter_bounds(g: Seq<WeeklyVolumeData>, j: int)
    requires
        0 <= j < 20,
        forall|i: int| 0 <= i < g.len() ==> weekly_row_wf(#[trigger] g[i]),
    ensures
        0 <= sum_counter(g, j) <= g.len() * MAX_UNITS,
    decreases g.len(),
{
    if g.len() > 0 {
        let head = g.drop_last();
        assert forall|i: int| 0 <= i < head.len() implies weekly_row_wf(#[trigger] head[i]) by {
            assert(head[i] == g[i]);
        }
        lemma_sum_counter_bounds(head, j);
        assert(weekly_row_wf(g.last()));
        assert(0 <= weekly_counter(g.last(), j) <= MAX_UNITS);
    }
}

/// Mathematical view of the collected group-key vector.
pub open spec fn keys_view(s: Seq<(i64, i32, i32)>) -> Seq<(int, int, int)> {
    Seq::new(s.len(), |i: int| (s[i].0 as int, s[i].1 as int, s[i].2 as int))
}

/// A key lies in the first `t` entries of the key list.
pub open spec fn key_in_prefix(ks: Seq<(int, int, int)>, t: int, k: (int, int, int)) -> bool {
    exists|l: int| 0 <= l < t && ks[l] == k
}

/// Recomputes every monthly volume row owned by some weekly data, one
/// row per (office, year, owning month) group, and returns how many rows
/// were written.
pub fn aggregate_weekly_to_monthly(store: &mut Store) -> (count: usize)
    requires
        old(store).wf(),
    ensures
        final(store).wf(),
        final(store).offices == old(store).offices,
        final(store).financials == old(store).financials,
        final(store).ops == old(store).ops,
        final(store).weekly == old(store).weekly,
        final(store).notes == old(store).notes,
        final(store).submissions == old(store).submissions,
        rollup_rel(old(store).volumes@, final(store).volumes@, old(store).weekly@),
        count == group_keys_seq(old(store).weekly@).len(),
{
    let ghost w = store.weekly@;
    let ghost m_old = store.volumes@;
    proof {
        lemma_group_keys_props(w);
    }

    // Collect the distinct group keys, first occurrence first.
    let mut keys: Vec<(i64, i32, i32)> = Vec::new();
    let mut i: usize = 0;
    while i < store.weekly.len()
        invariant
            store.wf(),
            w == store.weekly@,
            i <= w.len(),
            keys_view(keys@) == group_keys_seq(w.take(i as int)),
        decreases w.len() - i,
    {
        let ghost prev_keys = keys_view(keys@);
        let row = store.weekly[i];
        let m = week_to_month(row.week_number);
        let ghost k = row_group_key(row);
        let mut found = false;
        let mut l: usize = 0;
        while l < keys.len() && !found
            invariant
                l <= keys@.len(),
                keys_view(keys@) == prev_keys,
                row == store.weekly@[i as int],
                i < w.len(),
                w == store.weekly@,
                m as int == spec_week_to_month(row.week_number as int),
                k == row_group_key(row),
                !found ==> forall|x: int| 0 <= x < l ==> prev_keys[x] != k,
                found ==> prev_keys.contains(k),
            decreases keys@.len() - l,
        {
            let e = keys[l];
            if e.0 == row.office_id && e.1 == row.year && e.2 == m {
                found = true;
                proof {
                    assert(prev_keys[l as int] == k);
                }
            }
            l = l + 1;
        }
        proof {
            if !found {
                assert(!prev_keys.contains(k)) by {
                    if prev_keys.contains(k) {
                        let x = choose|x: int| 0 <= x < prev_keys.len() && prev_keys[x] == k;
                        assert(prev_keys[x] != k);
                    }
                }
            }
        }
        if !found {
            keys.push((row.office_id, row.year, m));
            proof {
                assert(keys_view(keys@) =~= prev_keys.push(k));
            }
        }
        proof {
            let next = w.take(i as int + 1);
            assert(next.drop_last() =~= w.take(i as int));
            assert(next.last() == w[i as int]);
        }
        i = i + 1;
    }
    proof {
        assert(w.take(w.len() as int) =~= w);
    }
    let ghost ks = keys_view(keys@);

    // Recompute and upsert one monthly row per group.
    let mut t: usize = 0;
    while t < keys.len()
        invariant
            store.wf(),
            w == store.weekly@,
            store.weekly == old(store).weekly,
            store.offices == old(store).offices,
            store.financials == old(store).financials,
            store.ops == old(store).ops,
            store.notes == old(store).notes,
            store.submissions == old(store).submissions,
            m_old == old(store).volumes@,
            t <= keys@.len(),
            ks == keys_view(keys@),
            ks == group_keys_seq(w),
            forall|i2: int| 0 <= i2 < w.len() ==> weekly_row_wf(#[trigger] w[i2]),
            forall|k: (int, int, int)| #[trigger]
                row_at(store.volumes@, k) == (if key_in_prefix(ks, t as int, k) {
                    Some(rollup_row(w, k.0, k.1, k.2, prev_id(m_old, k)))
                } else {
                    row_at(m_old, k)
                }),
        decreases keys@.len() - t,
    {
        proof {
            lemma_group_keys_props(w);
            assert(ks.contains(ks[t as int]));
        }
        let kt = keys[t];
        let o = kt.0;
        let y = kt.1;
        let m = kt.2;
        let ghost gk = (o as int, y as int, m as int);
        proof {
            assert(gk == ks[t as int]);
            assert(month_valid(m as int));
        }
        let (ws, we) = month_to_week_range(m);

        // Sum the twenty counters over the weeks of this month.
        let mut sums: Vec<i64> = Vec::new();
        let mut z: usize = 0;
        while z < 20
            invariant
                z <= 20,
                sums@.len() == z,
                forall|x: int| 0 <= x < z ==> sums@[x] == 0,
            decreases 20 - z,
        {
            sums.push(0);
            z = z + 1;
        }
        let mut n: usize = 0;
        let mut wk: i32 = ws;
        loop
            invariant_except_break
                store.wf(),
                w == store.weekly@,
                ws <= wk <= we,
                ws as int == spec_week_start(m as int),
                we as int == spec_week_end(m as int),
                sums@.len() == 20,
                n == weeks_in_range(w, o as int, y as int, ws as int, wk as int - 1).len(),
                n <= wk - ws,
                forall|j: int|
                    0 <= j < 20 ==> #[trigger] sums@[j] == sum_counter(
                        weeks_in_range(w, o as int, y as int, ws as int, wk as int - 1),
                        j,
                    ),
            ensures
                store.wf(),
                w == store.weekly@,
                sums@.len() == 20,
                n == group_of(w, o as int, y as int, m as int).len(),
                n <= 53,
                forall|j: int|
                    0 <= j < 20 ==> #[trigger] sums@[j] == sum_counter(
                        group_of(w, o as int, y as int, m as int),
                        j,
                    ),
            decreases we - wk,
        {
            let ghost g_prev = weeks_in_range(w, o as int, y as int, ws as int, wk as int - 1);
            match store.get_weekly(o, y, wk) {
                Some(row) => {
                    proof {
                        lemma_weeks_rows_wf(w, o as int, y as int, ws as int, wk as int - 1);
                        lemma_row_at_props(w, (o as int, y as int, wk as int));
                        assert(weekly_row_wf(row));
                        assert forall|j: int| 0 <= j < 20 implies 0 <= #[trigger] sum_counter(
                            g_prev,
                            j,
                        ) <= g_prev.len() * MAX_UNITS by {
                            lemma_sum_counter_bounds(g_prev, j);
                        }
                    }
                    n = n + 1;
                    let mut j: usize = 0;
                    while j < 20
                        invariant
                            j <= 20,
                            sums@.len() == 20,
                            g_prev.len() <= 52,
                            row_at(w, (o as int, y as int, wk as int)) == Some(row),
                            weekly_row_wf(row),
                            forall|x: int|
                                0 <= x < 20 ==> 0 <= #[trigger] sum_counter(g_prev, x)
                                    <= g_prev.len() * MAX_UNITS,
                            forall|x: int|
                                j <= x < 20 ==> #[trigger] sums@[x] == sum_counter(g_prev, x),
                            forall|x: int|
                                0 <= x < j ==> #[trigger] sums@[x] == sum_counter(g_prev, x)
                                    + weekly_counter(row, x),
                        decreases 20 - j,
                    {
                        let c = weekly_counter_get(&row, j);
                        let cur: i64 = sums[j];
                        sums[j] = cur + c as i64;
                        j = j + 1;
                    }
                    proof {
                        let g_next = weeks_in_range(w, o as int, y as int, ws as int, wk as int);
                        assert(g_next =~= g_prev + seq![row]);
                        assert(g_next.drop_last() =~= g_prev);
                        assert(g_next.last() == row);
                    }
                },
                None => {
                    proof {
                        let g_next = weeks_in_range(w, o as int, y as int, ws as int, wk as int);
                        assert(g_next =~= g_prev);
                    }
                },
            }
            if wk == we {
                break ;
            }
            wk = wk + 1;
        }

        // The group is non-empty: its key came from some weekly row.
        proof {
            lemma_week_month_partition();
            assert(is_group_key(w, gk));
            let wi = choose|wi: int|
                0 <= wi < w.len() && (#[trigger] w[wi]).office_id as int == gk.0
                    && w[wi].year as int == gk.1 && spec_week_to_month(w[wi].week_number as int)
                    == gk.2;
            let wk0 = w[wi].week_number as int;
            assert(spec_week_start(m as int) <= wk0 <= spec_week_end(m as int));
            assert forall|l: int| 0 <= l < wi implies #[trigger] w[l].row_key()
                != w[wi].row_key() by {}
            lemma_row_at_present(w, wi);
            assert(row_at(w, (gk.0, gk.1, wk0)) is Some);
            lemma_weeks_nonempty(
                w,
                gk.0,
                gk.1,
                spec_week_start(m as int),
                spec_week_end(m as int),
                wk0,
            );
        }
        let ghost g = group_of(w, o as int, y as int, m as int);
        proof {
            lemma_weeks_rows_wf(w, o as int, y as int, spec_week_start(m as int),
                spec_week_end(m as int));
        }

        // Round the twenty means, each back into [0, MAX_UNITS].
        let n64: i64 = n as i64;
        let mut means: Vec<i32> = Vec::new();
        let mut j: usize = 0;
        while j < 20
            invariant
                j <= 20,
                means@.len() == j,
                sums@.len() == 20,
                1 <= n64 <= 53,
                g == group_of(w, o as int, y as int, m as int),
                n64 == g.len(),
                forall|x: int| 0 <= x < 20 ==> #[trigger] sums@[x] == sum_counter(g, x),
                forall|x: int| 0 <= x < g.len() ==> weekly_row_wf(#[trigger] g[x]),
                forall|x: int|
                    0 <= x < j ==> #[trigger] means@[x] == rounded_ratio(
                        sum_counter(g, x),
                        g.len() as int,
                    ) && 0 <= means@[x] <= MAX_UNITS,
            decreases 20 - j,
        {
            proof {
                lemma_sum_counter_bounds(g, j as int);
                assert(g.len() * 0 == 0) by (nonlinear_arith);
                lemma_rounded_ratio_bounds(sums@[j as int] as int, g.len() as int, 0, MAX_UNITS as int);
            }
            let s: i64 = sums[j];
            let r: i128 = round_ratio(s as i128, n64 as i128);
            means.push(r as i32);
            j = j + 1;
        }

        // Build and upsert the monthly row.
        let vrow = VolumeData {
            id: None,
            office_id: o,
            year: y,
            month: m,
            backlog_in_lab: means[0] + means[1] + means[2] + means[3] + means[4],
            backlog_in_clinic: means[5] + means[6] + means[7] + means[8],
            lab_setups: means[0],
            lab_fixed_cases: means[1],
            lab_over_denture: means[2],
            lab_processes: means[3],
            lab_finishes: means[4],
            clinic_wax_tryin: means[5],
            clinic_delivery: means[6],
            clinic_outside_lab: means[7],
            clinic_on_hold: means[8],
            immediate_units: means[9],
            economy_units: means[10],
            economy_plus_units: means[11],
            premium_units: means[12],
            ultimate_units: means[13],
            repair_units: means[14],
            reline_units: means[15],
            partial_units: means[16],
            retry_units: means[17],
            remake_units: means[18],
            bite_block_units: means[19],
            total_weekly_units: means[9] + means[10] + means[11] + means[12] + means[13] + means[14]
                + means[15] + means[16] + means[17] + means[18] + means[19],
        };
        let ghost pre_volumes = store.volumes@;
        store.upsert_monthly_volume(vrow);
        proof {
            // The upserted row is exactly the specified rollup row for
            // this group, with the previously stored id.
            assert(!key_in_prefix(ks, t as int, gk)) by {
                if key_in_prefix(ks, t as int, gk) {
                    let l = choose|l: int| 0 <= l < t && ks[l] == gk;
                    assert(ks[l] != ks[t as int]);
                }
            }
            assert(row_at(pre_volumes, gk) == row_at(m_old, gk));
            let merged = spec_vol_merge(row_at(pre_volumes, gk), vrow);
            assert(merged == rollup_row(w, gk.0, gk.1, gk.2, prev_id(m_old, gk)));
            assert forall|k: (int, int, int)| #[trigger]
                row_at(store.volumes@, k) == (if key_in_prefix(ks, t as int + 1, k) {
                    Some(rollup_row(w, k.0, k.1, k.2, prev_id(m_old, k)))
                } else {
                    row_at(m_old, k)
                }) by {
                if k == gk {
                    assert(key_in_prefix(ks, t as int + 1, k));
                } else {
                    assert(key_in_prefix(ks, t as int + 1, k) == key_in_prefix(ks, t as int, k));
                }
            }
        }
        t = t + 1;
    }
    proof {
        lemma_group_keys_props(w);
        assert forall|k: (int, int, int)| #[trigger]
            row_at(store.volumes@, k) == (if is_group_key(w, k) {
                Some(rollup_row(w, k.0, k.1, k.2, prev_id(m_old, k)))
            } else {
                row_at(m_old, k)
            }) by {
            if is_group_key(w, k) {
                assert(ks.contains(k));
                let l = choose|l: int| 0 <= l < ks.len() && ks[l] == k;
                assert(key_in_prefix(ks, ks.len() as int, k));
            } else {
                if key_in_prefix(ks, ks.len() as int, k) {
                    let l = choose|l: int| 0 <= l < ks.len() && ks[l] == k;
                    assert(ks.contains(k));
                }
            }
        }
    }
    keys.len()
}

} // verus!
