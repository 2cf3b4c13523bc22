//! Ranking builder: per-office display rows for a named metric over a
//! window.  The builder supplies values only — one entry per office in
//! ascending office-id order, possibly with an absent value — and leaves
//! ordering, sorting and paging to the consumer.

use vstd::prelude::*;

use vstd::string::StringSliceAdditionalSpecFns;

use crate::errors::EngineError;
use crate::period::{month_valid, period_le};
use crate::records::{opt_str_eqv, clone_opt_string};
use crate::store::Store;
use crate::metrics::{metric_from_name, metric_value_for_office, spec_metric_from_name,
    spec_metric_value, rat_matches};
use crate::value::Rational;

verus! {

/// One office's row in a ranking display.
pub struct RankingEntry {
    pub office_id: i64,
    pub office_name: String,
    pub address: Option<String>,
    pub dfo: Option<String>,
    pub value: Option<Rational>,
}

/// An entry carries one office's identity and its metric value.
pub open spec fn entry_matches(
    s: Store,
    i: int,
    e: RankingEntry,
    metric_name: Seq<u8>,
    sy: int,
    sm: int,
    ey: int,
    em: int,
) -> bool {
    let off = s.offices@[i];
    &&& e.office_id == off.office_id
    &&& e.office_name@ == off.office_name@
    &&& opt_str_eqv(e.address, off.address)
    &&& opt_str_eqv(e.dfo, off.dfo)
    &&& rat_matches(
        e.value,
        spec_metric_value(
            s,
            off.office_id as int,
            spec_metric_from_name(metric_name),
            sy,
            sm,
            ey,
            em,
        ),
    )
}

/// One entry per office, ascending by office id, each carrying the named
/// metric's value for the window; an unknown metric name yields an entry
/// with an absent value for every office.  A malformed window gives
/// `InvalidRange`.
pub fn build_rankings(
    store: &Store,
    metric_name: &str,
    start_year: i32,
    start_month: i32,
    end_year: i32,
    end_month: i32,
) -> (r: Result<Vec<RankingEntry>, EngineError>)
    requires
        store.wf(),
        month_valid(start_month as int),
        month_valid(end_month as int),
    ensures
        match r {
            Ok(v) => {
                &&& period_le(
                    start_year as int,
                    start_month as int,
                    end_year as int,
                    end_month as int,
                )
                &&& v@.len() == store.offices@.len()
                &&& forall|i: int|
                    0 <= i < v@.len() ==> entry_matches(
                        *store,
                        i,
                        #[trigger] v@[i],
                        metric_name.spec_bytes(),
                        start_year as int,
                        start_month as int,
                        end_year as int,
                        end_month as int,
                    )
            },
            Err(e) => e == EngineError::InvalidRange && !period_le(
                start_year as int,
                start_month as int,
                end_year as int,
                end_month as int,
            ),
        },
{
    if !(start_year < end_year || (start_year == end_year && start_month <= end_month)) {
        return Err(EngineError::InvalidRange);
    }
    let metric = metric_from_name(metric_name);
    let mut out: Vec<RankingEntry> = Vec::new();
    let mut i: usize = 0;
    while i < store.offices.len()
        invariant
            store.wf(),
            i <= store.offices@.len(),
            out@.len() == i,
            month_valid(start_month as int),
            month_valid(end_month as int),
            period_le(start_year as int, start_month as int, end_year as int, end_month as int),
            metric == spec_metric_from_name(metric_name.spec_bytes()),
            forall|x: int|
                0 <= x < i ==> entry_matches(
                    *store,
                    x,
                    #[trigger] out@[x],
                    metric_name.spec_bytes(),
                    start_year as int,
                    start_month as int,
                    end_year as int,
                    end_month as int,
                ),
        decreases store.offices@.len() - i,
    {
        let office = &store.offices[i];
        let value = metric_value_for_office(
            store,
            office.office_id,
            metric,
            start_year,
            start_month,
            end_year,
            end_month,
        );
        let entry = RankingEntry {
            office_id: office.office_id,
            office_name: office.office_name.clone(),
            address: clone_opt_string(&office.address),
            dfo: clone_opt_string(&office.dfo),
            value,
        };
        out.push(entry);
        i = i + 1;
    }
    Ok(out)
}

} // verus!
