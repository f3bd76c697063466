//! Per-lap summary assembly and the report rows: combine the heart-rate
//! engine result (average, duration, peak) and the power engine result
//! (average) into one summary per lap, select laps by 1-indexed number
//! (an empty selection means all), and render each selected lap as one
//! tab-delimited ASCII line. A summary with no average or no peak renders
//! the marker `-` rather than a made-up zero.

use vstd::prelude::*;
use crate::flatten::DataLap;
use crate::flatten::concat_laps;
use crate::flatten::hr_seq;
use crate::flatten::to_data_vec;
use crate::flatten::watt_seq;
use crate::parse::TrainingCenterDatabase;
use crate::parse::db_wf;
use crate::series::Data;
use crate::series::IntegrityError;
use crate::series::Weighted;
use crate::series::avg_opt_spec;
use crate::series::duration_of;
use crate::series::get_avg;
use crate::series::names_decreasing_pair;
use crate::series::ordered;
use crate::series::peak;
use crate::series::peak_spec;

verus! {

/// One lap's summary: elapsed time (from the heart-rate series), the two
/// averages, and the peak heart rate; absent parts are "no data".
#[derive(Clone, Copy, PartialEq, Eq, Structural, Debug)]
pub struct TimeInfo {
    pub total_time_ms: u64,
    pub avg_hr: Option<Weighted>,
    pub max_hr: Option<u16>,
    pub avg_watt: Option<Weighted>,
}

/// The summary a lap's two series yield.
pub open spec fn time_info_spec(hr: Seq<Data>, watt: Seq<Data>) -> TimeInfo {
    TimeInfo {
        total_time_ms: duration_of(hr) as u64,
        avg_hr: avg_opt_spec(hr),
        max_hr: peak_spec(hr),
        avg_watt: avg_opt_spec(watt),
    }
}

/// Present averages are well-formed rationals.
pub open spec fn ti_wf(ti: TimeInfo) -> bool {
    &&& (ti.avg_hr matches Some(w) ==> w.wf())
    &&& (ti.avg_watt matches Some(w) ==> w.wf())
}

/// Combine both engine results of one lap into its summary. Fails, naming
/// the offending timestamps, exactly when either series has a decreasing
/// timestamp; an empty or too-short series gives "no data" parts instead.
pub fn calculate_weighted_average_hr(lap: &DataLap) -> (r: Result<TimeInfo, IntegrityError>)
    ensures
        r is Ok <==> ordered(lap.hr_data@) && ordered(lap.watt_data@),
        r matches Ok(ti) ==> ti == time_info_spec(lap.hr_data@, lap.watt_data@) && ti_wf(ti),
        r matches Err(e) ==> names_decreasing_pair(e, lap.watt_data@) || names_decreasing_pair(
            e,
            lap.hr_data@,
        ),
{
    let max_hr = peak(&lap.hr_data);
    let watt_avg = match get_avg(&lap.watt_data) {
        Ok(a) => a,
        Err(e) => {
            return Err(e);
        },
    };
    let hr_avg = match get_avg(&lap.hr_data) {
        Ok(a) => a,
        Err(e) => {
            return Err(e);
        },
    };
    Ok(
        TimeInfo {
            total_time_ms: hr_avg.total_time_ms,
            avg_hr: hr_avg.avg,
            max_hr,
            avg_watt: watt_avg.avg,
        },
    )
}

/// The decimal digits of a non-negative number, most significant first.
pub open spec fn dec_digits(n: int) -> Seq<u8>
    decreases n,
{
    if n < 10 {
        seq![(48 + n) as u8]
    } else {
        dec_digits(n / 10) + seq![(48 + n % 10) as u8]
    }
}

/// Two-digit rendering, zero-padded, wider only when the number needs it.
pub open spec fn zero_pad2(n: int) -> Seq<u8> {
    if n < 10 {
        seq![48u8] + dec_digits(n)
    } else {
        dec_digits(n)
    }
}

/// Right-aligned width-2 rendering, space-padded.
pub open spec fn space_pad2(n: int) -> Seq<u8> {
    if n < 10 {
        seq![32u8] + dec_digits(n)
    } else {
        dec_digits(n)
    }
}

/// Elapsed time as `mm:ss`, truncating to whole seconds.
pub open spec fn mmss_text(ms: int) -> Seq<u8> {
    zero_pad2(ms / 60000) + seq![58u8] + zero_pad2((ms / 1000) % 60)
}

/// An average column: the rounded value, or the absent-value marker.
pub open spec fn opt_weighted_text(o: Option<Weighted>) -> Seq<u8> {
    match o {
        Some(w) => dec_digits(w.rounded_spec()),
        None => seq![45u8],
    }
}

/// The peak column: the value, or the absent-value marker.
pub open spec fn opt_peak_text(o: Option<u16>) -> Seq<u8> {
    match o {
        Some(m) => dec_digits(m as int),
        None => seq![45u8],
    }
}

/// One summary as its tab-delimited columns: time, average power, average
/// heart rate, peak heart rate.
pub open spec fn time_info_text(ti: TimeInfo) -> Seq<u8> {
    mmss_text(ti.total_time_ms as int) + seq![9u8] + opt_weighted_text(ti.avg_watt) + seq![9u8]
        + opt_weighted_text(ti.avg_hr) + seq![9u8] + opt_peak_text(ti.max_hr)
}

/// Render a number's decimal digits.
pub fn format_u64(n: u64) -> (r: Vec<u8>)
    ensures
        r@ == dec_digits(n as int),
    decreases n,
{
    if n < 10 {
        let mut v: Vec<u8> = Vec::new();
        v.push(48 + (n as u8));
        proof {
            assert(v@ =~= dec_digits(n as int));
        }
        v
    } else {
        let mut v = format_u64(n / 10);
        v.push(48 + ((n % 10) as u8));
        proof {
            assert(v@ =~= dec_digits(n as int));
        }
        v
    }
}

/// Render zero-padded two digits.
fn format_zero_pad2(n: u64) -> (r: Vec<u8>)
    ensures
        r@ == zero_pad2(n as int),
{
    if n < 10 {
        let mut v: Vec<u8> = Vec::new();
        v.push(48);
        v.push(48 + (n as u8));
        proof {
            assert(v@ =~= zero_pad2(n as int));
        }
        v
    } else {
        format_u64(n)
    }
}

/// Render a right-aligned width-2 lap number.
fn format_space_pad2(n: u64) -> (r: Vec<u8>)
    ensures
        r@ == space_pad2(n as int),
{
    if n < 10 {
        let mut v: Vec<u8> = Vec::new();
        v.push(32);
        v.push(48 + (n as u8));
        proof {
            assert(v@ =~= space_pad2(n as int));
        }
        v
    } else {
        format_u64(n)
    }
}

/// Render an average column.
fn format_opt_weighted(o: &Option<Weighted>) -> (r: Vec<u8>)
    requires
        o matches Some(w) ==> w.wf(),
    ensures
        r@ == opt_weighted_text(*o),
{
    match o {
        Some(w) => format_u64(w.rounded() as u64),
        None => {
            let mut v: Vec<u8> = Vec::new();
            v.push(45);
            proof {
                assert(v@ =~= opt_weighted_text(*o));
            }
            v
        },
    }
}

/// Render the peak column.
fn format_opt_peak(o: &Option<u16>) -> (r: Vec<u8>)
    ensures
        r@ == opt_peak_text(*o),
{
    match o {
        Some(m) => format_u64(*m as u64),
        None => {
            let mut v: Vec<u8> = Vec::new();
            v.push(45);
            proof {
                assert(v@ =~= opt_peak_text(*o));
            }
            v
        },
    }
}

/// Render one summary as its tab-delimited columns.
pub fn format_time_info(ti: &TimeInfo) -> (r: Vec<u8>)
    requires
        ti_wf(*ti),
    ensures
        r@ == time_info_text(*ti),
{
    let mut line = format_zero_pad2(ti.total_time_ms / 60000);
    line.push(58);
    let mut ss = format_zero_pad2((ti.total_time_ms / 1000) % 60);
    line.append(&mut ss);
    line.push(9);
    let mut watt = format_opt_weighted(&ti.avg_watt);
    line.append(&mut watt);
    line.push(9);
    let mut hr = format_opt_weighted(&ti.avg_hr);
    line.append(&mut hr);
    line.push(9);
    let mut mx = format_opt_peak(&ti.max_hr);
    line.append(&mut mx);
    proof {
        assert(line@ =~= time_info_text(*ti));
    }
    line
}

/// The 1-indexed lap is in the selection; an empty selection selects all.
pub open spec fn is_selected(sel: Seq<usize>, no: int) -> bool {
    sel.len() == 0 || exists|i: int| 0 <= i < sel.len() && sel[i] == no
}

/// Decide whether a 1-indexed lap number is selected.
pub fn lap_selected(sel: &Vec<usize>, no: usize) -> (r: bool)
    ensures
        r == is_selected(sel@, no as int),
{
    if sel.len() == 0 {
        return true;
    }
    let mut i: usize = 0;
    while i < sel.len()
        invariant
            0 <= i <= sel@.len(),
            forall|k: int| 0 <= k < i ==> sel@[k] != no,
        decreases sel@.len() - i,
    {
        if sel[i] == no {
            return true;
        }
        i = i + 1;
    }
    false
}

/// One report row: the right-aligned lap number, then the summary columns.
pub open spec fn row_text(no: int, ti: TimeInfo) -> Seq<u8> {
    space_pad2(no) + seq![9u8] + time_info_text(ti)
}

/// The report rows of the first `n` laps: one row per selected lap, in lap
/// order, each labeled with its 1-indexed number.
pub open spec fn rows_upto(laps: Seq<DataLap>, sel: Seq<usize>, n: int) -> Seq<Seq<u8>>
    decreases n,
{
    if n <= 0 {
        Seq::empty()
    } else {
        rows_upto(laps, sel, n - 1) + if is_selected(sel, n) {
            seq![row_text(n, time_info_spec(laps[n - 1].hr_data@, laps[n - 1].watt_data@))]
        } else {
            Seq::empty()
        }
    }
}

/// The byte text of each row.
pub open spec fn views_of(rows: Seq<Vec<u8>>) -> Seq<Seq<u8>> {
    rows.map_values(|v: Vec<u8>| v@)
}

/// A data-integrity fault of one selected lap, naming the lap and both
/// offending timestamps.
#[derive(Clone, Copy, PartialEq, Eq, Structural, Debug)]
pub struct ComputeError {
    pub lap_no: usize,
    pub prev_ms: u64,
    pub next_ms: u64,
}

/// Produce the report rows for the selected laps, in lap order. Fails on
/// the first selected lap with a decreasing timestamp, naming that lap and
/// the offending timestamps.
pub fn report_rows(laps: &Vec<DataLap>, sel: &Vec<usize>) -> (r: Result<
    Vec<Vec<u8>>,
    ComputeError,
>)
    ensures
        r is Ok <==> (forall|k: int|
            0 <= k < laps@.len() && is_selected(sel@, k + 1) ==> ordered(
                (#[trigger] laps@[k]).hr_data@,
            ) && ordered(laps@[k].watt_data@)),
        r matches Ok(rows) ==> views_of(rows@) == rows_upto(laps@, sel@, laps@.len() as int),
        r matches Err(e) ==> 1 <= e.lap_no <= laps@.len() && is_selected(sel@, e.lap_no as int)
            && {
            let ie = IntegrityError { prev_ms: e.prev_ms, next_ms: e.next_ms };
            names_decreasing_pair(ie, laps@[e.lap_no - 1].watt_data@) || names_decreasing_pair(
                ie,
                laps@[e.lap_no - 1].hr_data@,
            )
        },
{
    let mut rows: Vec<Vec<u8>> = Vec::new();
    let mut k: usize = 0;
    while k < laps.len()
        invariant
            0 <= k <= laps@.len(),
            views_of(rows@) == rows_upto(laps@, sel@, k as int),
            forall|m: int|
                0 <= m < k && is_selected(sel@, m + 1) ==> ordered(
                    (#[trigger] laps@[m]).hr_data@,
                ) && ordered(laps@[m].watt_data@),
        decreases laps@.len() - k,
    {
        if lap_selected(sel, k + 1) {
            match calculate_weighted_average_hr(&laps[k]) {
                Ok(ti) => {
                    let mut row = format_space_pad2((k + 1) as u64);
                    row.push(9);
                    let mut cols = format_time_info(&ti);
                    row.append(&mut cols);
                    proof {
                        assert(row@ =~= row_text(k + 1 as int, ti));
                        assert(views_of(rows@.push(row)) =~= views_of(rows@).push(row@));
                    }
                    rows.push(row);
                },
                Err(e) => {
                    return Err(
                        ComputeError { lap_no: k + 1, prev_ms: e.prev_ms, next_ms: e.next_ms },
                    );
                },
            }
        }
        k = k + 1;
    }
    Ok(rows)
}

/// The report rows of the first `n` laps of a decoded document: one row
/// per selected lap, in document order, 1-indexed.
pub open spec fn doc_rows_upto(d: TrainingCenterDatabase, sel: Seq<usize>, n: int) -> Seq<
    Seq<u8>,
>
    decreases n,
{
    if n <= 0 {
        Seq::empty()
    } else {
        doc_rows_upto(d, sel, n - 1) + if is_selected(sel, n) {
            seq![
                row_text(
                    n,
                    time_info_spec(
                        hr_seq(concat_laps(d.activities.activity@)[n - 1]),
                        watt_seq(concat_laps(d.activities.activity@)[n - 1]),
                    ),
                ),
            ]
        } else {
            Seq::empty()
        }
    }
}

/// Laps whose series agree pairwise yield the same rows.
proof fn lemma_rows_agree(laps: Seq<DataLap>, d: TrainingCenterDatabase, sel: Seq<usize>, n: int)
    requires
        laps.len() == concat_laps(d.activities.activity@).len(),
        forall|k: int|
            0 <= k < laps.len() ==> (#[trigger] laps[k].hr_data@) == hr_seq(
                concat_laps(d.activities.activity@)[k],
            ) && laps[k].watt_data@ == watt_seq(concat_laps(d.activities.activity@)[k]),
        0 <= n <= laps.len(),
    ensures
        rows_upto(laps, sel, n) == doc_rows_upto(d, sel, n),
    decreases n,
{
    if n > 0 {
        lemma_rows_agree(laps, d, sel, n - 1);
    }
}

/// The whole pipeline after decoding: flatten the document into per-lap
/// series and produce the report rows of the selected laps. Fails on the
/// first selected lap with a decreasing timestamp, naming that lap and
/// the offending timestamps.
pub fn lap_report(d: &TrainingCenterDatabase, sel: &Vec<usize>) -> (r: Result<
    Vec<Vec<u8>>,
    ComputeError,
>)
    requires
        db_wf(*d),
    ensures
        r is Ok <==> (forall|k: int|
            0 <= k < concat_laps(d.activities.activity@).len() && is_selected(sel@, k + 1)
                ==> ordered(hr_seq(#[trigger] concat_laps(d.activities.activity@)[k])) && ordered(
                watt_seq(concat_laps(d.activities.activity@)[k]),
            )),
        r matches Ok(rows) ==> views_of(rows@) == doc_rows_upto(
            *d,
            sel@,
            concat_laps(d.activities.activity@).len() as int,
        ),
        r matches Err(e) ==> 1 <= e.lap_no <= concat_laps(d.activities.activity@).len()
            && is_selected(sel@, e.lap_no as int) && {
            let ie = IntegrityError { prev_ms: e.prev_ms, next_ms: e.next_ms };
            names_decreasing_pair(
                ie,
                watt_seq(concat_laps(d.activities.activity@)[e.lap_no - 1]),
            ) || names_decreasing_pair(
                ie,
                hr_seq(concat_laps(d.activities.activity@)[e.lap_no - 1]),
            )
        },
{
    let laps = to_data_vec(d);
    let r = report_rows(&laps, sel);
    proof {
        let runs = concat_laps(d.activities.activity@);
        lemma_rows_agree(laps@, *d, sel@, laps@.len() as int);
        assert forall|k: int| 0 <= k < laps@.len() implies (#[trigger] laps@[k]).hr_data@
            == hr_seq(runs[k]) && laps@[k].watt_data@ == watt_seq(runs[k]) by {
            assert(laps@[k].hr_data@ == hr_seq(runs[k]));
        }
        assert forall|k: int| 0 <= k < runs.len() implies (#[trigger] hr_seq(runs[k]))
            == laps@[k].hr_data@ && watt_seq(runs[k]) == laps@[k].watt_data@ by {
            assert(laps@[k].hr_data@ == hr_seq(runs[k]));
        }
        if r is Err {
            let e = r->Err_0;
            assert(laps@[e.lap_no - 1].hr_data@ == hr_seq(runs[e.lap_no - 1]));
            assert(laps@[e.lap_no - 1].watt_data@ == watt_seq(runs[e.lap_no - 1]));
        }
    }
    r
}

} // verus!
