//! The flattening pipeline: per lap, the trackpoints of all its tracks form
//! one ordered run, from which two independent sparse series are drawn — a
//! trackpoint contributes to the heart-rate series only when it has both a
//! timestamp and a heart-rate value, to the power series only when it has
//! both a timestamp and a power value, and to neither without a timestamp.

use vstd::prelude::*;
use crate::parse::Activity;
use crate::parse::Lap;
use crate::parse::Track;
use crate::parse::Trackpoint;
use crate::parse::TrainingCenterDatabase;
use crate::parse::db_wf;
use crate::parse::tp_wf;
use crate::series::Data;

verus! {

/// The two sparse series of one lap.
#[derive(Debug)]
pub struct DataLap {
    pub hr_data: Vec<Data>,
    pub watt_data: Vec<Data>,
}

/// The heart-rate sample a trackpoint yields: present exactly when both
/// the timestamp and the heart-rate value are.
pub open spec fn hr_sample(t: Trackpoint) -> Option<Data> {
    match (t.time, t.heart_rate_bpm) {
        (Some(ts), Some(v)) => Some(Data { ts: ts.epoch_ms_spec() as u64, val: v }),
        _ => None,
    }
}

/// The power sample a trackpoint yields: present exactly when both the
/// timestamp and the power value are.
pub open spec fn watt_sample(t: Trackpoint) -> Option<Data> {
    match (t.time, t.extensions) {
        (Some(ts), Some(e)) => Some(Data { ts: ts.epoch_ms_spec() as u64, val: e.tpx.watts }),
        _ => None,
    }
}

/// A sample as a series fragment: one entry, or nothing.
pub open spec fn sample_seq(o: Option<Data>) -> Seq<Data> {
    match o {
        Some(d) => seq![d],
        None => Seq::empty(),
    }
}

/// The heart-rate series of an ordered run of trackpoints.
pub open spec fn hr_seq(tps: Seq<Trackpoint>) -> Seq<Data>
    decreases tps.len(),
{
    if tps.len() == 0 {
        Seq::empty()
    } else {
        hr_seq(tps.drop_last()) + sample_seq(hr_sample(tps.last()))
    }
}

/// The power series of an ordered run of trackpoints.
pub open spec fn watt_seq(tps: Seq<Trackpoint>) -> Seq<Data>
    decreases tps.len(),
{
    if tps.len() == 0 {
        Seq::empty()
    } else {
        watt_seq(tps.drop_last()) + sample_seq(watt_sample(tps.last()))
    }
}

/// The one ordered run of a lap: its tracks' trackpoints, concatenated in
/// document order.
pub open spec fn concat_tracks(ts: Seq<Track>) -> Seq<Trackpoint>
    decreases ts.len(),
{
    if ts.len() == 0 {
        Seq::empty()
    } else {
        concat_tracks(ts.drop_last()) + ts.last().trackpoints@
    }
}

/// The laps of the whole document, in document order.
pub open spec fn concat_laps(acts: Seq<Activity>) -> Seq<Seq<Trackpoint>>
    decreases acts.len(),
{
    if acts.len() == 0 {
        Seq::empty()
    } else {
        concat_laps(acts.drop_last()) + acts.last().lap@.map_values(
            |l: Lap| concat_tracks(l.track@),
        )
    }
}

/// A trackpoint missing either needed value contributes no heart-rate
/// sample, one carrying both contributes exactly its pair.
pub fn to_hr_data(t: &Trackpoint) -> (r: Option<Data>)
    requires
        tp_wf(*t),
    ensures
        r == hr_sample(*t),
{
    match (&t.time, &t.heart_rate_bpm) {
        (Some(ts), Some(v)) => Some(Data { ts: ts.epoch_millis(), val: *v }),
        _ => None,
    }
}

/// A trackpoint missing either needed value contributes no power sample,
/// one carrying both contributes exactly its pair.
pub fn to_watt_data(t: &Trackpoint) -> (r: Option<Data>)
    requires
        tp_wf(*t),
    ensures
        r == watt_sample(*t),
{
    match (&t.time, &t.extensions) {
        (Some(ts), Some(e)) => Some(Data { ts: ts.epoch_millis(), val: e.tpx.watts }),
        _ => None,
    }
}

/// Concatenate the trackpoints of a lap's tracks into one ordered run.
fn lap_run(l: &Lap) -> (r: Vec<Trackpoint>)
    ensures
        r@ == concat_tracks(l.track@),
{
    let mut out: Vec<Trackpoint> = Vec::new();
    let mut i: usize = 0;
    while i < l.track.len()
        invariant
            0 <= i <= l.track@.len(),
            out@ == concat_tracks(l.track@.take(i as int)),
        decreases l.track@.len() - i,
    {
        proof {
            assert(l.track@.take(i + 1 as int).drop_last() =~= l.track@.take(i as int));
        }
        let tr = &l.track[i];
        let mut j: usize = 0;
        while j < tr.trackpoints.len()
            invariant
                0 <= j <= tr.trackpoints@.len(),
                out@ == concat_tracks(l.track@.take(i as int)) + tr.trackpoints@.take(j as int),
                i < l.track@.len(),
                tr == l.track@[i as int],
            decreases tr.trackpoints@.len() - j,
        {
            out.push(tr.trackpoints[j]);
            proof {
                assert(tr.trackpoints@.take(j + 1 as int) =~= tr.trackpoints@.take(j as int)
                    + seq![tr.trackpoints@[j as int]]);
            }
            j = j + 1;
        }
        proof {
            assert(tr.trackpoints@.take(tr.trackpoints@.len() as int) =~= tr.trackpoints@);
        }
        i = i + 1;
    }
    proof {
        assert(l.track@.take(l.track@.len() as int) =~= l.track@);
    }
    out
}

/// Draw both sparse series of one lap from its ordered run.
fn run_to_datalap(run: &Vec<Trackpoint>) -> (r: DataLap)
    requires
        forall|j: int| 0 <= j < run@.len() ==> tp_wf(#[trigger] run@[j]),
    ensures
        r.hr_data@ == hr_seq(run@),
        r.watt_data@ == watt_seq(run@),
{
    let mut hr: Vec<Data> = Vec::new();
    let mut watt: Vec<Data> = Vec::new();
    let mut i: usize = 0;
    while i < run.len()
        invariant
            0 <= i <= run@.len(),
            forall|j: int| 0 <= j < run@.len() ==> tp_wf(#[trigger] run@[j]),
            hr@ == hr_seq(run@.take(i as int)),
            watt@ == watt_seq(run@.take(i as int)),
        decreases run@.len() - i,
    {
        proof {
            assert(run@.take(i + 1 as int).drop_last() =~= run@.take(i as int));
            assert(run@.take(i + 1 as int).last() == run@[i as int]);
        }
        match to_hr_data(&run[i]) {
            Some(d) => hr.push(d),
            None => {},
        }
        match to_watt_data(&run[i]) {
            Some(d) => watt.push(d),
            None => {},
        }
        i = i + 1;
    }
    proof {
        assert(run@.take(run@.len() as int) =~= run@);
    }
    DataLap { hr_data: hr, watt_data: watt }
}

/// Walk the document and produce, per lap in document order, its two
/// sparse series.
pub fn to_data_vec(d: &TrainingCenterDatabase) -> (r: Vec<DataLap>)
    requires
        db_wf(*d),
    ensures
        r@.len() == concat_laps(d.activities.activity@).len(),
        forall|k: int|
            0 <= k < r@.len() ==> (#[trigger] r@[k].hr_data@) == hr_seq(
                concat_laps(d.activities.activity@)[k],
            ) && r@[k].watt_data@ == watt_seq(concat_laps(d.activities.activity@)[k]),
{
    let acts = &d.activities.activity;
    let mut out: Vec<DataLap> = Vec::new();
    let mut i: usize = 0;
    while i < acts.len()
        invariant
            0 <= i <= acts@.len(),
            db_wf(*d),
            acts == d.activities.activity,
            out@.len() == concat_laps(acts@.take(i as int)).len(),
            forall|k: int|
                0 <= k < out@.len() ==> (#[trigger] out@[k].hr_data@) == hr_seq(
                    concat_laps(acts@.take(i as int))[k],
                ) && out@[k].watt_data@ == watt_seq(concat_laps(acts@.take(i as int))[k]),
        decreases acts@.len() - i,
    {
        let a = &acts[i];
        let mut j: usize = 0;
        while j < a.lap.len()
            invariant
                0 <= j <= a.lap@.len(),
                db_wf(*d),
                acts == d.activities.activity,
                0 <= i < acts@.len(),
                a == acts@[i as int],
                out@.len() == concat_laps(acts@.take(i as int)).len() + j,
                forall|k: int|
                    0 <= k < out@.len() ==> (#[trigger] out@[k].hr_data@) == hr_seq(
                        (concat_laps(acts@.take(i as int)) + a.lap@.take(j as int).map_values(
                            |l: Lap| concat_tracks(l.track@),
                        ))[k],
                    ) && out@[k].watt_data@ == watt_seq(
                        (concat_laps(acts@.take(i as int)) + a.lap@.take(j as int).map_values(
                            |l: Lap| concat_tracks(l.track@),
                        ))[k],
                    ),
            decreases a.lap@.len() - j,
        {
            let run = lap_run(&a.lap[j]);
            proof {
                assert(crate::parse::lap_wf(a.lap@[j as int]));
                lemma_concat_tracks_wf(a.lap@[j as int].track@);
            }
            let dl = run_to_datalap(&run);
            out.push(dl);
            proof {
                assert(a.lap@.take(j + 1 as int).map_values(|l: Lap| concat_tracks(l.track@))
                    =~= a.lap@.take(j as int).map_values(|l: Lap| concat_tracks(l.track@))
                    + seq![concat_tracks(a.lap@[j as int].track@)]);
            }
            j = j + 1;
        }
        proof {
            assert(a.lap@.take(a.lap@.len() as int) =~= a.lap@);
            assert(acts@.take(i + 1 as int).drop_last() =~= acts@.take(i as int));
            assert(concat_laps(acts@.take(i + 1 as int)) == concat_laps(acts@.take(i as int))
                + acts@[i as int].lap@.map_values(|l: Lap| concat_tracks(l.track@)));
        }
        i = i + 1;
    }
    proof {
        assert(acts@.take(acts@.len() as int) =~= acts@);
    }
    out
}

/// A lap run concatenated from well-formed tracks is well-formed
/// trackpoint by trackpoint.
proof fn lemma_concat_tracks_wf(ts: Seq<Track>)
    requires
        forall|i: int| 0 <= i < ts.len() ==> crate::parse::track_wf(#[trigger] ts[i]),
    ensures
        forall|k: int|
            0 <= k < concat_tracks(ts).len() ==> tp_wf(#[trigger] concat_tracks(ts)[k]),
    decreases ts.len(),
{
    if ts.len() > 0 {
        lemma_concat_tracks_wf(ts.drop_last());
        assert forall|k: int| 0 <= k < concat_tracks(ts).len() implies tp_wf(
            #[trigger] concat_tracks(ts)[k],
        ) by {
            let pre = concat_tracks(ts.drop_last());
            if k < pre.len() {
                assert(concat_tracks(ts)[k] == pre[k]);
            } else {
                assert(concat_tracks(ts)[k] == ts.last().trackpoints@[k - pre.len()]);
                assert(crate::parse::track_wf(ts[ts.len() - 1]));
            }
        }
    }
}

/// Removing a trackpoint that has no timestamp changes neither derived
/// series, whatever other values it carries.
pub proof fn lemma_no_time_no_contribution(tps: Seq<Trackpoint>, i: int)
    requires
        0 <= i < tps.len(),
        tps[i].time is None,
    ensures
        hr_seq(tps.remove(i)) == hr_seq(tps),
        watt_seq(tps.remove(i)) == watt_seq(tps),
    decreases tps.len(),
{
    if i == tps.len() - 1 {
        assert(tps.remove(i) =~= tps.drop_last());
        assert(hr_sample(tps.last()) is None);
        assert(watt_sample(tps.last()) is None);
        assert(hr_seq(tps) =~= hr_seq(tps.drop_last()));
        assert(watt_seq(tps) =~= watt_seq(tps.drop_last()));
    } else {
        assert(tps.remove(i).drop_last() =~= tps.drop_last().remove(i));
        assert(tps.remove(i).last() == tps.last());
        lemma_no_time_no_contribution(tps.drop_last(), i);
    }
}

} // verus!
