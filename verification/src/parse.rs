//! The typed document model and its lenient decoding. The raw hierarchical
//! document arrives as plain optional text fields; absence of an optional
//! field is never an error, while a present field whose text does not parse
//! (the fixed timestamp pattern, a base-10 integer for heart rate or power)
//! fails the whole decode with an error naming the offending field.

use vstd::prelude::*;
use crate::timestamp::Timestamp;
use crate::timestamp::is_digit;
use crate::timestamp::dv;
use crate::timestamp::parse_spec;
use crate::timestamp::parse_timestamp;

verus! {

/// The power extension sub-block: integer watts.
#[derive(Clone, Copy, PartialEq, Eq, Structural, Debug)]
pub struct TPX {
    pub watts: u16,
}

/// The extensions block of a trackpoint.
#[derive(Clone, Copy, PartialEq, Eq, Structural, Debug)]
pub struct Extensions {
    pub tpx: TPX,
}

/// The atomic sample: every field independently optional, because the
/// source document may omit any of them on any given sample.
#[derive(Clone, Copy, PartialEq, Eq, Structural, Debug)]
pub struct Trackpoint {
    pub time: Option<Timestamp>,
    pub heart_rate_bpm: Option<u16>,
    pub extensions: Option<Extensions>,
}

/// An ordered run of trackpoints.
#[derive(Debug)]
pub struct Track {
    pub trackpoints: Vec<Trackpoint>,
}

/// A lap: an ordered sequence of tracks, logically contiguous in time.
#[derive(Debug)]
pub struct Lap {
    pub track: Vec<Track>,
}

/// An activity: an ordered sequence of laps.
#[derive(Debug)]
pub struct Activity {
    pub lap: Vec<Lap>,
}

/// The ordered activities of the document.
#[derive(Debug)]
pub struct Activities {
    pub activity: Vec<Activity>,
}

/// The document root.
#[derive(Debug)]
pub struct TrainingCenterDatabase {
    pub activities: Activities,
}

/// A present timestamp is a well-formed instant.
pub open spec fn tp_wf(t: Trackpoint) -> bool {
    t.time matches Some(ts) ==> ts.wf()
}

/// All trackpoints of a track are well-formed.
pub open spec fn track_wf(t: Track) -> bool {
    forall|i: int| 0 <= i < t.trackpoints@.len() ==> tp_wf(#[trigger] t.trackpoints@[i])
}

/// All tracks of a lap are well-formed.
pub open spec fn lap_wf(l: Lap) -> bool {
    forall|i: int| 0 <= i < l.track@.len() ==> track_wf(#[trigger] l.track@[i])
}

/// All laps of an activity are well-formed.
pub open spec fn activity_wf(a: Activity) -> bool {
    forall|i: int| 0 <= i < a.lap@.len() ==> lap_wf(#[trigger] a.lap@[i])
}

/// All activities of a document are well-formed.
pub open spec fn db_wf(d: TrainingCenterDatabase) -> bool {
    forall|i: int|
        0 <= i < d.activities.activity@.len() ==> activity_wf(
            #[trigger] d.activities.activity@[i],
        )
}

/// A raw trackpoint: the text of each optional field, exactly as the
/// surrounding document carried it, or absent.
#[derive(Debug)]
pub struct RawTrackpoint {
    pub time: Option<Vec<u8>>,
    pub heart_rate: Option<Vec<u8>>,
    pub watts: Option<Vec<u8>>,
}

/// A raw track.
#[derive(Debug)]
pub struct RawTrack {
    pub trackpoints: Vec<RawTrackpoint>,
}

/// A raw lap.
#[derive(Debug)]
pub struct RawLap {
    pub track: Vec<RawTrack>,
}

/// A raw activity.
#[derive(Debug)]
pub struct RawActivity {
    pub lap: Vec<RawLap>,
}

/// The raw document: the activity hierarchy with undecoded field text.
#[derive(Debug)]
pub struct RawDocument {
    pub activity: Vec<RawActivity>,
}

/// A present field whose text does not parse, named.
#[derive(Clone, Copy, PartialEq, Eq, Structural, Debug)]
pub enum FormatError {
    Timestamp,
    HeartRate,
    Power,
}

/// Every byte is a decimal digit.
pub open spec fn all_digits(s: Seq<u8>) -> bool {
    forall|i: int| 0 <= i < s.len() ==> is_digit(#[trigger] s[i])
}

/// The value of a decimal digit string.
pub open spec fn dec_value(s: Seq<u8>) -> int
    decreases s.len(),
{
    if s.len() == 0 {
        0
    } else {
        10 * dec_value(s.drop_last()) + dv(s.last())
    }
}

/// The text is a base-10 integer that fits the value range.
pub open spec fn u16_text(s: Seq<u8>) -> bool {
    1 <= s.len() && all_digits(s) && dec_value(s) <= 65535
}

/// A digit string's value is never negative.
proof fn lemma_dec_value_nonneg(s: Seq<u8>)
    requires
        all_digits(s),
    ensures
        dec_value(s) >= 0,
    decreases s.len(),
{
    if s.len() > 0 {
        assert(all_digits(s.drop_last()));
        lemma_dec_value_nonneg(s.drop_last());
    }
}

/// A digit string's value is at least the value of any of its prefixes.
proof fn lemma_dec_value_prefix(s: Seq<u8>, i: int)
    requires
        all_digits(s),
        0 <= i <= s.len(),
    ensures
        dec_value(s.take(i)) <= dec_value(s),
    decreases s.len(),
{
    if i < s.len() {
        assert(all_digits(s.drop_last()));
        assert(s.drop_last().take(i) =~= s.take(i));
        lemma_dec_value_prefix(s.drop_last(), i);
        lemma_dec_value_nonneg(s.drop_last());
    } else {
        assert(s.take(i) =~= s);
    }
}

/// Parse a base-10 integer field value. Succeeds exactly on a non-empty
/// all-digit text whose value fits the range.
pub fn parse_u16(s: &Vec<u8>) -> (r: Option<u16>)
    ensures
        r is Some <==> u16_text(s@),
        r matches Some(x) ==> x == dec_value(s@),
{
    let n = s.len();
    if n == 0 {
        return None;
    }
    let mut acc: u64 = 0;
    let mut i: usize = 0;
    while i < n
        invariant
            0 <= i <= n,
            n == s@.len(),
            all_digits(s@.take(i as int)),
            acc == dec_value(s@.take(i as int)),
            acc <= 65535,
        decreases n - i,
    {
        let c = s[i];
        if c < 48 || c > 57 {
            assert(!all_digits(s@));
            return None;
        }
        proof {
            assert(s@.take(i + 1 as int).drop_last() =~= s@.take(i as int));
            assert(all_digits(s@.take(i + 1 as int)));
        }
        acc = 10 * acc + ((c - 48) as u64);
        if acc > 65535 {
            proof {
                if all_digits(s@) {
                    lemma_dec_value_prefix(s@, i + 1 as int);
                }
            }
            return None;
        }
        i = i + 1;
    }
    proof {
        assert(s@.take(n as int) =~= s@);
    }
    Some(acc as u16)
}

/// A raw trackpoint decodes: each present field's text parses.
pub open spec fn tp_ok(r: RawTrackpoint) -> bool {
    &&& (r.time matches Some(t) ==> parse_spec(t@) is Some)
    &&& (r.heart_rate matches Some(h) ==> u16_text(h@))
    &&& (r.watts matches Some(w) ==> u16_text(w@))
}

/// The field a failing raw trackpoint fails on, in document order.
pub open spec fn tp_err(r: RawTrackpoint) -> FormatError {
    if r.time matches Some(t) && parse_spec(t@) is None {
        FormatError::Timestamp
    } else if r.heart_rate matches Some(h) && !u16_text(h@) {
        FormatError::HeartRate
    } else {
        FormatError::Power
    }
}

/// The typed trackpoint a decodable raw trackpoint denotes.
pub open spec fn tp_val(r: RawTrackpoint) -> Trackpoint {
    Trackpoint {
        time: match r.time {
            Some(t) => parse_spec(t@),
            None => None,
        },
        heart_rate_bpm: match r.heart_rate {
            Some(h) => Some(dec_value(h@) as u16),
            None => None,
        },
        extensions: match r.watts {
            Some(w) => Some(Extensions { tpx: TPX { watts: dec_value(w@) as u16 } }),
            None => None,
        },
    }
}

/// Decode one raw trackpoint: absence of a field is fine, a present field
/// that does not parse fails, naming the first offending field.
pub fn decode_trackpoint(r: &RawTrackpoint) -> (res: Result<Trackpoint, FormatError>)
    ensures
        res is Ok <==> tp_ok(*r),
        res matches Ok(t) ==> t == tp_val(*r) && tp_wf(t),
        res matches Err(e) ==> e == tp_err(*r),
{
    let time: Option<Timestamp> = match &r.time {
        Some(t) => {
            match parse_timestamp(t) {
                Some(ts) => Some(ts),
                None => {
                    return Err(FormatError::Timestamp);
                },
            }
        },
        None => None,
    };
    let heart_rate_bpm: Option<u16> = match &r.heart_rate {
        Some(h) => {
            match parse_u16(h) {
                Some(v) => Some(v),
                None => {
                    return Err(FormatError::HeartRate);
                },
            }
        },
        None => None,
    };
    let extensions: Option<Extensions> = match &r.watts {
        Some(w) => {
            match parse_u16(w) {
                Some(v) => Some(Extensions { tpx: TPX { watts: v } }),
                None => {
                    return Err(FormatError::Power);
                },
            }
        },
        None => None,
    };
    Ok(Trackpoint { time, heart_rate_bpm, extensions })
}

/// Every raw trackpoint of the track decodes.
pub open spec fn track_ok(r: RawTrack) -> bool {
    forall|i: int| 0 <= i < r.trackpoints@.len() ==> tp_ok(#[trigger] r.trackpoints@[i])
}

/// Every raw track of the lap decodes.
pub open spec fn lap_ok(r: RawLap) -> bool {
    forall|i: int| 0 <= i < r.track@.len() ==> track_ok(#[trigger] r.track@[i])
}

/// Every raw lap of the activity decodes.
pub open spec fn activity_ok(r: RawActivity) -> bool {
    forall|i: int| 0 <= i < r.lap@.len() ==> lap_ok(#[trigger] r.lap@[i])
}

/// Every raw activity of the document decodes.
pub open spec fn doc_ok(r: RawDocument) -> bool {
    forall|i: int| 0 <= i < r.activity@.len() ==> activity_ok(#[trigger] r.activity@[i])
}

/// The typed track carries exactly the decoded trackpoints, in order.
pub open spec fn track_matches(t: Track, r: RawTrack) -> bool {
    t.trackpoints@.len() == r.trackpoints@.len() && forall|i: int|
        0 <= i < r.trackpoints@.len() ==> t.trackpoints@[i] == tp_val(
            #[trigger] r.trackpoints@[i],
        )
}

/// The typed lap carries exactly the decoded tracks, in order.
pub open spec fn lap_matches(l: Lap, r: RawLap) -> bool {
    l.track@.len() == r.track@.len() && forall|i: int|
        0 <= i < r.track@.len() ==> track_matches(l.track@[i], #[trigger] r.track@[i])
}

/// The typed activity carries exactly the decoded laps, in order.
pub open spec fn activity_matches(a: Activity, r: RawActivity) -> bool {
    a.lap@.len() == r.lap@.len() && forall|i: int|
        0 <= i < r.lap@.len() ==> lap_matches(a.lap@[i], #[trigger] r.lap@[i])
}

/// The typed document carries exactly the decoded activities, in order.
pub open spec fn doc_matches(d: TrainingCenterDatabase, r: RawDocument) -> bool {
    d.activities.activity@.len() == r.activity@.len() && forall|i: int|
        0 <= i < r.activity@.len() ==> activity_matches(
            d.activities.activity@[i],
            #[trigger] r.activity@[i],
        )
}

/// The error comes from some undecodable trackpoint of the track.
pub open spec fn err_in_track(e: FormatError, r: RawTrack) -> bool {
    exists|i: int|
        0 <= i < r.trackpoints@.len() && !tp_ok(#[trigger] r.trackpoints@[i]) && e == tp_err(
            r.trackpoints@[i],
        )
}

/// The error comes from some undecodable trackpoint of the lap.
pub open spec fn err_in_lap(e: FormatError, r: RawLap) -> bool {
    exists|i: int| 0 <= i < r.track@.len() && err_in_track(e, #[trigger] r.track@[i])
}

/// The error comes from some undecodable trackpoint of the activity.
pub open spec fn err_in_activity(e: FormatError, r: RawActivity) -> bool {
    exists|i: int| 0 <= i < r.lap@.len() && err_in_lap(e, #[trigger] r.lap@[i])
}

/// The error comes from some undecodable trackpoint of the document.
pub open spec fn err_in_doc(e: FormatError, r: RawDocument) -> bool {
    exists|i: int| 0 <= i < r.activity@.len() && err_in_activity(e, #[trigger] r.activity@[i])
}

/// Decode one raw track.
pub fn decode_track(r: &RawTrack) -> (res: Result<Track, FormatError>)
    ensures
        res is Ok <==> track_ok(*r),
        res matches Ok(t) ==> track_matches(t, *r) && track_wf(t),
        res matches Err(e) ==> err_in_track(e, *r),
{
    let mut out: Vec<Trackpoint> = Vec::new();
    let mut i: usize = 0;
    while i < r.trackpoints.len()
        invariant
            0 <= i <= r.trackpoints@.len(),
            out@.len() == i,
            forall|k: int| 0 <= k < i ==> tp_ok(#[trigger] r.trackpoints@[k]),
            forall|k: int| 0 <= k < i ==> out@[k] == tp_val(#[trigger] r.trackpoints@[k]),
            forall|k: int| 0 <= k < i ==> tp_wf(#[trigger] out@[k]),
        decreases r.trackpoints@.len() - i,
    {
        match decode_trackpoint(&r.trackpoints[i]) {
            Ok(t) => out.push(t),
            Err(e) => {
                return Err(e);
            },
        }
        i = i + 1;
    }
    Ok(Track { trackpoints: out })
}

/// Decode one raw lap.
pub fn decode_lap(r: &RawLap) -> (res: Result<Lap, FormatError>)
    ensures
        res is Ok <==> lap_ok(*r),
        res matches Ok(l) ==> lap_matches(l, *r) && lap_wf(l),
        res matches Err(e) ==> err_in_lap(e, *r),
{
    let mut out: Vec<Track> = Vec::new();
    let mut i: usize = 0;
    while i < r.track.len()
        invariant
            0 <= i <= r.track@.len(),
            out@.len() == i,
            forall|k: int| 0 <= k < i ==> track_ok(#[trigger] r.track@[k]),
            forall|k: int| 0 <= k < i ==> track_matches(out@[k], #[trigger] r.track@[k]),
            forall|k: int| 0 <= k < i ==> track_wf(#[trigger] out@[k]),
        decreases r.track@.len() - i,
    {
        match decode_track(&r.track[i]) {
            Ok(t) => out.push(t),
            Err(e) => {
                return Err(e);
            },
        }
        i = i + 1;
    }
    Ok(Lap { track: out })
}

/// Decode one raw activity.
pub fn decode_activity(r: &RawActivity) -> (res: Result<Activity, FormatError>)
    ensures
        res is Ok <==> activity_ok(*r),
        res matches Ok(a) ==> activity_matches(a, *r) && activity_wf(a),
        res matches Err(e) ==> err_in_activity(e, *r),
{
    let mut out: Vec<Lap> = Vec::new();
    let mut i: usize = 0;
    while i < r.lap.len()
        invariant
            0 <= i <= r.lap@.len(),
            out@.len() == i,
            forall|k: int| 0 <= k < i ==> lap_ok(#[trigger] r.lap@[k]),
            forall|k: int| 0 <= k < i ==> lap_matches(out@[k], #[trigger] r.lap@[k]),
            forall|k: int| 0 <= k < i ==> lap_wf(#[trigger] out@[k]),
        decreases r.lap@.len() - i,
    {
        match decode_lap(&r.lap[i]) {
            Ok(l) => out.push(l),
            Err(e) => {
                return Err(e);
            },
        }
        i = i + 1;
    }
    Ok(Activity { lap: out })
}

/// Decode the raw document into the typed model. Succeeds exactly when
/// every present optional field of every trackpoint parses; fails with an
/// error naming the offending field of some undecodable trackpoint.
pub fn decode_document(r: &RawDocument) -> (res: Result<TrainingCenterDatabase, FormatError>)
    ensures
        res is Ok <==> doc_ok(*r),
        res matches Ok(d) ==> doc_matches(d, *r) && db_wf(d),
        res matches Err(e) ==> err_in_doc(e, *r),
{
    let mut out: Vec<Activity> = Vec::new();
    let mut i: usize = 0;
    while i < r.activity.len()
        invariant
            0 <= i <= r.activity@.len(),
            out@.len() == i,
            forall|k: int| 0 <= k < i ==> activity_ok(#[trigger] r.activity@[k]),
            forall|k: int| 0 <= k < i ==> activity_matches(out@[k], #[trigger] r.activity@[k]),
            forall|k: int| 0 <= k < i ==> activity_wf(#[trigger] out@[k]),
        decreases r.activity@.len() - i,
    {
        match decode_activity(&r.activity[i]) {
            Ok(a) => out.push(a),
            Err(e) => {
                return Err(e);
            },
        }
        i = i + 1;
    }
    Ok(TrainingCenterDatabase { activities: Activities { activity: out } })
}

} // verus!
