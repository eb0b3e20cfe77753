//! Detects espresso shots in the telemetry and records them.
use crate::binary32;
use crate::binary32::Binary32;
use crate::telemetry_feed;
use crate::telemetry_feed::TelemetrySnapshot;
use vstd::prelude::*;

verus! {

/// 0.5 bar: the smallest pressure that starts a shot.
pub const SHOT_START_PRESSURE_BAR: u32 = 0x3f00_0000;

/// 70.0 °C: the smallest temperature that starts a shot. A colder machine pulls no espresso.
pub const SHOT_START_TEMPERATURE_C: u32 = 0x428c_0000;

/// After this many ticks of 50 ms below the threshold a shot has ended: 2 s.
pub const SHOT_END_DEBOUNCE_TICKS: u32 = 40;

/// How many ticks of 50 ms before a shot are kept: 3 s.
pub const PRE_SHOT_BUFFER_LEN: usize = 60;

/// A point is recorded every so many ticks: every 250 ms.
pub const RECORD_INTERVAL_TICKS: u32 = 5;

/// The largest number of points of a shot: 50 s.
pub const MAX_SHOT_POINTS: usize = 200;

/// The time between two points.
pub const POINT_INTERVAL_MS: u32 = 250;

/// The length of a tick.
pub const TICK_MS: u32 = 50;

/// One point of a shot.
#[derive(Debug, Clone, Copy, PartialEq, Eq, Structural)]
pub struct ShotPoint {
    /// Milliseconds since the first point.
    pub time_ms: u32,
    pub pressure_bar: Binary32,
    pub temperature_c: Binary32,
    pub weight_g: Binary32,
    pub flow_gps: Binary32,
}

/// A recorded shot.
#[derive(Debug)]
pub struct ShotRecord {
    pub id: u32,
    /// Unix time in seconds, 0 where the clock was not set yet.
    pub unix_timestamp: u64,
    pub points: Vec<ShotPoint>,
}

/// What a shot holds.
#[verifier::ext_equal]
pub struct ShotRecordView {
    pub id: u32,
    pub unix_timestamp: u64,
    pub points: Seq<ShotPoint>,
}

impl View for ShotRecord {
    type V = ShotRecordView;

    open spec fn view(&self) -> ShotRecordView {
        ShotRecordView {
            id: self.id,
            unix_timestamp: self.unix_timestamp,
            points: self.points@,
        }
    }
}

/// What the list of shots shows of one.
#[derive(Debug, Clone, Copy, PartialEq, Eq, Structural)]
pub struct ShotSummary {
    pub id: u32,
    pub unix_timestamp: u64,
    pub duration_ms: u32,
    pub max_pressure_bar: Binary32,
    pub avg_temperature_c: Binary32,
    pub yield_g: Binary32,
    pub avg_flow_gps: Binary32,
}

/// Whether a value enters a mean: a finite number above zero.
pub open spec fn counts(x: Binary32) -> bool {
    x.finite() && binary32::zero().below(x)
}

/// How many values enter the mean.
pub open spec fn how_many(s: Seq<Binary32>) -> nat
    decreases s.len(),
{
    if s.len() == 0 {
        0
    } else {
        how_many(s.drop_last()) + (if counts(s.last()) {
            1nat
        } else {
            0nat
        })
    }
}

/// The sum of the values that enter the mean, added from the first to the last.
pub open spec fn total(s: Seq<Binary32>) -> Binary32
    decreases s.len(),
{
    if s.len() == 0 {
        binary32::zero()
    } else if counts(s.last()) {
        total(s.drop_last()).sum(s.last())
    } else {
        total(s.drop_last())
    }
}

/// The mean of the values that are finite and above zero; zero where there is none.
pub open spec fn mean(s: Seq<Binary32>) -> Binary32 {
    if how_many(s) == 0 {
        binary32::zero()
    } else {
        total(s).quotient(binary32::of_int(how_many(s) as int))
    }
}

/// The bits of negative infinity.
pub const NEGATIVE_INFINITY: u32 = 0xff80_0000;

/// The largest of the finite values; negative infinity where there is none.
pub open spec fn largest(s: Seq<Binary32>) -> Binary32
    decreases s.len(),
{
    if s.len() == 0 {
        Binary32::from_bits(NEGATIVE_INFINITY)
    } else if s.last().finite() {
        largest(s.drop_last()).larger(s.last())
    } else {
        largest(s.drop_last())
    }
}

/// The pressures of some points.
pub open spec fn pressures(points: Seq<ShotPoint>) -> Seq<Binary32> {
    points.map_values(|p: ShotPoint| p.pressure_bar)
}

/// The temperatures of some points.
pub open spec fn temperatures(points: Seq<ShotPoint>) -> Seq<Binary32> {
    points.map_values(|p: ShotPoint| p.temperature_c)
}

/// The flows of some points.
pub open spec fn flows(points: Seq<ShotPoint>) -> Seq<Binary32> {
    points.map_values(|p: ShotPoint| p.flow_gps)
}

/// The summary of a shot.
pub open spec fn summary(id: u32, unix_timestamp: u64, points: Seq<ShotPoint>) -> ShotSummary {
    ShotSummary {
        id,
        unix_timestamp,
        duration_ms: if points.len() == 0 {
            0
        } else {
            points.last().time_ms
        },
        max_pressure_bar: largest(pressures(points)).or_zero(),
        avg_temperature_c: mean(temperatures(points)),
        yield_g: (if points.len() == 0 {
            binary32::zero().difference(binary32::zero())
        } else {
            points.last().weight_g.difference(points[0].weight_g)
        }).larger(binary32::zero()),
        avg_flow_gps: mean(flows(points)),
    }
}

/// The largest of the finite values is one of them, and none of them is above it.
pub proof fn lemma_largest(s: Seq<Binary32>)
    ensures
        forall|i: int|
            0 <= i < s.len() && (#[trigger] s[i]).finite() ==> s[i].at_most(largest(s)),
        largest(s).finite() ==> s.contains(largest(s)),
        !largest(s).nan(),
        !largest(s).finite() ==> largest(s) == Binary32::from_bits(NEGATIVE_INFINITY),
    decreases s.len(),
{
    if s.len() > 0 {
        let shorter = s.drop_last();
        lemma_largest(shorter);
        assert forall|i: int| 0 <= i < s.len() && (#[trigger] s[i]).finite() implies s[i].at_most(
            largest(s),
        ) by {
            if i < shorter.len() {
                assert(shorter[i] == s[i]);
            }
        }
        if largest(s).finite() {
            if largest(s) == s.last() {
                assert(s[s.len() - 1] == largest(s));
            } else {
                let j = choose|j: int| 0 <= j < shorter.len() && shorter[j] == largest(s);
                assert(s[j] == largest(s));
            }
        }
    }
}

fn mean_of(values: &Vec<Binary32>) -> (r: Binary32)
    ensures
        r == mean(values@),
{
    let mut sum = Binary32::from_bits(0);
    let mut count: u64 = 0;
    let mut i: usize = 0;
    while i < values.len()
        invariant
            i <= values.len(),
            count <= i,
            count == how_many(values@.take(i as int)),
            sum == total(values@.take(i as int)),
        decreases values.len() - i,
    {
        let x = values[i];
        assert(values@.take(i + 1).drop_last() =~= values@.take(i as int));
        assert(values@.take(i + 1).last() == x);
        if x.is_finite() && Binary32::from_bits(0).less(x) {
            sum = sum.plus(x);
            count = count + 1;
        }
        i = i + 1;
    }
    assert(values@.take(i as int) =~= values@);
    if count == 0 {
        Binary32::from_bits(0)
    } else {
        sum.divided_by(Binary32::from_unsigned(count))
    }
}

impl ShotRecord {
    /// The summary of the shot.
    pub fn to_summary(&self) -> (r: ShotSummary)
        ensures
            r == summary(self.id, self.unix_timestamp, self.points@),
    {
        let n: usize = self.points.len();
        let mut highest = Binary32::from_bits(NEGATIVE_INFINITY);
        let mut temps: Vec<Binary32> = Vec::new();
        let mut flow_values: Vec<Binary32> = Vec::new();
        let ghost points = self.points@;
        let mut i: usize = 0;
        while i < n
            invariant
                i <= n,
                n == self.points.len(),
                points == self.points@,
                highest == largest(pressures(points).take(i as int)),
                temps@ == temperatures(points).take(i as int),
                flow_values@ == flows(points).take(i as int),
            decreases n - i,
        {
            let p = self.points[i];
            proof {
                let more = pressures(points).take(i + 1);
                assert(more.drop_last() =~= pressures(points).take(i as int));
                assert(more.last() == p.pressure_bar);
                assert(temperatures(points).take(i + 1) =~= temperatures(points).take(
                    i as int,
                ).push(p.temperature_c));
                assert(flows(points).take(i + 1) =~= flows(points).take(i as int).push(p.flow_gps));
            }
            if p.pressure_bar.is_finite() {
                highest = highest.max(p.pressure_bar);
            }
            temps.push(p.temperature_c);
            flow_values.push(p.flow_gps);
            i = i + 1;
        }
        proof {
            assert(pressures(points).take(n as int) =~= pressures(points));
            assert(temperatures(points).take(n as int) =~= temperatures(points));
            assert(flows(points).take(n as int) =~= flows(points));
        }
        let (first_weight, last_weight, duration_ms): (Binary32, Binary32, u32) = if n == 0 {
            (Binary32::from_bits(0), Binary32::from_bits(0), 0)
        } else {
            (
                self.points[0].weight_g,
                self.points[n - 1].weight_g,
                self.points[n - 1].time_ms,
            )
        };
        ShotSummary {
            id: self.id,
            unix_timestamp: self.unix_timestamp,
            duration_ms,
            max_pressure_bar: highest.finite_or_zero(),
            avg_temperature_c: mean_of(&temps),
            yield_g: last_weight.minus(first_weight).max(Binary32::from_bits(0)),
            avg_flow_gps: mean_of(&flow_values),
        }
    }
}

/// What the recorder is doing.
pub enum RecorderState {
    Idle,
    /// A shot was stopped by hand while the signal was above the threshold. No shot starts until
    /// the signal has been below it.
    Cooldown,
    Recording {
        points: Vec<ShotPoint>,
        tick_count: u32,
        record_ticker: u32,
        start_unix_ts: u64,
        shot_id: u32,
    },
    Debouncing {
        points: Vec<ShotPoint>,
        tick_count: u32,
        record_ticker: u32,
        debounce_ticks: u32,
        start_unix_ts: u64,
        shot_id: u32,
    },
}

/// A shot that is being recorded: its points so far and the ticks since the last one.
pub struct OpenShot {
    pub points: Seq<ShotPoint>,
    pub ticker: nat,
    pub started: u64,
    pub id: u32,
}

/// What the recorder is doing.
pub enum Phase {
    Idle,
    Cooldown,
    Recording(OpenShot),
    /// The signal has been below the threshold for so many ticks.
    Debouncing(OpenShot, nat),
}

/// Everything a recorder knows: the latest snapshots, oldest first, what it is doing, and the
/// number of the next shot.
pub struct RecorderView {
    pub history: Seq<TelemetrySnapshot>,
    pub phase: Phase,
    pub next_id: u32,
}

/// Whether a snapshot is above the threshold that starts a shot.
pub open spec fn above_threshold(snap: TelemetrySnapshot) -> bool {
    Binary32::from_bits(SHOT_START_PRESSURE_BAR).at_most(snap.pressure_bar)
        && Binary32::from_bits(SHOT_START_TEMPERATURE_C).at_most(snap.temperature_c)
}

/// The point that a snapshot gives.
pub open spec fn point_of(snap: TelemetrySnapshot, time_ms: int) -> ShotPoint {
    ShotPoint {
        time_ms: time_ms as u32,
        pressure_bar: snap.pressure_bar,
        temperature_c: snap.temperature_c,
        weight_g: snap.weight_g,
        flow_gps: snap.flow_gps,
    }
}

/// The latest snapshots after one more: at most 60, the oldest leaves.
pub open spec fn remembered(history: Seq<TelemetrySnapshot>, snap: TelemetrySnapshot) -> Seq<
    TelemetrySnapshot,
> {
    if history.len() < PRE_SHOT_BUFFER_LEN {
        history.push(snap)
    } else {
        history.push(snap).skip(1)
    }
}

/// The points before a shot: every fifth snapshot, from the oldest, 250 ms apart.
pub open spec fn points_before(history: Seq<TelemetrySnapshot>) -> Seq<ShotPoint> {
    Seq::new(
        ((history.len() + 4) / 5) as nat,
        |i: int| point_of(history[5 * i], i * POINT_INTERVAL_MS),
    )
}

/// The time of the point that follows.
pub open spec fn next_time(points: Seq<ShotPoint>) -> int {
    if points.len() == 0 {
        POINT_INTERVAL_MS as int
    } else {
        points.last().time_ms + POINT_INTERVAL_MS
    }
}

/// The shot after one more tick: every fifth tick gives a point, until there are 200.
pub open spec fn ticked(shot: OpenShot, snap: TelemetrySnapshot) -> OpenShot {
    if shot.ticker + 1 < RECORD_INTERVAL_TICKS {
        OpenShot { ticker: shot.ticker + 1, ..shot }
    } else if shot.points.len() < MAX_SHOT_POINTS {
        OpenShot {
            points: shot.points.push(point_of(snap, next_time(shot.points))),
            ticker: 0,
            ..shot
        }
    } else {
        OpenShot { ticker: 0, ..shot }
    }
}

/// The number that follows `id`; the largest is followed by 0.
pub open spec fn id_after(id: u32) -> u32 {
    if id == u32::MAX {
        0
    } else {
        (id + 1) as u32
    }
}

impl RecorderView {
    /// Whether a shot is being recorded.
    pub open spec fn active(self) -> bool {
        self.phase is Recording || self.phase is Debouncing
    }

    /// What the recorder knows after a snapshot.
    pub open spec fn after(self, snap: TelemetrySnapshot, unix_timestamp: u64) -> RecorderView {
        let history = remembered(self.history, snap);
        let above = above_threshold(snap);
        match self.phase {
            Phase::Idle => if above {
                let before = points_before(history);
                RecorderView {
                    history,
                    phase: Phase::Recording(
                        OpenShot {
                            points: before.push(point_of(snap, next_time(before))),
                            ticker: 0,
                            started: unix_timestamp,
                            id: self.next_id,
                        },
                    ),
                    next_id: id_after(self.next_id),
                }
            } else {
                RecorderView { history, phase: Phase::Idle, next_id: self.next_id }
            },
            Phase::Cooldown => RecorderView {
                history,
                phase: if above {
                    Phase::Cooldown
                } else {
                    Phase::Idle
                },
                next_id: self.next_id,
            },
            Phase::Recording(shot) => RecorderView {
                history,
                phase: if above {
                    Phase::Recording(ticked(shot, snap))
                } else {
                    Phase::Debouncing(ticked(shot, snap), 1)
                },
                next_id: self.next_id,
            },
            Phase::Debouncing(shot, below) => RecorderView {
                history,
                phase: if above {
                    Phase::Recording(ticked(shot, snap))
                } else if below + 1 >= SHOT_END_DEBOUNCE_TICKS {
                    Phase::Idle
                } else {
                    Phase::Debouncing(ticked(shot, snap), below + 1)
                },
                next_id: self.next_id,
            },
        }
    }

    /// The shot that a snapshot completes: the one whose signal has now been below the threshold
    /// for 40 ticks.
    pub open spec fn completed_by(self, snap: TelemetrySnapshot) -> Option<OpenShot> {
        match self.phase {
            Phase::Debouncing(shot, below) => if !above_threshold(snap) && below + 1
                >= SHOT_END_DEBOUNCE_TICKS {
                Some(ticked(shot, snap))
            } else {
                None
            },
            _ => None,
        }
    }

    /// What the recorder knows after the shot was stopped by hand.
    pub open spec fn stopped(self) -> RecorderView {
        RecorderView {
            phase: match self.stopped_shot() {
                Some(_) => Phase::Cooldown,
                None => Phase::Idle,
            },
            ..self
        }
    }

    /// The shot that stopping by hand gives: the one being recorded, if it has any point.
    pub open spec fn stopped_shot(self) -> Option<OpenShot> {
        let shot = match self.phase {
            Phase::Recording(shot) => Some(shot),
            Phase::Debouncing(shot, _) => Some(shot),
            _ => None,
        };
        match shot {
            Some(s) => if s.points.len() > 0 {
                Some(s)
            } else {
                None
            },
            None => None,
        }
    }

    /// What the recorder knows after a shot was started by hand.
    pub open spec fn started(self, unix_timestamp: u64) -> RecorderView {
        if self.active() {
            self
        } else {
            RecorderView {
                history: self.history,
                phase: Phase::Recording(
                    OpenShot {
                        points: points_before(self.history),
                        ticker: 0,
                        started: unix_timestamp,
                        id: self.next_id,
                    },
                ),
                next_id: id_after(self.next_id),
            }
        }
    }
}

/// Whether a record is what was recorded of a shot.
pub open spec fn is_record_of(record: ShotRecord, shot: OpenShot) -> bool {
    &&& record.id == shot.id
    &&& record.unix_timestamp == shot.started
    &&& record.points@ == shot.points
}

/// Whether the points are at most 200 and 250 ms apart, starting within the first 250 ms.
pub open spec fn evenly_spaced(points: Seq<ShotPoint>) -> bool {
    &&& points.len() <= MAX_SHOT_POINTS
    &&& points.len() > 0 ==> points[0].time_ms == 0 || points[0].time_ms == POINT_INTERVAL_MS
    &&& forall|i: int|
        0 <= i < points.len() ==> (#[trigger] points[i]).time_ms == points[0].time_ms + i
            * POINT_INTERVAL_MS
}

spec fn shot_wf(points: Seq<ShotPoint>, tick_count: u32, record_ticker: u32) -> bool {
    &&& evenly_spaced(points)
    &&& record_ticker < RECORD_INTERVAL_TICKS
    &&& points.len() < MAX_SHOT_POINTS ==> tick_count * TICK_MS == (if points.len() == 0 {
        0
    } else {
        points.last().time_ms as int
    }) + record_ticker * TICK_MS
}

/// Records shots. Fed with a snapshot every 50 ms.
pub struct ShotRecorder {
    pre_buf: Vec<TelemetrySnapshot>,
    pre_buf_pos: usize,
    pre_buf_filled: usize,
    state: RecorderState,
    next_id: u32,
}

impl View for ShotRecorder {
    type V = RecorderView;

    closed spec fn view(&self) -> RecorderView {
        RecorderView {
            history: self.history(),
            phase: match self.state {
                RecorderState::Idle => Phase::Idle,
                RecorderState::Cooldown => Phase::Cooldown,
                RecorderState::Recording {
                    points,
                    tick_count,
                    record_ticker,
                    start_unix_ts,
                    shot_id,
                } => Phase::Recording(
                    OpenShot {
                        points: points@,
                        ticker: record_ticker as nat,
                        started: start_unix_ts,
                        id: shot_id,
                    },
                ),
                RecorderState::Debouncing {
                    points,
                    tick_count,
                    record_ticker,
                    debounce_ticks,
                    start_unix_ts,
                    shot_id,
                } => Phase::Debouncing(
                    OpenShot {
                        points: points@,
                        ticker: record_ticker as nat,
                        started: start_unix_ts,
                        id: shot_id,
                    },
                    debounce_ticks as nat,
                ),
            },
            next_id: self.next_id,
        }
    }
}

impl ShotRecorder {
    spec fn oldest(&self) -> int {
        if self.pre_buf_filled < PRE_SHOT_BUFFER_LEN {
            0
        } else {
            self.pre_buf_pos as int
        }
    }

    spec fn history(&self) -> Seq<TelemetrySnapshot> {
        Seq::new(
            self.pre_buf_filled as nat,
            |i: int| self.pre_buf@[(self.oldest() + i) % 60],
        )
    }

    spec fn buffer_wf(&self) -> bool {
        &&& self.pre_buf.len() == PRE_SHOT_BUFFER_LEN
        &&& self.pre_buf_pos < PRE_SHOT_BUFFER_LEN
        &&& self.pre_buf_filled <= PRE_SHOT_BUFFER_LEN
        &&& self.pre_buf_filled < PRE_SHOT_BUFFER_LEN ==> self.pre_buf_pos == self.pre_buf_filled
    }

    /// What holds of every recorder.
    pub closed spec fn wf(&self) -> bool {
        &&& self.buffer_wf()
        &&& match self.state {
            RecorderState::Recording { points, tick_count, record_ticker, .. } => shot_wf(
                points@,
                tick_count,
                record_ticker,
            ),
            RecorderState::Debouncing {
                points,
                tick_count,
                record_ticker,
                debounce_ticks,
                ..
            } => shot_wf(points@, tick_count, record_ticker) && debounce_ticks
                < SHOT_END_DEBOUNCE_TICKS,
            _ => true,
        }
    }

    /// A recorder that has seen nothing.
    pub fn new() -> (r: Self)
        ensures
            r.wf(),
            r@ == (RecorderView { history: seq![], phase: Phase::Idle, next_id: 1 }),
    {
        let empty = TelemetrySnapshot::empty();
        let mut pre_buf: Vec<TelemetrySnapshot> = Vec::new();
        let mut i: usize = 0;
        while i < PRE_SHOT_BUFFER_LEN
            invariant
                i <= PRE_SHOT_BUFFER_LEN,
                pre_buf.len() == i,
            decreases PRE_SHOT_BUFFER_LEN - i,
        {
            pre_buf.push(empty);
            i = i + 1;
        }
        let r = ShotRecorder {
            pre_buf,
            pre_buf_pos: 0,
            pre_buf_filled: 0,
            state: RecorderState::Idle,
            next_id: 1,
        };
        assert(r.history() =~= seq![]);
        r
    }

    /// Remembers a snapshot.
    fn remember(&mut self, snap: &TelemetrySnapshot)
        requires
            old(self).buffer_wf(),
        ensures
            final(self).buffer_wf(),
            final(self).history() == remembered(old(self).history(), *snap),
            final(self).state == old(self).state,
            final(self).next_id == old(self).next_id,
    {
        let ghost before = *self;
        self.pre_buf.set(self.pre_buf_pos, *snap);
        self.pre_buf_pos = (self.pre_buf_pos + 1) % PRE_SHOT_BUFFER_LEN;
        if self.pre_buf_filled < PRE_SHOT_BUFFER_LEN {
            self.pre_buf_filled = self.pre_buf_filled + 1;
        }
        proof {
            let expected = remembered(before.history(), *snap);
            assert(self.history().len() == expected.len());
            assert forall|i: int| 0 <= i < expected.len() implies #[trigger] self.history()[i]
                == expected[i] by {}
            assert(self.history() =~= expected);
        }
    }

    /// The points before a shot.
    fn drain_pre_buf(&self) -> (r: Vec<ShotPoint>)
        requires
            self.buffer_wf(),
        ensures
            r@ == points_before(self.history()),
            evenly_spaced(r@),
            r.len() <= 12,
    {
        let filled: usize = self.pre_buf_filled;
        let start: usize = if filled < PRE_SHOT_BUFFER_LEN {
            0
        } else {
            self.pre_buf_pos
        };
        let ghost expected = points_before(self.history());
        let mut out: Vec<ShotPoint> = Vec::new();
        let mut k: usize = 0;
        let count: usize = (filled + 4) / 5;
        while k < count
            invariant
                self.buffer_wf(),
                filled == self.pre_buf_filled,
                start == self.oldest(),
                count == (filled + 4) / 5,
                k <= count <= 12,
                expected == points_before(self.history()),
                out@ == expected.take(k as int),
            decreases count - k,
        {
            let snap = self.pre_buf[(start + 5 * k) % PRE_SHOT_BUFFER_LEN];
            let time_ms: u32 = k as u32 * POINT_INTERVAL_MS;
            proof {
                assert(self.history()[5 * k as int] == snap);
                assert(expected[k as int] == point_of(snap, time_ms as int));
                assert(expected.take(k + 1) =~= expected.take(k as int).push(expected[k as int]));
            }
            out.push(snap_to_point(&snap, time_ms));
            k = k + 1;
        }
        assert(out@ =~= expected);
        out
    }

    /// Takes a snapshot, every 50 ms. Gives a shot when it has been captured completely.
    pub fn update(&mut self, snap: &TelemetrySnapshot, unix_timestamp: u64) -> (r: Option<
        ShotRecord,
    >)
        requires
            old(self).wf(),
        ensures
            final(self).wf(),
            final(self)@ == old(self)@.after(*snap, unix_timestamp),
            match old(self)@.completed_by(*snap) {
                Some(shot) => r is Some && is_record_of(r->0, shot) && evenly_spaced(shot.points),
                None => r is None,
            },
    {
        let ghost before = *self;
        self.remember(snap);
        let above = Binary32::from_bits(SHOT_START_PRESSURE_BAR).less_or_equal(snap.pressure_bar)
            && Binary32::from_bits(SHOT_START_TEMPERATURE_C).less_or_equal(snap.temperature_c);
        let mut current = RecorderState::Idle;
        std::mem::swap(&mut current, &mut self.state);
        match current {
            RecorderState::Idle => {
                if above {
                    let id: u32 = self.next_id;
                    self.next_id = following_id(id);
                    let mut points = self.drain_pre_buf();
                    let live_t_ms: u32 = if points.len() == 0 {
                        0
                    } else {
                        points[points.len() - 1].time_ms + POINT_INTERVAL_MS
                    };
                    points.push(snap_to_point(snap, live_t_ms));
                    self.state = RecorderState::Recording {
                        points,
                        tick_count: live_t_ms / TICK_MS,
                        record_ticker: 0,
                        start_unix_ts: unix_timestamp,
                        shot_id: id,
                    };
                }
                None
            },
            RecorderState::Cooldown => {
                if above {
                    self.state = RecorderState::Cooldown;
                }
                None
            },
            RecorderState::Recording {
                points,
                tick_count,
                record_ticker,
                start_unix_ts,
                shot_id,
            } => {
                let (points, tick_count, record_ticker) = tick(
                    points,
                    tick_count,
                    record_ticker,
                    snap,
                );
                if above {
                    self.state = RecorderState::Recording {
                        points,
                        tick_count,
                        record_ticker,
                        start_unix_ts,
                        shot_id,
                    };
                } else {
                    self.state = RecorderState::Debouncing {
                        points,
                        tick_count,
                        record_ticker,
                        debounce_ticks: 1,
                        start_unix_ts,
                        shot_id,
                    };
                }
                None
            },
            RecorderState::Debouncing {
                points,
                tick_count,
                record_ticker,
                debounce_ticks,
                start_unix_ts,
                shot_id,
            } => {
                let (points, tick_count, record_ticker) = tick(
                    points,
                    tick_count,
                    record_ticker,
                    snap,
                );
                if above {
                    self.state = RecorderState::Recording {
                        points,
                        tick_count,
                        record_ticker,
                        start_unix_ts,
                        shot_id,
                    };
                    None
                } else if debounce_ticks + 1 >= SHOT_END_DEBOUNCE_TICKS {
                    Some(ShotRecord { id: shot_id, unix_timestamp: start_unix_ts, points })
                } else {
                    self.state = RecorderState::Debouncing {
                        points,
                        tick_count,
                        record_ticker,
                        debounce_ticks: debounce_ticks + 1,
                        start_unix_ts,
                        shot_id,
                    };
                    None
                }
            },
        }
    }

    /// Ends the shot that is being recorded and gives it, if there is one with any point. No new
    /// shot starts then before the signal has been below the threshold.
    pub fn finalize(&mut self) -> (r: Option<ShotRecord>)
        requires
            old(self).wf(),
        ensures
            final(self).wf(),
            final(self)@ == old(self)@.stopped(),
            match old(self)@.stopped_shot() {
                Some(shot) => r is Some && is_record_of(r->0, shot) && evenly_spaced(shot.points),
                None => r is None,
            },
    {
        let mut current = RecorderState::Idle;
        std::mem::swap(&mut current, &mut self.state);
        match current {
            RecorderState::Recording { points, start_unix_ts, shot_id, .. } => {
                if points.len() == 0 {
                    return None;
                }
                self.state = RecorderState::Cooldown;
                Some(ShotRecord { id: shot_id, unix_timestamp: start_unix_ts, points })
            },
            RecorderState::Debouncing { points, start_unix_ts, shot_id, .. } => {
                if points.len() == 0 {
                    return None;
                }
                self.state = RecorderState::Cooldown;
                Some(ShotRecord { id: shot_id, unix_timestamp: start_unix_ts, points })
            },
            RecorderState::Idle => None,
            RecorderState::Cooldown => None,
        }
    }

    /// Whether a shot is being recorded.
    pub fn is_active(&self) -> (r: bool)
        ensures
            r == self@.active(),
    {
        match &self.state {
            RecorderState::Recording { .. } => true,
            RecorderState::Debouncing { .. } => true,
            _ => false,
        }
    }

    /// Starts a shot whatever the pressure is. A shot that is being recorded goes on.
    pub fn force_start(&mut self, unix_timestamp: u64)
        requires
            old(self).wf(),
        ensures
            final(self).wf(),
            final(self)@ == old(self)@.started(unix_timestamp),
    {
        if self.is_active() {
            return;
        }
        let id: u32 = self.next_id;
        self.next_id = following_id(id);
        let points = self.drain_pre_buf();
        let initial_tick: u32 = if points.len() == 0 {
            0
        } else {
            points[points.len() - 1].time_ms / TICK_MS
        };
        self.state = RecorderState::Recording {
            points,
            tick_count: initial_tick,
            record_ticker: 0,
            start_unix_ts: unix_timestamp,
            shot_id: id,
        };
    }
}

impl Default for ShotRecorder {
    fn default() -> (r: Self)
        ensures
            r.wf(),
            r@ == (RecorderView { history: seq![], phase: Phase::Idle, next_id: 1 }),
    {
        Self::new()
    }
}

fn following_id(id: u32) -> (r: u32)
    ensures
        r == id_after(id),
{
    if id == u32::MAX {
        0
    } else {
        id + 1
    }
}

fn snap_to_point(snap: &TelemetrySnapshot, time_ms: u32) -> (r: ShotPoint)
    ensures
        r == point_of(*snap, time_ms as int),
{
    ShotPoint {
        time_ms,
        pressure_bar: snap.pressure_bar,
        temperature_c: snap.temperature_c,
        weight_g: snap.weight_g,
        flow_gps: snap.flow_gps,
    }
}

/// One tick of a shot that is being recorded.
fn tick(points: Vec<ShotPoint>, tick_count: u32, record_ticker: u32, snap: &TelemetrySnapshot) -> (r:
    (Vec<ShotPoint>, u32, u32))
    requires
        shot_wf(points@, tick_count, record_ticker),
    ensures
        shot_wf(r.0@, r.1, r.2),
        forall|started: u64, id: u32|
            (OpenShot { points: r.0@, ticker: r.2 as nat, started, id }) == #[trigger] ticked(
                (OpenShot { points: points@, ticker: record_ticker as nat, started, id }),
                *snap,
            ),
{
    let mut points = points;
    // Past the last point the count of ticks no longer matters.
    let new_tick: u32 = if tick_count < u32::MAX {
        tick_count + 1
    } else {
        tick_count
    };
    let mut ticker: u32 = record_ticker + 1;
    if ticker >= RECORD_INTERVAL_TICKS {
        ticker = 0;
        if points.len() < MAX_SHOT_POINTS {
            let t_ms: u32 = new_tick * TICK_MS;
            points.push(snap_to_point(snap, t_ms));
        }
    }
    (points, new_tick, ticker)
}

/// What the recorder knows after some snapshots.
pub open spec fn after_all(
    view: RecorderView,
    snaps: Seq<TelemetrySnapshot>,
    unix_timestamp: u64,
) -> RecorderView
    decreases snaps.len(),
{
    if snaps.len() == 0 {
        view
    } else {
        after_all(view, snaps.drop_last(), unix_timestamp).after(snaps.last(), unix_timestamp)
    }
}

/// Whether every snapshot is below the threshold.
pub open spec fn all_below(snaps: Seq<TelemetrySnapshot>) -> bool {
    forall|i: int| 0 <= i < snaps.len() ==> !above_threshold(#[trigger] snaps[i])
}

/// Whether every snapshot is above the threshold.
pub open spec fn all_above(snaps: Seq<TelemetrySnapshot>) -> bool {
    forall|i: int| 0 <= i < snaps.len() ==> above_threshold(#[trigger] snaps[i])
}

/// Below the threshold an idle recorder stays idle, however many snapshots come.
pub proof fn lemma_idle_stays_idle(
    view: RecorderView,
    snaps: Seq<TelemetrySnapshot>,
    unix_timestamp: u64,
)
    requires
        view.phase is Idle,
        all_below(snaps),
    ensures
        after_all(view, snaps, unix_timestamp).phase is Idle,
        after_all(view, snaps, unix_timestamp).next_id == view.next_id,
    decreases snaps.len(),
{
    if snaps.len() > 0 {
        let shorter = snaps.drop_last();
        assert(forall|i: int| 0 <= i < shorter.len() ==> #[trigger] shorter[i] == snaps[i]);
        lemma_idle_stays_idle(view, shorter, unix_timestamp);
        assert(snaps.last() == snaps[snaps.len() - 1]);
    }
}

/// The first snapshot above the threshold starts a shot.
pub proof fn lemma_crossing_starts(view: RecorderView, snap: TelemetrySnapshot, unix_timestamp: u64)
    requires
        view.phase is Idle,
        above_threshold(snap),
    ensures
        view.after(snap, unix_timestamp).active(),
        view.after(snap, unix_timestamp).next_id == id_after(view.next_id),
{
}

/// While a shot is recorded and the signal drops, the shot goes on for 39 ticks.
pub proof fn lemma_shot_outlives_short_drops(
    view: RecorderView,
    snaps: Seq<TelemetrySnapshot>,
    unix_timestamp: u64,
)
    requires
        view.phase is Recording,
        all_below(snaps),
        0 < snaps.len() < SHOT_END_DEBOUNCE_TICKS,
    ensures
        after_all(view, snaps, unix_timestamp).phase matches Phase::Debouncing(_, below) && below
            == snaps.len(),
        after_all(view, snaps.drop_last(), unix_timestamp).completed_by(snaps.last()) is None,
    decreases snaps.len(),
{
    let shorter = snaps.drop_last();
    assert(forall|i: int| 0 <= i < shorter.len() ==> #[trigger] shorter[i] == snaps[i]);
    assert(snaps.last() == snaps[snaps.len() - 1]);
    if shorter.len() > 0 {
        lemma_shot_outlives_short_drops(view, shorter, unix_timestamp);
    }
}

/// The fortieth tick in a row below the threshold completes the shot that was being recorded.
pub proof fn lemma_long_drop_completes(
    view: RecorderView,
    snaps: Seq<TelemetrySnapshot>,
    unix_timestamp: u64,
)
    requires
        view.phase is Recording,
        all_below(snaps),
        snaps.len() == SHOT_END_DEBOUNCE_TICKS,
    ensures
        after_all(view, snaps.drop_last(), unix_timestamp).completed_by(snaps.last()) is Some,
        after_all(view, snaps, unix_timestamp).phase is Idle,
{
    let shorter = snaps.drop_last();
    assert(forall|i: int| 0 <= i < shorter.len() ==> #[trigger] shorter[i] == snaps[i]);
    assert(snaps.last() == snaps[snaps.len() - 1]);
    lemma_shot_outlives_short_drops(view, shorter, unix_timestamp);
}

/// After a shot was stopped by hand none starts while the signal stays above the threshold.
pub proof fn lemma_no_restart_after_stop(
    view: RecorderView,
    snaps: Seq<TelemetrySnapshot>,
    unix_timestamp: u64,
)
    requires
        view.stopped_shot() is Some,
        all_above(snaps),
    ensures
        !view.stopped().active(),
        !after_all(view.stopped(), snaps, unix_timestamp).active(),
        after_all(view.stopped(), snaps, unix_timestamp).phase is Cooldown,
    decreases snaps.len(),
{
    if snaps.len() > 0 {
        let shorter = snaps.drop_last();
        assert(forall|i: int| 0 <= i < shorter.len() ==> #[trigger] shorter[i] == snaps[i]);
        assert(snaps.last() == snaps[snaps.len() - 1]);
        lemma_no_restart_after_stop(view, shorter, unix_timestamp);
    }
}

} // verus!
