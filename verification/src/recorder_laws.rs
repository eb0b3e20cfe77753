//! What a recorded shot has to do with the snapshots that were fed to the recorder.
use crate::binary32;
use crate::binary32::{Binary32, UNIT};
use crate::shot_recorder;
use crate::shot_recorder::{OpenShot, Phase, RecorderView, ShotPoint};
use crate::telemetry_feed::TelemetrySnapshot;
use vstd::arithmetic::power2::*;
use vstd::prelude::*;

verus! {

/// A snapshot that was fed to the recorder, and the Unix time at which it was.
pub struct Fed {
    pub snap: TelemetrySnapshot,
    pub unix_timestamp: u64,
}

/// How many of the snapshots before a shot count: those of the last 3 s.
pub open spec fn recent(begun: int) -> int {
    if begun < 60 {
        begun
    } else {
        60
    }
}

/// How many points before a shot that began after `begun` snapshots are recorded.
pub open spec fn lead(begun: int) -> int {
    (recent(begun) + 4) / 5
}

/// Which of the snapshots that were fed a point of a shot comes from. The shot began after
/// `begun` of them, and its first point that is not from before comes from the one at `live`.
pub open spec fn source(begun: int, live: int, i: int) -> int {
    if i < lead(begun) {
        begun - recent(begun) + 5 * i
    } else {
        live + 5 * (i - lead(begun))
    }
}

/// Whether a point has the readings of the snapshot that it comes from, and its time.
pub open spec fn point_comes_from(
    points: Seq<ShotPoint>,
    fed: Seq<Fed>,
    begun: int,
    live: int,
    i: int,
) -> bool {
    let s = source(begun, live, i);
    &&& 0 <= s < fed.len()
    &&& points[i].pressure_bar == fed[s].snap.pressure_bar
    &&& points[i].temperature_c == fed[s].snap.temperature_c
    &&& points[i].weight_g == fed[s].snap.weight_g
    &&& points[i].flow_gps == fed[s].snap.flow_gps
    &&& points[i].time_ms == points[0].time_ms + 250 * i
}

/// Whether the points were taken from the snapshots that were fed: one in five of those of the
/// last 3 s before the shot, and from the live one on every fifth, each with its readings.
pub open spec fn taken_from(
    points: Seq<ShotPoint>,
    fed: Seq<Fed>,
    begun: int,
    live: int,
) -> bool {
    &&& 0 <= begun <= fed.len()
    &&& lead(begun) <= points.len() <= 200
    &&& forall|i: int|
        0 <= i < points.len() ==> #[trigger] point_comes_from(points, fed, begun, live, i)
    &&& points.len() > 0 ==> points[0].time_ms == if lead(begun) > 0 {
        0int
    } else {
        250int
    }
}

/// Whether a shot was recorded from the snapshots that were fed, and began by itself with the
/// first one above the threshold.
pub open spec fn began_by_itself(shot: OpenShot, fed: Seq<Fed>, begun: int) -> bool {
    &&& begun >= 1
    &&& taken_from(shot.points, fed, begun, begun - 1)
    &&& shot.points.len() > lead(begun)
    &&& shot.started == fed[begun - 1].unix_timestamp
}

/// Whether a shot was recorded from the snapshots that were fed since it was started by hand.
pub open spec fn began_by_hand(shot: OpenShot, fed: Seq<Fed>, begun: int) -> bool {
    taken_from(shot.points, fed, begun, begun + 4)
}

/// Whether a shot was recorded from the snapshots that were fed.
pub open spec fn recorded_from(shot: OpenShot, fed: Seq<Fed>) -> bool {
    ||| exists|begun: int| began_by_itself(shot, fed, begun)
    ||| exists|begun: int| began_by_hand(shot, fed, begun)
}

/// A shot that is still being recorded: the next point comes from the fifth snapshot after the
/// last one.
pub open spec fn open_in_step(shot: OpenShot, fed: Seq<Fed>, begun: int, live: int) -> bool {
    &&& taken_from(shot.points, fed, begun, live)
    &&& shot.ticker < 5
    &&& shot.points.len() < 200 ==> fed.len() == source_after(begun, live, shot) + shot.ticker - 4
}

/// Where the next point will come from.
pub open spec fn source_after(begun: int, live: int, shot: OpenShot) -> int {
    live + 5 * (shot.points.len() - lead(begun))
}

pub open spec fn shot_in_step(shot: OpenShot, fed: Seq<Fed>) -> bool {
    ||| exists|begun: int| #[trigger]
        began_by_itself(shot, fed, begun) && open_in_step(shot, fed, begun, begun - 1)
    ||| exists|begun: int| #[trigger]
        began_by_hand(shot, fed, begun) && open_in_step(shot, fed, begun, begun + 4)
}

/// Whether what a recorder knows comes from the snapshots that were fed to it: it remembers the
/// latest 60 of them, and the shot that is being recorded was recorded from them.
pub open spec fn in_step(view: RecorderView, fed: Seq<Fed>) -> bool {
    &&& view.history.len() == recent(fed.len() as int)
    &&& forall|i: int|
        0 <= i < view.history.len() ==> #[trigger] view.history[i] == fed[fed.len()
            - view.history.len() + i].snap
    &&& match view.phase {
        Phase::Recording(shot) => shot_in_step(shot, fed),
        Phase::Debouncing(shot, _) => shot_in_step(shot, fed),
        _ => true,
    }
}

proof fn lemma_points_stay(
    points: Seq<ShotPoint>,
    fed: Seq<Fed>,
    next: Fed,
    begun: int,
    live: int,
)
    requires
        taken_from(points, fed, begun, live),
    ensures
        taken_from(points, fed.push(next), begun, live),
{
    let more = fed.push(next);
    assert forall|i: int| 0 <= i < points.len() implies #[trigger] point_comes_from(
        points,
        more,
        begun,
        live,
        i,
    ) by {
        assert(point_comes_from(points, fed, begun, live, i));
        let s = source(begun, live, i);
        assert(more[s] == fed[s]);
    }
}

proof fn lemma_tick_keeps_step(
    shot: OpenShot,
    fed: Seq<Fed>,
    next: Fed,
    begun: int,
    live: int,
)
    requires
        open_in_step(shot, fed, begun, live),
        begun <= live + 1,
    ensures
        open_in_step(shot_recorder::ticked(shot, next.snap), fed.push(next), begun, live),
        shot_recorder::ticked(shot, next.snap).points.len() >= shot.points.len(),
        shot_recorder::ticked(shot, next.snap).started == shot.started,
{
    let after = shot_recorder::ticked(shot, next.snap);
    let more = fed.push(next);
    lemma_points_stay(shot.points, fed, next, begun, live);
    if shot.ticker + 1 >= 5 && shot.points.len() < 200 {
        let n = shot.points.len() as int;
        let points = after.points;
        assert(source(begun, live, n) == fed.len());
        assert(more[fed.len() as int] == next);
        if n > 0 {
            assert(point_comes_from(shot.points, fed, begun, live, n - 1));
        }
        assert forall|i: int| 0 <= i < points.len() implies #[trigger] point_comes_from(
            points,
            more,
            begun,
            live,
            i,
        ) by {
            if i < n {
                assert(point_comes_from(shot.points, more, begun, live, i));
                assert(points[i] == shot.points[i]);
                assert(points[0] == shot.points[0]);
            }
        }
    }
}

proof fn lemma_shot_tick(shot: OpenShot, fed: Seq<Fed>, next: Fed)
    requires
        shot_in_step(shot, fed),
    ensures
        shot_in_step(shot_recorder::ticked(shot, next.snap), fed.push(next)),
        recorded_from(shot_recorder::ticked(shot, next.snap), fed.push(next)),
{
    let after = shot_recorder::ticked(shot, next.snap);
    let more = fed.push(next);
    if exists|begun: int| #[trigger]
        began_by_itself(shot, fed, begun) && open_in_step(shot, fed, begun, begun - 1) {
        let begun = choose|begun: int| #[trigger]
            began_by_itself(shot, fed, begun) && open_in_step(shot, fed, begun, begun - 1);
        lemma_tick_keeps_step(shot, fed, next, begun, begun - 1);
        assert(more[begun - 1] == fed[begun - 1]);
        assert(began_by_itself(after, more, begun));
    } else {
        let begun = choose|begun: int| #[trigger]
            began_by_hand(shot, fed, begun) && open_in_step(shot, fed, begun, begun + 4);
        lemma_tick_keeps_step(shot, fed, next, begun, begun + 4);
        assert(began_by_hand(after, more, begun));
    }
}

/// The points before a shot come from the latest snapshots.
proof fn lemma_points_before(view: RecorderView, fed: Seq<Fed>, live: int)
    requires
        view.history.len() == recent(fed.len() as int),
        forall|i: int|
            0 <= i < view.history.len() ==> #[trigger] view.history[i] == fed[fed.len()
                - view.history.len() + i].snap,
    ensures
        taken_from(shot_recorder::points_before(view.history), fed, fed.len() as int, live),
        shot_recorder::points_before(view.history).len() == lead(fed.len() as int),
{
    let points = shot_recorder::points_before(view.history);
    let n = fed.len() as int;
    assert forall|i: int| 0 <= i < points.len() implies #[trigger] point_comes_from(
        points,
        fed,
        n,
        live,
        i,
    ) by {
        assert(view.history[5 * i] == fed[n - view.history.len() + 5 * i].snap);
    }
}

/// A recorder that was fed nothing knows nothing.
pub proof fn lemma_new_recorder_is_in_step()
    ensures
        in_step(
            (RecorderView { history: seq![], phase: Phase::Idle, next_id: 1 }),
            Seq::<Fed>::empty(),
        ),
{
}

/// Every point of a recorded shot has the pressure, the temperature, the weight and the flow of
/// one snapshot that was fed. The points of a shot that begins by itself come from every fifth
/// snapshot of the 3 s before, then from the one that began it, then from every fifth after it;
/// they are 250 ms apart, and the shot has the Unix time of the snapshot that began it.
pub proof fn lemma_points_come_from_snapshots(view: RecorderView, fed: Seq<Fed>, next: Fed)
    requires
        in_step(view, fed),
    ensures
        in_step(view.after(next.snap, next.unix_timestamp), fed.push(next)),
        view.completed_by(next.snap) matches Some(shot) ==> recorded_from(shot, fed.push(next)),
{
    let more = fed.push(next);
    let after = view.after(next.snap, next.unix_timestamp);
    let n = more.len() as int;
    assert forall|i: int| 0 <= i < after.history.len() implies #[trigger] after.history[i]
        == more[n - after.history.len() + i].snap by {
        if i == after.history.len() - 1 {
        } else if view.history.len() < 60 {
            assert(after.history[i] == view.history[i]);
        } else {
            assert(after.history[i] == view.history[i + 1]);
        }
    }
    match view.phase {
        Phase::Idle => {
            match after.phase {
                Phase::Recording(shot) => {
                    lemma_points_before(after, more, n - 1);
                    let before = shot_recorder::points_before(after.history);
                    let points = shot.points;
                    assert(points[0] == before[0]);
                    assert(point_comes_from(before, more, n, n - 1, before.len() - 1));
                    assert forall|i: int| 0 <= i < points.len() implies #[trigger] point_comes_from(
                        points,
                        more,
                        n,
                        n - 1,
                        i,
                    ) by {
                        if i < before.len() {
                            assert(point_comes_from(before, more, n, n - 1, i));
                            assert(points[i] == before[i]);
                        }
                    }
                    assert(began_by_itself(shot, more, n));
                    assert(open_in_step(shot, more, n, n - 1));
                },
                _ => {},
            }
        },
        Phase::Cooldown => {},
        Phase::Recording(shot) => {
            lemma_shot_tick(shot, fed, next);
        },
        Phase::Debouncing(shot, _) => {
            lemma_shot_tick(shot, fed, next);
        },
    }
}

/// A shot that is stopped by hand was recorded from the snapshots that were fed, and is given
/// whole: stopping loses no point of it.
pub proof fn lemma_stopped_shot_comes_from_snapshots(view: RecorderView, fed: Seq<Fed>)
    requires
        in_step(view, fed),
    ensures
        in_step(view.stopped(), fed),
        view.stopped_shot() matches Some(shot) ==> recorded_from(shot, fed) && shot.points.len() > 0
            && (view.phase == Phase::Recording(shot) || exists|below: nat|
            view.phase == Phase::Debouncing(shot, below)),
{
    match view.phase {
        Phase::Recording(shot) => {
            lemma_open_shot_is_recorded(shot, fed);
        },
        Phase::Debouncing(shot, below) => {
            lemma_open_shot_is_recorded(shot, fed);
            assert(view.phase == Phase::Debouncing(shot, below));
        },
        _ => {},
    }
}

proof fn lemma_open_shot_is_recorded(shot: OpenShot, fed: Seq<Fed>)
    requires
        shot_in_step(shot, fed),
    ensures
        recorded_from(shot, fed),
{
    if exists|begun: int| #[trigger]
        began_by_itself(shot, fed, begun) && open_in_step(shot, fed, begun, begun - 1) {
        let begun = choose|begun: int| #[trigger]
            began_by_itself(shot, fed, begun) && open_in_step(shot, fed, begun, begun - 1);
        assert(began_by_itself(shot, fed, begun));
    } else {
        let begun = choose|begun: int| #[trigger]
            began_by_hand(shot, fed, begun) && open_in_step(shot, fed, begun, begun + 4);
        assert(began_by_hand(shot, fed, begun));
    }
}

/// A shot that is started by hand starts with the points of the 3 s before, and has the Unix time
/// at which it was started. One that is being recorded already goes on untouched.
pub proof fn lemma_started_shot_comes_from_snapshots(
    view: RecorderView,
    fed: Seq<Fed>,
    unix_timestamp: u64,
)
    requires
        in_step(view, fed),
    ensures
        in_step(view.started(unix_timestamp), fed),
        view.started(unix_timestamp).phase is Recording || view.phase is Debouncing,
        view.phase is Recording || view.phase is Debouncing ==> view.started(unix_timestamp)
            == view,
        view.phase is Idle || view.phase is Cooldown ==> {
            &&& view.started(unix_timestamp).phase matches Phase::Recording(shot)
            &&& shot.started == unix_timestamp
            &&& shot.id == view.next_id
            &&& view.started(unix_timestamp).next_id != view.next_id
            &&& shot.points.len() == lead(fed.len() as int)
            &&& began_by_hand(shot, fed, fed.len() as int)
        },
{
    let after = view.started(unix_timestamp);
    let n = fed.len() as int;
    if view.phase is Idle || view.phase is Cooldown {
        lemma_points_before(view, fed, n + 4);
        let shot = after.phase->Recording_0;
        assert(began_by_hand(shot, fed, n));
        assert(open_in_step(shot, fed, n, n + 4));
    }
}

/// A shot starts at 0.5 bar and 70 °C: where the recorder is idle, a snapshot with finite
/// readings starts one if and only if it has at least that pressure and that temperature, and
/// the shot gets a number of its own.
pub proof fn lemma_shot_starts_at_its_thresholds(
    view: RecorderView,
    snap: TelemetrySnapshot,
    unix_timestamp: u64,
)
    requires
        view.phase is Idle,
        snap.pressure_bar.finite(),
        snap.temperature_c.finite(),
    ensures
        ({
            let unit = pow2(UNIT as nat);
            let after = view.after(snap, unix_timestamp);
            let starts = 2 * snap.pressure_bar.value() >= unit && snap.temperature_c.value() >= 70
                * unit;
            &&& starts ==> {
                &&& after.phase matches Phase::Recording(shot)
                &&& shot.id == view.next_id
                &&& after.next_id != view.next_id
                &&& shot.started == unix_timestamp
            }
            &&& !starts ==> after.phase is Idle && after.next_id == view.next_id
        }),
{
    let half = Binary32::from_bits(0x3f00_0000);
    let seventy = Binary32::from_bits(0x428c_0000);
    lemma2_to64();
    lemma_pow2_adds(125, 24);
    lemma_pow2_adds(132, 17);
    binary32::lemma_value_of(half, 0x80_0000, 125);
    binary32::lemma_value_of(seventy, 0x8c_0000, 132);
    binary32::lemma_order_is_by_value(half, snap.pressure_bar);
    binary32::lemma_order_is_by_value(seventy, snap.temperature_c);
}

/// Whether a snapshot has at least half a bar and 70 degrees.
pub open spec fn brewing(snap: TelemetrySnapshot) -> bool {
    let unit = pow2(149);
    2 * snap.pressure_bar.value() >= unit && snap.temperature_c.value() >= 70 * unit
}

/// While a shot is recorded, a snapshot below half a bar or 70 degrees begins to end it and one
/// above takes that back; the fortieth below in a row ends it. After a stop by hand, one below
/// lets the next shot begin. None of these begins a shot or changes its number and its time.
pub proof fn lemma_shot_ends_after_forty(
    view: RecorderView,
    snap: TelemetrySnapshot,
    unix_timestamp: u64,
)
    requires
        snap.pressure_bar.finite(),
        snap.temperature_c.finite(),
    ensures
        ({
            let after = view.after(snap, unix_timestamp);
            let done = view.completed_by(snap);
            &&& view.phase matches Phase::Recording(shot) ==> {
                &&& done is None
                &&& after.next_id == view.next_id
                &&& brewing(snap) ==> (after.phase matches Phase::Recording(s) && s.id == shot.id
                    && s.started == shot.started)
                &&& !brewing(snap) ==> (after.phase matches Phase::Debouncing(s, below) && below
                    == 1 && s.id == shot.id && s.started == shot.started)
            }
            &&& view.phase matches Phase::Debouncing(shot, b) ==> {
                &&& after.next_id == view.next_id
                &&& brewing(snap) ==> done is None && (after.phase matches Phase::Recording(s)
                    && s.id == shot.id && s.started == shot.started)
                &&& !brewing(snap) && b < 39 ==> done is None && (
                after.phase matches Phase::Debouncing(s, below) && below == b + 1 && s.id == shot.id
                    && s.started == shot.started)
                &&& !brewing(snap) && b >= 39 ==> after.phase is Idle && (done matches Some(s)
                    && s.id == shot.id && s.started == shot.started)
            }
            &&& view.phase is Cooldown ==> done is None && after.next_id == view.next_id && (
            brewing(snap) ==> after.phase is Cooldown) && (!brewing(snap) ==> after.phase is Idle)
            &&& view.phase is Idle ==> done is None && (brewing(snap) <==> after.phase is Recording)
                && (brewing(snap) && view.next_id < u32::MAX ==> after.next_id == view.next_id + 1)
        }),
{
    let half = Binary32::from_bits(0x3f00_0000);
    let seventy = Binary32::from_bits(0x428c_0000);
    lemma2_to64();
    lemma_pow2_adds(125, 24);
    lemma_pow2_adds(132, 17);
    binary32::lemma_value_of(half, 0x80_0000, 125);
    binary32::lemma_value_of(seventy, 0x8c_0000, 132);
    binary32::lemma_order_is_by_value(half, snap.pressure_bar);
    binary32::lemma_order_is_by_value(seventy, snap.temperature_c);
}

} // verus!
