//! Shots recorded by hand, kept in memory with all their samples.
use crate::binary32;
use crate::binary32::Binary32;
use crate::binary64;
use crate::binary64::Binary64;
use crate::ieee::Signed;
use crate::telemetry_math;
use std::collections::VecDeque;
use vstd::prelude::*;

verus! {

/// The time between two samples.
pub const BREW_SAMPLE_INTERVAL_MS: u32 = 50;

/// How many completed shots are kept.
pub const HISTORY_CAPACITY: usize = 24;

/// One sample of a shot.
#[derive(Debug, Clone, Copy, PartialEq, Eq, Structural)]
pub struct ShotSample {
    pub elapsed_ms: u32,
    pub temperature_c: Binary32,
    pub pressure_bar: Binary32,
    pub flow_gps: Binary32,
    pub weight_g: Binary32,
}

/// A completed shot.
#[derive(Debug)]
pub struct ShotRecord {
    pub id: u64,
    pub started_at_epoch_ms: u64,
    pub ended_at_epoch_ms: u64,
    pub duration_ms: u32,
    pub manual: bool,
    pub peak_pressure_bar: Binary32,
    pub avg_pressure_bar: Binary32,
    pub avg_temperature_c: Binary32,
    pub yield_g: Binary32,
    pub samples: Vec<ShotSample>,
}

/// What a completed shot holds.
#[verifier::ext_equal]
pub struct ShotRecordView {
    pub id: u64,
    pub started_at_epoch_ms: u64,
    pub ended_at_epoch_ms: u64,
    pub duration_ms: u32,
    pub manual: bool,
    pub peak_pressure_bar: Binary32,
    pub avg_pressure_bar: Binary32,
    pub avg_temperature_c: Binary32,
    pub yield_g: Binary32,
    pub samples: Seq<ShotSample>,
}

impl View for ShotRecord {
    type V = ShotRecordView;

    open spec fn view(&self) -> ShotRecordView {
        ShotRecordView {
            id: self.id,
            started_at_epoch_ms: self.started_at_epoch_ms,
            ended_at_epoch_ms: self.ended_at_epoch_ms,
            duration_ms: self.duration_ms,
            manual: self.manual,
            peak_pressure_bar: self.peak_pressure_bar,
            avg_pressure_bar: self.avg_pressure_bar,
            avg_temperature_c: self.avg_temperature_c,
            yield_g: self.yield_g,
            samples: self.samples@,
        }
    }
}

impl Clone for ShotRecord {
    fn clone(&self) -> (r: Self)
        ensures
            r@ == self@,
    {
        let mut samples: Vec<ShotSample> = Vec::new();
        let mut i: usize = 0;
        while i < self.samples.len()
            invariant
                i <= self.samples.len(),
                samples@ == self.samples@.take(i as int),
            decreases self.samples.len() - i,
        {
            samples.push(self.samples[i]);
            assert(self.samples@.take(i + 1) =~= self.samples@.take(i as int).push(
                self.samples@[i as int],
            ));
            i = i + 1;
        }
        assert(samples@ =~= self.samples@);
        ShotRecord {
            id: self.id,
            started_at_epoch_ms: self.started_at_epoch_ms,
            ended_at_epoch_ms: self.ended_at_epoch_ms,
            duration_ms: self.duration_ms,
            manual: self.manual,
            peak_pressure_bar: self.peak_pressure_bar,
            avg_pressure_bar: self.avg_pressure_bar,
            avg_temperature_c: self.avg_temperature_c,
            yield_g: self.yield_g,
            samples,
        }
    }
}

/// A reading of machine and scale, with its place in the series of samples.
#[derive(Debug, Clone, Copy, PartialEq, Eq, Structural)]
pub struct LiveTelemetryPoint {
    pub sample_index: u64,
    pub temperature_c: Binary32,
    pub pressure_bar: Binary32,
    pub scale_connected: bool,
    pub weight_g: Binary32,
    pub flow_gps: Binary32,
}

/// A shot in progress.
#[derive(Debug)]
pub struct ActiveShot {
    pub started_at_epoch_ms: u64,
    pub started_sample_index: u64,
    pub initial_weight_g: Binary32,
    pub manual: bool,
    pub peak_pressure_bar: Binary32,
    pub pressure_sum: Binary64,
    pub temperature_sum: Binary64,
    pub sample_count: u32,
    pub samples: Vec<ShotSample>,
}

/// What a shot in progress holds.
#[verifier::ext_equal]
pub struct ActiveShotView {
    pub started_at_epoch_ms: u64,
    pub started_sample_index: u64,
    pub initial_weight_g: Binary32,
    pub manual: bool,
    pub peak_pressure_bar: Binary32,
    pub pressure_sum: Binary64,
    pub temperature_sum: Binary64,
    pub sample_count: u32,
    pub samples: Seq<ShotSample>,
}

impl View for ActiveShot {
    type V = ActiveShotView;

    open spec fn view(&self) -> ActiveShotView {
        ActiveShotView {
            started_at_epoch_ms: self.started_at_epoch_ms,
            started_sample_index: self.started_sample_index,
            initial_weight_g: self.initial_weight_g,
            manual: self.manual,
            peak_pressure_bar: self.peak_pressure_bar,
            pressure_sum: self.pressure_sum,
            temperature_sum: self.temperature_sum,
            sample_count: self.sample_count,
            samples: self.samples@,
        }
    }
}

/// The time from one place in the series to another, as far as a `u32` can tell.
pub open spec fn elapsed_ms(from: u64, to: u64) -> u32 {
    let ms = if to >= from {
        (to - from) * BREW_SAMPLE_INTERVAL_MS
    } else {
        0
    };
    if ms > u32::MAX {
        u32::MAX
    } else {
        ms as u32
    }
}

/// The pressure that a reading adds: a finite number, not below zero.
pub open spec fn sample_pressure(telemetry: LiveTelemetryPoint) -> Binary32 {
    telemetry.pressure_bar.or_zero().larger(binary32::zero())
}

/// The gain of weight, a finite number and not below zero.
pub open spec fn gain(weight_g: Binary32, initial_weight_g: Binary32) -> Binary32 {
    telemetry_math::clean_weight(
        weight_g.difference(initial_weight_g).larger(binary32::zero()),
    )
}

impl ActiveShotView {
    /// The sample that a reading gives.
    pub open spec fn sample_of(self, telemetry: LiveTelemetryPoint) -> ShotSample {
        ShotSample {
            elapsed_ms: elapsed_ms(self.started_sample_index, telemetry.sample_index),
            temperature_c: telemetry.temperature_c.or_zero(),
            pressure_bar: sample_pressure(telemetry),
            flow_gps: if telemetry.scale_connected {
                telemetry.flow_gps.or_zero()
            } else {
                binary32::zero()
            },
            weight_g: if telemetry.scale_connected {
                gain(telemetry.weight_g, self.initial_weight_g)
            } else {
                binary32::zero()
            },
        }
    }

    /// The shot after one more reading.
    pub open spec fn with_sample(self, telemetry: LiveTelemetryPoint) -> ActiveShotView {
        ActiveShotView {
            peak_pressure_bar: self.peak_pressure_bar.larger(sample_pressure(telemetry)),
            pressure_sum: self.pressure_sum.sum(binary64::widened(sample_pressure(telemetry))),
            temperature_sum: self.temperature_sum.sum(
                binary64::widened(telemetry.temperature_c.or_zero()),
            ),
            sample_count: if self.sample_count == u32::MAX {
                u32::MAX
            } else {
                (self.sample_count + 1) as u32
            },
            samples: self.samples.push(self.sample_of(telemetry)),
            ..self
        }
    }

    /// The shot with a last sample at the time it was stopped.
    pub open spec fn with_last_sample(self, telemetry: LiveTelemetryPoint) -> ActiveShotView {
        if self.samples.len() > 0 && self.samples.last().elapsed_ms == elapsed_ms(
            self.started_sample_index,
            telemetry.sample_index,
        ) {
            self
        } else {
            self.with_sample(telemetry)
        }
    }

    /// The completed shot.
    pub open spec fn completed(
        self,
        id: u64,
        ended_at_epoch_ms: u64,
        telemetry: LiveTelemetryPoint,
    ) -> ShotRecordView {
        let shot = self.with_last_sample(telemetry);
        let count = binary64::of_count(
            if shot.sample_count == 0 {
                1
            } else {
                shot.sample_count as nat
            },
        );
        let final_weight_g = if telemetry.scale_connected {
            telemetry.weight_g
        } else {
            shot.initial_weight_g
        };
        ShotRecordView {
            id,
            started_at_epoch_ms: shot.started_at_epoch_ms,
            ended_at_epoch_ms,
            duration_ms: elapsed_ms(self.started_sample_index, telemetry.sample_index),
            manual: shot.manual,
            peak_pressure_bar: shot.peak_pressure_bar,
            avg_pressure_bar: shot.pressure_sum.quotient(count).narrowed().or_zero(),
            avg_temperature_c: shot.temperature_sum.quotient(count).narrowed().or_zero(),
            yield_g: gain(final_weight_g, shot.initial_weight_g),
            samples: shot.samples,
        }
    }
}

/// A shot that starts with a reading.
pub open spec fn shot_started(
    started_at_epoch_ms: u64,
    telemetry: LiveTelemetryPoint,
) -> ActiveShotView {
    ActiveShotView {
        started_at_epoch_ms,
        started_sample_index: telemetry.sample_index,
        initial_weight_g: if telemetry.scale_connected {
            telemetry.weight_g
        } else {
            binary32::zero()
        },
        manual: true,
        peak_pressure_bar: sample_pressure(telemetry),
        pressure_sum: binary64::zero(),
        temperature_sum: binary64::zero(),
        sample_count: 0,
        samples: seq![],
    }.with_sample(telemetry)
}

impl ActiveShot {
    fn elapsed_ms_for(&self, sample_index: u64) -> (r: u32)
        ensures
            r == elapsed_ms(self.started_sample_index, sample_index),
    {
        if sample_index < self.started_sample_index {
            return 0;
        }
        let samples: u128 = (sample_index - self.started_sample_index) as u128;
        assert(samples * BREW_SAMPLE_INTERVAL_MS <= u64::MAX * 50) by (nonlinear_arith)
            requires
                samples <= u64::MAX,
                BREW_SAMPLE_INTERVAL_MS == 50,
        ;
        let ms: u128 = samples * BREW_SAMPLE_INTERVAL_MS as u128;
        if ms > u32::MAX as u128 {
            u32::MAX
        } else {
            ms as u32
        }
    }

    fn push_sample(&mut self, telemetry: LiveTelemetryPoint)
        ensures
            final(self)@ == old(self)@.with_sample(telemetry),
    {
        let temperature_c = telemetry.temperature_c.finite_or_zero();
        let pressure_bar = telemetry.pressure_bar.finite_or_zero().max(Binary32::from_bits(0));
        let flow_gps = if telemetry.scale_connected {
            telemetry.flow_gps.finite_or_zero()
        } else {
            Binary32::from_bits(0)
        };
        let weight_g = if telemetry.scale_connected {
            telemetry_math::sanitize_weight_g(
                telemetry.weight_g.minus(self.initial_weight_g).max(Binary32::from_bits(0)),
            )
        } else {
            Binary32::from_bits(0)
        };
        let elapsed_ms: u32 = self.elapsed_ms_for(telemetry.sample_index);
        self.samples.push(
            ShotSample { elapsed_ms, temperature_c, pressure_bar, flow_gps, weight_g },
        );
        self.sample_count = if self.sample_count == u32::MAX {
            u32::MAX
        } else {
            self.sample_count + 1
        };
        self.peak_pressure_bar = self.peak_pressure_bar.max(pressure_bar);
        self.pressure_sum = self.pressure_sum.plus(Binary64::widen(pressure_bar));
        self.temperature_sum = self.temperature_sum.plus(Binary64::widen(temperature_c));
    }
}

/// The completed shots, newest first.
pub open spec fn records(completed: Seq<ShotRecord>) -> Seq<ShotRecordView> {
    completed.map_values(|r: ShotRecord| r@)
}

/// The shot in progress and the completed shots.
#[derive(Debug)]
pub struct ShotHistory {
    active: Option<ActiveShot>,
    completed: VecDeque<ShotRecord>,
    next_id: u64,
}

/// What a history holds.
#[verifier::ext_equal]
pub struct ShotHistoryView {
    pub active: Option<ActiveShotView>,
    pub completed: Seq<ShotRecordView>,
    pub next_id: u64,
}

impl View for ShotHistory {
    type V = ShotHistoryView;

    closed spec fn view(&self) -> ShotHistoryView {
        ShotHistoryView {
            active: match self.active {
                Some(shot) => Some(shot@),
                None => None,
            },
            completed: records(self.completed@),
            next_id: self.next_id,
        }
    }
}

impl ShotHistoryView {
    /// The history after the shot in progress was stopped.
    pub open spec fn with_completed(self, record: ShotRecordView) -> ShotHistoryView {
        let all = seq![record] + self.completed;
        ShotHistoryView {
            active: None,
            completed: if all.len() > HISTORY_CAPACITY {
                all.take(HISTORY_CAPACITY as int)
            } else {
                all
            },
            next_id: if self.next_id == u64::MAX {
                0
            } else {
                (self.next_id + 1) as u64
            },
        }
    }

    /// The history with nothing in it.
    pub open spec fn empty() -> ShotHistoryView {
        ShotHistoryView { active: None, completed: seq![], next_id: 1 }
    }
}

impl Default for ShotHistory {
    fn default() -> (r: Self)
        ensures
            r.wf(),
            r@ == ShotHistoryView::empty(),
    {
        Self::new()
    }
}

impl ShotHistory {
    /// What holds of every history: at most 24 completed shots are kept.
    pub open spec fn wf(&self) -> bool {
        self@.completed.len() <= HISTORY_CAPACITY
    }

    /// A history with nothing in it.
    pub fn new() -> (r: Self)
        ensures
            r.wf(),
            r@ == ShotHistoryView::empty(),
    {
        let r = ShotHistory { active: None, completed: VecDeque::new(), next_id: 1 };
        assert(r@.completed =~= seq![]);
        r
    }

    /// Starts a shot. There can be one at a time.
    pub fn start_manual_shot(
        &mut self,
        started_at_epoch_ms: u64,
        telemetry: LiveTelemetryPoint,
    ) -> (r: Result<(), &'static str>)
        requires
            old(self).wf(),
        ensures
            final(self).wf(),
            match r {
                Ok(()) => old(self)@.active is None && final(self)@ == (ShotHistoryView {
                    active: Some(shot_started(started_at_epoch_ms, telemetry)),
                    ..old(self)@
                }),
                Err(message) => old(self)@.active is Some && final(self)@ == old(self)@ && message@
                    == "Shot already in progress."@,
            },
    {
        if self.active.is_some() {
            return Err("Shot already in progress.");
        }
        let initial_weight_g = if telemetry.scale_connected {
            telemetry.weight_g
        } else {
            Binary32::from_bits(0)
        };
        let zero = Binary64 { sign_and_magnitude: Signed { negative: false, mag: 0 } };
        let mut active = ActiveShot {
            started_at_epoch_ms,
            started_sample_index: telemetry.sample_index,
            initial_weight_g,
            manual: true,
            peak_pressure_bar: telemetry.pressure_bar.finite_or_zero().max(Binary32::from_bits(0)),
            pressure_sum: zero,
            temperature_sum: zero,
            sample_count: 0,
            samples: Vec::new(),
        };
        active.push_sample(telemetry);
        self.active = Some(active);
        Ok(())
    }

    /// Adds a sample to the shot in progress, if there is one.
    pub fn on_brew_sample(&mut self, telemetry: LiveTelemetryPoint)
        requires
            old(self).wf(),
        ensures
            final(self).wf(),
            final(self)@ == (ShotHistoryView {
                active: match old(self)@.active {
                    Some(shot) => Some(shot.with_sample(telemetry)),
                    None => None,
                },
                ..old(self)@
            }),
    {
        let mut active = None;
        std::mem::swap(&mut active, &mut self.active);
        match active {
            Some(shot) => {
                let mut shot = shot;
                shot.push_sample(telemetry);
                self.active = Some(shot);
            },
            None => {},
        }
    }

    /// Stops the shot in progress and gives it.
    pub fn stop_manual_shot(
        &mut self,
        ended_at_epoch_ms: u64,
        telemetry: LiveTelemetryPoint,
    ) -> (r: Result<ShotRecord, &'static str>)
        requires
            old(self).wf(),
        ensures
            final(self).wf(),
            match r {
                Ok(record) => {
                    let before = old(self)@;
                    &&& before.active is Some
                    &&& record@ == (before.active->0).completed(
                        before.next_id,
                        ended_at_epoch_ms,
                        telemetry,
                    )
                    &&& final(self)@ == before.with_completed(record@)
                },
                Err(message) => old(self)@.active is None && final(self)@ == old(self)@ && message@
                    == "No active shot."@,
            },
    {
        let mut active = None;
        std::mem::swap(&mut active, &mut self.active);
        match active {
            None => Err("No active shot."),
            Some(shot) => {
                let mut active = shot;
                let elapsed_ms: u32 = active.elapsed_ms_for(telemetry.sample_index);
                let n: usize = active.samples.len();
                if n == 0 || active.samples[n - 1].elapsed_ms != elapsed_ms {
                    active.push_sample(telemetry);
                }
                let count = Binary64::from_count(
                    if active.sample_count == 0 {
                        1
                    } else {
                        active.sample_count
                    },
                );
                let avg_pressure_bar = active.pressure_sum.divided_by(count).narrow();
                let avg_temperature_c = active.temperature_sum.divided_by(count).narrow();
                let final_weight_g = if telemetry.scale_connected {
                    telemetry.weight_g
                } else {
                    active.initial_weight_g
                };
                let yield_g = telemetry_math::sanitize_weight_g(
                    final_weight_g.minus(active.initial_weight_g).max(Binary32::from_bits(0)),
                );
                let record = ShotRecord {
                    id: self.next_id,
                    started_at_epoch_ms: active.started_at_epoch_ms,
                    ended_at_epoch_ms,
                    duration_ms: elapsed_ms,
                    manual: active.manual,
                    peak_pressure_bar: active.peak_pressure_bar,
                    avg_pressure_bar: avg_pressure_bar.finite_or_zero(),
                    avg_temperature_c: avg_temperature_c.finite_or_zero(),
                    yield_g,
                    samples: active.samples,
                };
                self.next_id = if self.next_id == u64::MAX {
                    0
                } else {
                    self.next_id + 1
                };
                self.completed.push_front(record.clone());
                if self.completed.len() > HISTORY_CAPACITY {
                    self.completed.truncate(HISTORY_CAPACITY);
                }
                assert(self@.completed =~= old(self)@.with_completed(record@).completed);
                Ok(record)
            },
        }
    }

    /// Whether a shot is in progress.
    pub fn active(&self) -> (r: bool)
        ensures
            r == (self@.active is Some),
    {
        self.active.is_some()
    }

    /// The completed shots, newest first.
    pub fn completed_shots(&self) -> (r: Vec<ShotRecord>)
        ensures
            records(r@) == self@.completed,
    {
        let mut out: Vec<ShotRecord> = Vec::new();
        let mut i: usize = 0;
        while i < self.completed.len()
            invariant
                i <= self.completed.len(),
                records(out@) == records(self.completed@).take(i as int),
            decreases self.completed.len() - i,
        {
            let record = self.completed[i].clone();
            let ghost before = out@;
            out.push(record);
            assert(records(out@) =~= records(before).push(record@));
            assert(records(self.completed@).take(i + 1) =~= records(self.completed@).take(
                i as int,
            ).push(record@));
            i = i + 1;
        }
        assert(records(self.completed@).take(i as int) =~= records(self.completed@));
        out
    }
}

/// The first sample of a shot is at its start.
pub proof fn lemma_first_sample_at_start(started_at_epoch_ms: u64, telemetry: LiveTelemetryPoint)
    ensures
        shot_started(started_at_epoch_ms, telemetry).samples.len() == 1,
        shot_started(started_at_epoch_ms, telemetry).samples[0].elapsed_ms == 0,
{
}

/// The last sample of a completed shot is at its end, and its duration goes by the series of
/// samples alone, whatever the wall clock says.
pub proof fn lemma_last_sample_at_end(
    shot: ActiveShotView,
    id: u64,
    ended_at_epoch_ms: u64,
    telemetry: LiveTelemetryPoint,
)
    ensures
        ({
            let record = shot.completed(id, ended_at_epoch_ms, telemetry);
            &&& record.samples.len() > 0
            &&& record.samples.last().elapsed_ms == record.duration_ms
            &&& record.duration_ms == elapsed_ms(shot.started_sample_index, telemetry.sample_index)
        }),
{
}

/// Whether the peak pressure is a finite number and no sample's pressure is above it.
pub open spec fn peak_is_highest(shot: ActiveShotView) -> bool {
    &&& shot.peak_pressure_bar.finite()
    &&& forall|i: int|
        0 <= i < shot.samples.len() ==> (#[trigger] shot.samples[i]).pressure_bar.at_most(
            shot.peak_pressure_bar,
        )
}

/// The peak pressure is the highest pressure of a shot from its start on, and every sample keeps
/// it so.
pub proof fn lemma_peak_is_highest(
    started_at_epoch_ms: u64,
    first: LiveTelemetryPoint,
    shot: ActiveShotView,
    next: LiveTelemetryPoint,
)
    requires
        peak_is_highest(shot),
    ensures
        peak_is_highest(shot_started(started_at_epoch_ms, first)),
        peak_is_highest(shot.with_sample(next)),
{
    let after = shot.with_sample(next);
    assert forall|i: int| 0 <= i < after.samples.len() implies (
    #[trigger] after.samples[i]).pressure_bar.at_most(after.peak_pressure_bar) by {
        if i < shot.samples.len() {
            assert(after.samples[i] == shot.samples[i]);
        }
    }
}

} // verus!
