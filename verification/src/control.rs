//! Decisions of the long-running loops: adaptive bitrate from receiver
//! telemetry, capture-pipeline recovery, keyframes after a static screen,
//! and receiver idling after RTP silence.
use vstd::prelude::*;

verus! {

// ---------------------------------------------------------------------------
// Adaptive bitrate
// ---------------------------------------------------------------------------

/// Tunables for the adaptive controller.
pub struct ThrottleConfig {
    pub receiver_host: String,
    pub telemetry_port: u16,
    pub interval_ms: u32,
    pub max_bitrate_kbps: u32,
    pub min_bitrate_kbps: u32,
}

/// State of the bitrate controller. `target` persists across reconnects; the
/// drop counter baseline is per telemetry stream.
pub struct Throttle {
    pub target: u32,
    pub last_drops: u64,
    pub have_drops: bool,
}

/// Largest bitrate the controller's arithmetic handles (`target * 85` fits).
pub open spec fn bitrate_fits(kbps: int) -> bool {
    kbps * 85 <= u32::MAX
}

/// Target after backing off: 85 %, never under the floor.
pub open spec fn backed_off(target: u32, min: u32) -> u32 {
    let t = (target * 85 / 100) as u32;
    if t < min { min } else { t }
}

/// Target after recovering: +10 %, never over the ceiling.
pub open spec fn recovered(target: u32, max: u32) -> u32 {
    let t = (target + target / 10) as u32;
    if t < max { t } else { max }
}

/// Target after one sample of an active receiver (`saturated`: decode load
/// over 90 % of a core; `headroom`: under 70 %).
pub open spec fn next_target(target: u32, drop_delta: u64, saturated: bool, headroom: bool, min: u32, max: u32) -> u32 {
    if saturated || drop_delta > 0 {
        backed_off(target, min)
    } else if headroom {
        recovered(target, max)
    } else {
        target
    }
}

/// Law: one sample of an active receiver moves the target this way, over
/// all inputs: saturation or fresh loss (`drop_delta > 0`) backs off to 85 %
/// but not under the floor, even with headroom; otherwise headroom recovers
/// 10 % but not over the ceiling; otherwise nothing changes. A back-off never
/// raises a target that is at or above the floor, and a recovery never lowers
/// one that is at or under the ceiling.
pub proof fn lemma_throttle_direction(target: u32, drop_delta: u64, saturated: bool, headroom: bool, min: u32, max: u32)
    requires
        bitrate_fits(target as int),
    ensures
        saturated || drop_delta > 0 ==> next_target(target, drop_delta, saturated, headroom, min, max) as int == if target
            * 85 / 100 < min {
            min as int
        } else {
            target * 85 / 100
        },
        (saturated || drop_delta > 0) && min <= target ==> next_target(target, drop_delta, saturated, headroom, min, max)
            <= target,
        !saturated && drop_delta == 0 && headroom ==> next_target(target, drop_delta, saturated, headroom, min, max) as int
            == if target + target / 10 < max {
            target + target / 10
        } else {
            max as int
        },
        !saturated && drop_delta == 0 && headroom && target <= max ==> target <= next_target(
            target,
            drop_delta,
            saturated,
            headroom,
            min,
            max,
        ),
        !saturated && drop_delta == 0 && !headroom ==> next_target(target, drop_delta, saturated, headroom, min, max)
            == target,
{
}

impl Throttle {
    /// A controller that starts at the configured ceiling.
    pub fn new(max_bitrate_kbps: u32) -> (r: Throttle)
        ensures
            r.target == max_bitrate_kbps,
            r.last_drops == 0,
            !r.have_drops,
    {
        Throttle { target: max_bitrate_kbps, last_drops: 0, have_drops: false }
    }

    /// A new telemetry stream: there is no drop baseline yet.
    pub fn start_stream(&mut self)
        ensures
            final(self).target == old(self).target,
            final(self).last_drops == 0,
            !final(self).have_drops,
    {
        self.last_drops = 0;
        self.have_drops = false;
    }

    /// Take one telemetry sample. Only an actively decoding receiver steers
    /// the bitrate: back off hard on saturation or fresh packet loss, recover
    /// gently with clear headroom. Returns the new target when it changed.
    pub fn on_sample(
        &mut self,
        active: bool,
        rcvbuf_drops: u64,
        saturated: bool,
        headroom: bool,
        min_bitrate_kbps: u32,
        max_bitrate_kbps: u32,
    ) -> (r: Option<u32>)
        requires
            bitrate_fits(old(self).target as int),
            bitrate_fits(min_bitrate_kbps as int),
            bitrate_fits(max_bitrate_kbps as int),
        ensures
            !active ==> final(self).target == old(self).target && final(self).last_drops == old(self).last_drops
                && final(self).have_drops == old(self).have_drops,
            active ==> {
                let delta: u64 = if old(self).have_drops {
                    if rcvbuf_drops >= old(self).last_drops {
                        (rcvbuf_drops - old(self).last_drops) as u64
                    } else {
                        0
                    }
                } else {
                    0
                };
                &&& final(self).target == next_target(old(self).target, delta, saturated, headroom, min_bitrate_kbps, max_bitrate_kbps)
                &&& final(self).last_drops == rcvbuf_drops
                &&& final(self).have_drops
            },
            r == if final(self).target != old(self).target {
                Some(final(self).target)
            } else {
                None
            },
            // The ceiling and the floor hold once they hold.
            min_bitrate_kbps <= max_bitrate_kbps && min_bitrate_kbps <= old(self).target <= max_bitrate_kbps ==>
                min_bitrate_kbps <= final(self).target <= max_bitrate_kbps,
            bitrate_fits(final(self).target as int),
            // Saturation or fresh packet loss backs off to 85 % (never under
            // the floor), whatever the headroom.
            active && (saturated || (old(self).have_drops && rcvbuf_drops > old(self).last_drops)) ==> final(self).target as int == if old(self).target * 85 / 100 < min_bitrate_kbps {
                min_bitrate_kbps as int
            } else {
                old(self).target * 85 / 100
            },
            // Otherwise clear headroom recovers by 10 % (never over the ceiling).
            active && !saturated && !(old(self).have_drops && rcvbuf_drops > old(self).last_drops) && headroom
                ==> final(self).target as int == if old(self).target + old(self).target / 10 < max_bitrate_kbps {
                old(self).target + old(self).target / 10
            } else {
                max_bitrate_kbps as int
            },
            // Neither: the target stays.
            active && !saturated && !(old(self).have_drops && rcvbuf_drops > old(self).last_drops) && !headroom
                ==> final(self).target == old(self).target,
    {
        if !active {
            return None;
        }
        let drop_delta = if self.have_drops {
            rcvbuf_drops.saturating_sub(self.last_drops)
        } else {
            0
        };
        self.last_drops = rcvbuf_drops;
        self.have_drops = true;
        let prev = self.target;
        if saturated || drop_delta > 0 {
            let t = self.target * 85 / 100;
            self.target = if t < min_bitrate_kbps { min_bitrate_kbps } else { t };
        } else if headroom {
            let t = self.target + self.target / 10;
            self.target = if t < max_bitrate_kbps { t } else { max_bitrate_kbps };
        }
        if self.target != prev {
            Some(self.target)
        } else {
            None
        }
    }
}

// ---------------------------------------------------------------------------
// Capture recovery
// ---------------------------------------------------------------------------

/// What to do after a capture failure.
#[derive(Debug, Clone, Copy, PartialEq, Eq, Structural)]
pub enum RecoveryAction {
    /// Wait this long, then rebuild the pipeline.
    RetryAfterMs(u64),
    /// Failing immediately and repeatedly: stop.
    GiveUp,
}

/// Counts capture failures that came right after a (re)start. The portal
/// session outlives the pipeline, so transient failures are retried; a dead
/// source fails immediately and repeatedly, and then the sender gives up.
pub struct Recovery {
    pub fast_failures: u32,
}

/// Failures tolerated before giving up.
pub open spec fn max_fast_failures() -> u32 {
    5
}

impl Recovery {
    /// Still retrying.
    pub open spec fn wf(&self) -> bool {
        self.fast_failures <= max_fast_failures()
    }

    pub fn new() -> (r: Recovery)
        ensures
            r.fast_failures == 0,
            r.wf(),
    {
        Recovery { fast_failures: 0 }
    }

    /// The pipeline could not even be built.
    pub fn on_build_failure(&mut self) -> (r: RecoveryAction)
        requires
            old(self).fast_failures < u32::MAX,
        ensures
            final(self).fast_failures == old(self).fast_failures + 1,
            r == if final(self).fast_failures > max_fast_failures() {
                RecoveryAction::GiveUp
            } else {
                RecoveryAction::RetryAfterMs(500)
            },
            final(self).wf() <==> r != RecoveryAction::GiveUp,
    {
        self.fast_failures += 1;
        if self.fast_failures > 5 {
            RecoveryAction::GiveUp
        } else {
            RecoveryAction::RetryAfterMs(500)
        }
    }

    /// The running pipeline died after `ran_for_ms` milliseconds. A run of two
    /// seconds or more counts as a fresh transient and resets the count.
    pub fn on_run_failure(&mut self, ran_for_ms: u64) -> (r: RecoveryAction)
        requires
            ran_for_ms < 2000 ==> old(self).fast_failures < u32::MAX,
        ensures
            final(self).fast_failures == if ran_for_ms < 2000 {
                old(self).fast_failures + 1
            } else {
                0
            },
            r == if final(self).fast_failures > max_fast_failures() {
                RecoveryAction::GiveUp
            } else {
                RecoveryAction::RetryAfterMs(300)
            },
            final(self).wf() <==> r != RecoveryAction::GiveUp,
    {
        if ran_for_ms < 2000 {
            self.fast_failures += 1;
        } else {
            self.fast_failures = 0;
        }
        if self.fast_failures > 5 {
            RecoveryAction::GiveUp
        } else {
            RecoveryAction::RetryAfterMs(300)
        }
    }
}

// ---------------------------------------------------------------------------
// Keyframe on resume, receiver silence, telemetry cadence
// ---------------------------------------------------------------------------

/// A frame arriving more than `gap_ms` after the previous one (the screen was
/// static and just changed) asks the encoder for an immediate IDR, so the
/// first frame after the pause is decodable. `prev_ns == 0`: no earlier frame.
pub fn force_keyframe_on_resume(prev_ns: i64, now_ns: i64, gap_ms: u32) -> (r: bool)
    requires
        i64::MIN <= now_ns - prev_ns <= i64::MAX,
    ensures
        r == (prev_ns != 0 && now_ns - prev_ns > gap_ms * 1_000_000),
{
    let gap_ns = (gap_ms as i64) * 1_000_000;
    prev_ns != 0 && now_ns - prev_ns > gap_ns
}

/// Silence on the receiver is timed from the later of the activation
/// (`activated_ns`) and the newest RTP packet (`last_packet_ns`, 0 before the
/// first), both in ns since the epoch.
pub open spec fn silence_start(activated_ns: u128, last_packet_ns: i64) -> int {
    if last_packet_ns > activated_ns {
        last_packet_ns as int
    } else {
        activated_ns as int
    }
}

/// No RTP packet for more than the idle timeout, counted from the later of
/// activation and the newest packet.
pub open spec fn silence_expired_spec(activated_ns: u128, last_packet_ns: i64, now_ns: u128, idle_timeout_s: u32) -> bool {
    now_ns >= silence_start(activated_ns, last_packet_ns) && now_ns - silence_start(activated_ns, last_packet_ns)
        > idle_timeout_s * 1_000_000_000
}

/// The receiver deactivates once it has had no RTP packet for more than
/// `idle_timeout_s` since activation or since the newest packet, whichever
/// came later. A clock that reads earlier than that moment never expires it.
pub fn silence_expired(activated_ns: u128, last_packet_ns: i64, now_ns: u128, idle_timeout_s: u32) -> (r: bool)
    ensures
        r == silence_expired_spec(activated_ns, last_packet_ns, now_ns, idle_timeout_s),
{
    let start: u128 = if last_packet_ns > 0 && last_packet_ns as u128 > activated_ns {
        last_packet_ns as u128
    } else {
        activated_ns
    };
    if now_ns < start {
        return false;
    }
    let timeout = (idle_timeout_s as u128) * 1_000_000_000;
    now_ns - start > timeout
}

/// Sample interval a telemetry subscriber gets: 0 asks for the default
/// 250 ms, anything else is clamped to 50..=2000 ms.
pub fn subscribe_interval_ms(requested: u32) -> (r: u64)
    ensures
        r == if requested == 0 {
            250
        } else if requested < 50 {
            50
        } else if requested > 2000 {
            2000
        } else {
            requested as int
        },
{
    if requested == 0 {
        250
    } else if requested < 50 {
        50
    } else if requested > 2000 {
        2000
    } else {
        requested as u64
    }
}

// ---------------------------------------------------------------------------
// Pipeline bus loops
// ---------------------------------------------------------------------------

/// What one poll of the pipeline bus delivered (warnings and other messages
/// are only logged, so they count as `Other`).
#[derive(Debug, Clone, Copy, PartialEq, Eq, Structural)]
pub enum BusEvent {
    /// Nothing arrived before the poll timed out.
    Nothing,
    EndOfStream,
    Error,
    Other,
}

/// Outcome of one turn of a loop that runs a pipeline until it ends.
#[derive(Debug, Clone, Copy, PartialEq, Eq, Structural)]
pub enum RunStep {
    /// Keep polling.
    Continue,
    /// Stop was requested or the stream ended: a clean finish.
    Finished,
    /// The pipeline reported an error.
    Failed,
}

/// One turn of the sender's run loop: a stop request or end of stream
/// finishes cleanly, a pipeline error fails, anything else keeps going.
pub fn run_step(stop: bool, bus: BusEvent) -> (r: RunStep)
    ensures
        r == if stop {
            RunStep::Finished
        } else {
            match bus {
                BusEvent::EndOfStream => RunStep::Finished,
                BusEvent::Error => RunStep::Failed,
                _ => RunStep::Continue,
            }
        },
{
    if stop {
        return RunStep::Finished;
    }
    match bus {
        BusEvent::EndOfStream => RunStep::Finished,
        BusEvent::Error => RunStep::Failed,
        _ => RunStep::Continue,
    }
}

/// Outcome of one turn of the receiver's active (decoding) loop.
#[derive(Debug, Clone, Copy, PartialEq, Eq, Structural)]
pub enum ActiveStep {
    /// Keep decoding.
    Continue,
    /// Keep decoding; log that the stream is alive.
    Heartbeat,
    /// Shutdown requested.
    Stop,
    EndOfStream,
    PipelineError,
    /// No RTP packet for longer than the idle timeout: release the display.
    Silent,
}

/// Nanoseconds between "alive" log lines while a stream is decoding.
pub open spec fn heartbeat_ns() -> u128 {
    30_000_000_000
}

/// The receiver's active loop: deactivates on stop, end of stream, pipeline
/// error or RTP silence (timed from activation until the first packet), and
/// logs a heartbeat every 30 s while packets flow.
pub struct ActiveSession {
    /// When the session was activated (ns since the epoch).
    pub activated_ns: u128,
    /// When the last heartbeat was logged (ns since the epoch).
    pub last_heartbeat_ns: u128,
}

impl ActiveSession {
    /// A session activated at `now_ns`.
    pub fn new(now_ns: u128) -> (r: ActiveSession)
        ensures
            r.activated_ns == now_ns,
            r.last_heartbeat_ns == now_ns,
    {
        ActiveSession { activated_ns: now_ns, last_heartbeat_ns: now_ns }
    }

    /// One turn: `last_packet_ns` is when the newest RTP packet arrived (0
    /// before the first), `now_ns` the current time. Silence counts from the
    /// later of activation and the newest packet; heartbeats are only logged
    /// once packets flow and the clock reads no earlier than the newest one.
    pub fn step(&mut self, stop: bool, bus: BusEvent, last_packet_ns: i64, now_ns: u128, idle_timeout_s: u32) -> (r:
        ActiveStep)
        ensures
            r == if stop {
                ActiveStep::Stop
            } else if bus == BusEvent::EndOfStream {
                ActiveStep::EndOfStream
            } else if bus == BusEvent::Error {
                ActiveStep::PipelineError
            } else if silence_expired_spec(old(self).activated_ns, last_packet_ns, now_ns, idle_timeout_s) {
                ActiveStep::Silent
            } else if last_packet_ns > 0 && now_ns >= last_packet_ns && now_ns >= old(self).last_heartbeat_ns
                && now_ns - old(self).last_heartbeat_ns > heartbeat_ns() {
                ActiveStep::Heartbeat
            } else {
                ActiveStep::Continue
            },
            final(self).activated_ns == old(self).activated_ns,
            final(self).last_heartbeat_ns == if r == ActiveStep::Heartbeat {
                now_ns
            } else {
                old(self).last_heartbeat_ns
            },
    {
        if stop {
            return ActiveStep::Stop;
        }
        match bus {
            BusEvent::EndOfStream => return ActiveStep::EndOfStream,
            BusEvent::Error => return ActiveStep::PipelineError,
            _ => {},
        }
        if silence_expired(self.activated_ns, last_packet_ns, now_ns, idle_timeout_s) {
            return ActiveStep::Silent;
        }
        if last_packet_ns > 0 && now_ns >= last_packet_ns as u128 && now_ns >= self.last_heartbeat_ns
            && now_ns - self.last_heartbeat_ns > 30_000_000_000 {
            self.last_heartbeat_ns = now_ns;
            return ActiveStep::Heartbeat;
        }
        ActiveStep::Continue
    }
}

/// Law: a receiver that gets no RTP packet after activation counts as silent
/// once the idle timeout has passed since activation, so its active loop
/// (barring stop, end of stream or error first) releases the display.
pub proof fn lemma_silent_without_packets(activated_ns: u128, now_ns: u128, idle_timeout_s: u32)
    requires
        now_ns > activated_ns + idle_timeout_s * 1_000_000_000,
    ensures
        silence_expired_spec(activated_ns, 0, now_ns, idle_timeout_s),
{
}

} // verus!
