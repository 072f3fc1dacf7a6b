use vstd::prelude::*;
use crate::scheduler::{block_spec, on_tick_spec, yield_spec, Reschedule, Scheduler, SchedulerView, Switch};
use crate::task::{TaskId, TaskWaitKind};
use crate::reliability::{check_all_task_stacks, overflowed, used_words, TraceKind};

verus! {

/// Core clock of the lm3s6965evb board as QEMU models it.
pub const CPU_HZ: u32 = 8_000_000;

/// Kernel tick rate.
pub const TICK_HZ: u32 = 1_000;

/// SysTick reload value for one kernel tick.
pub const SYSTICK_RELOAD: u32 = (CPU_HZ / TICK_HZ) - 1;

/// Largest value the 24-bit SysTick reload register holds.
pub const SYSTICK_MAX_RELOAD: u32 = 0x00FF_FFFF;

/// Most kernel ticks one SysTick period can span.
pub const MAX_SUPPRESSED_TICKS: u32 = (SYSTICK_MAX_RELOAD + 1) / (SYSTICK_RELOAD + 1);

/// Half the tick range: a deadline counts as reached while no more than this
/// many ticks (less one) have passed since it.
pub const HALF_TICK_RANGE: u32 = 2_147_483_647;

proof fn lemma_tick_constants()
    ensures
        SYSTICK_RELOAD == 7999,
        MAX_SUPPRESSED_TICKS == 2097,
{
    assert(SYSTICK_RELOAD + 1 == 8000);
}

/// `x * y`, or `u32::MAX` where the product does not fit.
pub open spec fn saturating_mul_spec(x: int, y: int) -> int {
    if x * y > u32::MAX {
        u32::MAX as int
    } else {
        x * y
    }
}

/// `x / y` rounded up.
pub open spec fn div_ceil_spec(x: int, y: int) -> int {
    if x % y == 0 {
        x / y
    } else {
        x / y + 1
    }
}

/// Ticks in `ms` milliseconds, rounded up, with the product saturating.
pub open spec fn ms_to_ticks_spec(ms: u32) -> int {
    div_ceil_spec(saturating_mul_spec(ms as int, TICK_HZ as int), 1000)
}

/// Whole milliseconds in `ticks` ticks, with the product saturating.
pub open spec fn ticks_to_ms_spec(ticks: u32) -> int {
    saturating_mul_spec(ticks as int, 1000) / (TICK_HZ as int)
}

/// `now - then` modulo 2^32.
pub open spec fn ticks_since(now: u32, then: u32) -> u32 {
    vstd::wrapping::u32_specs::wrapping_sub(now, then)
}

/// `now + ticks` modulo 2^32.
pub open spec fn ticks_after(now: u32, ticks: u32) -> u32 {
    vstd::wrapping::u32_specs::wrapping_add(now, ticks)
}

/// A deadline at tick `tick` has been reached at tick `now`.
pub open spec fn reached_at(tick: u32, now: u32) -> bool {
    ticks_since(now, tick) < HALF_TICK_RANGE
}

/// Ticks left at `now` until a deadline at `tick`.
pub open spec fn remaining_at(tick: u32, now: u32) -> u32 {
    if reached_at(tick, now) {
        0
    } else {
        ticks_since(tick, now)
    }
}

fn saturating_mul(x: u32, y: u32) -> (r: u32)
    ensures
        r == saturating_mul_spec(x as int, y as int),
{
    match x.checked_mul(y) {
        Some(v) => v,
        None => u32::MAX,
    }
}

fn div_ceil(x: u32, y: u32) -> (r: u32)
    requires
        y > 1,
    ensures
        r == div_ceil_spec(x as int, y as int),
{
    proof {
        assert(x / y <= x) by (nonlinear_arith)
            requires y > 1;
        assert(x % y == 0 || x / y < x) by (nonlinear_arith)
            requires y > 1;
    }
    if x % y == 0 {
        x / y
    } else {
        x / y + 1
    }
}

/// The core clock in Hz.
pub fn cpu_hz() -> (r: u32)
    ensures
        r == CPU_HZ,
{
    CPU_HZ
}

/// Kernel ticks per second.
pub fn ticks_per_second() -> (r: u32)
    ensures
        r == TICK_HZ,
{
    TICK_HZ
}

/// Most ticks a tickless idle period can suppress.
pub fn max_suppressed_ticks() -> (r: u32)
    ensures
        r == MAX_SUPPRESSED_TICKS,
{
    MAX_SUPPRESSED_TICKS
}

/// Ticks in `ms` milliseconds, rounded up.
pub fn ms_to_ticks(ms: u32) -> (r: u32)
    ensures
        r == ms_to_ticks_spec(ms),
{
    div_ceil(saturating_mul(ms, TICK_HZ), 1_000)
}

/// Whole milliseconds in `ticks` ticks.
pub fn ticks_to_ms(ticks: u32) -> (r: u32)
    ensures
        r == ticks_to_ms_spec(ticks),
{
    saturating_mul(ticks, 1_000) / TICK_HZ
}

/// An absolute point on the wrapping kernel tick counter.
#[derive(Clone, Copy, Debug, PartialEq, Eq, Structural)]
pub struct Deadline {
    tick: u32,
}

impl View for Deadline {
    type V = u32;

    /// The tick the deadline falls on.
    closed spec fn view(&self) -> u32 {
        self.tick
    }
}

impl Deadline {
    /// The deadline at tick `tick`.
    pub fn at_tick(tick: u32) -> (r: Self)
        ensures
            r@ == tick,
    {
        Deadline { tick }
    }

    /// The deadline `ticks` ticks after tick `now`, wrapping.
    pub fn after_ticks(now: u32, ticks: u32) -> (r: Self)
        ensures
            r@ == ticks_after(now, ticks),
    {
        Deadline { tick: now.wrapping_add(ticks) }
    }

    /// The deadline `ms` milliseconds after tick `now`.
    pub fn after_ms(now: u32, ms: u32) -> (r: Self)
        ensures
            r@ == ticks_after(now, ms_to_ticks_spec(ms) as u32),
    {
        Self::after_ticks(now, ms_to_ticks(ms))
    }

    /// The tick the deadline falls on.
    pub fn tick(self) -> (r: u32)
        ensures
            r == self@,
    {
        self.tick
    }

    /// Whether the deadline has been reached at tick `now`: fewer than half the
    /// tick range have passed since it, so the test holds across wraparound.
    pub fn is_reached(self, now: u32) -> (r: bool)
        ensures
            r == reached_at(self@, now),
    {
        now.wrapping_sub(self.tick) < (u32::MAX / 2)
    }

    /// Ticks left until the deadline; 0 once it is reached.
    pub fn remaining_ticks(self, now: u32) -> (r: u32)
        ensures
            r == remaining_at(self@, now),
    {
        if self.is_reached(now) {
            0
        } else {
            self.tick.wrapping_sub(now)
        }
    }

    /// Whole milliseconds left until the deadline.
    pub fn remaining_ms(self, now: u32) -> (r: u32)
        ensures
            r == ticks_to_ms_spec(remaining_at(self@, now)),
    {
        ticks_to_ms(self.remaining_ticks(now))
    }
}

/// A deadline set `ticks` ticks after `now`, with `ticks` at most half the
/// tick range, is not reached `k < ticks` ticks after `now` and has
/// `ticks - k` ticks left then; it is reached `k` ticks after `now` for
/// `ticks <= k < ticks + HALF_TICK_RANGE`. This holds across the wraparound
/// of the tick counter.
pub proof fn lemma_deadline_across_wraparound(now: u32, ticks: u32, k: u32)
    requires
        ticks <= HALF_TICK_RANGE,
    ensures
        reached_at(ticks_after(now, ticks), ticks_after(now, k)) <==> (ticks <= k && k - ticks
            < HALF_TICK_RANGE),
        k < ticks ==> remaining_at(ticks_after(now, ticks), ticks_after(now, k)) == ticks - k,
{
}

/// At the 1 kHz tick rate a millisecond is a tick: converting `ms` to ticks
/// and back gives `ms` as long as `ms * 1000` fits in 32 bits.
pub proof fn lemma_ms_ticks_roundtrip(ms: u32)
    requires
        ms * 1000 <= u32::MAX,
    ensures
        ms_to_ticks_spec(ms) == ms,
        ticks_to_ms_spec(ms) == ms,
{
    assert((ms * 1000) % 1000 == 0 && (ms * 1000) / 1000 == ms) by (nonlinear_arith);
}

/// The kernel tick counter and the number of ticks the running SysTick
/// period spans.
pub struct Timer {
    ticks: u32,
    tick_step: u32,
}

/// What the SysTick handler must do to the hardware after a tick.
pub open spec fn reload_for(ticks: u32) -> u32 {
    let t: u32 = if ticks < 1 {
        1
    } else if ticks > MAX_SUPPRESSED_TICKS {
        MAX_SUPPRESSED_TICKS
    } else {
        ticks
    };
    (t * (SYSTICK_RELOAD + 1) - 1) as u32
}

impl Timer {
    /// Tick counter at 0, one tick per SysTick period.
    pub fn new() -> (r: Self)
        ensures
            r.ticks_spec() == 0,
            r.tick_step_spec() == 1,
    {
        Timer { ticks: 0, tick_step: 1 }
    }

    /// The kernel tick counter.
    pub closed spec fn ticks_spec(&self) -> u32 {
        self.ticks
    }

    /// Kernel ticks the running SysTick period spans.
    pub closed spec fn tick_step_spec(&self) -> u32 {
        self.tick_step
    }

    /// The kernel tick counter.
    pub fn tick_count(&self) -> (r: u32)
        ensures
            r == self.ticks_spec(),
    {
        self.ticks
    }

    /// Sets the SysTick period to `ticks` kernel ticks, clamped to
    /// `1..=MAX_SUPPRESSED_TICKS`, and returns the reload value to program.
    pub fn program_tick_interval(&mut self, ticks: u32) -> (reload: u32)
        ensures
            reload == reload_for(ticks),
            final(self).ticks_spec() == old(self).ticks_spec(),
            final(self).tick_step_spec() == if ticks < 1 {
                1
            } else if ticks > MAX_SUPPRESSED_TICKS {
                MAX_SUPPRESSED_TICKS
            } else {
                ticks
            },
    {
        let t = if ticks < 1 {
            1
        } else if ticks > MAX_SUPPRESSED_TICKS {
            MAX_SUPPRESSED_TICKS
        } else {
            ticks
        };
        proof { lemma_tick_constants(); }
        let reload = saturating_mul(t, SYSTICK_RELOAD + 1).saturating_sub(1);
        self.tick_step = t;
        reload
    }

    /// Accounts for one SysTick interrupt: the counter advances (wrapping) by
    /// the ticks the period spanned, and the period goes back to one tick.
    /// Returns the reload value to program when the period had been stretched.
    pub fn on_systick(&mut self) -> (reprogram: Option<u32>)
        ensures
            final(self).ticks_spec() == ticks_after(old(self).ticks_spec(), old(self).tick_step_spec()),
            final(self).tick_step_spec() == 1,
            reprogram == if old(self).tick_step_spec() != 1 {
                Some(reload_for(1))
            } else {
                None::<u32>
            },
    {
        proof { lemma_tick_constants(); }
        let elapsed = self.tick_step;
        self.tick_step = 1;
        let reprogram = if elapsed != 1 {
            Some(self.program_tick_interval(1))
        } else {
            None
        };
        self.ticks = self.ticks.wrapping_add(elapsed);
        reprogram
    }

    /// Stretches the SysTick period towards `deadline` while only the idle
    /// task runs: no change when at most one tick is left, else the period
    /// spans the ticks left, at most `MAX_SUPPRESSED_TICKS`. Returns the
    /// reload value to program.
    pub fn begin_tickless_idle(&mut self, deadline: Deadline) -> (reload: Option<u32>)
        ensures
            final(self).ticks_spec() == old(self).ticks_spec(),
            remaining_at(deadline@, old(self).ticks_spec()) <= 1 ==> reload is None && *final(self)
                == *old(self),
            remaining_at(deadline@, old(self).ticks_spec()) > 1 ==> {
                let t = if remaining_at(deadline@, old(self).ticks_spec()) < MAX_SUPPRESSED_TICKS {
                    remaining_at(deadline@, old(self).ticks_spec())
                } else {
                    MAX_SUPPRESSED_TICKS
                };
                &&& reload == Some(reload_for(t))
                &&& final(self).tick_step_spec() == t
            },
    {
        proof { lemma_tick_constants(); }
        let remaining_ticks = deadline.remaining_ticks(self.ticks);
        if remaining_ticks <= 1 {
            return None;
        }
        let suppressed = if remaining_ticks < MAX_SUPPRESSED_TICKS {
            remaining_ticks
        } else {
            MAX_SUPPRESSED_TICKS
        };
        Some(self.program_tick_interval(suppressed))
    }
}

/// The kernel tick counter.
pub fn tick_count(sched: &Scheduler) -> (r: u32)
    ensures
        r == sched@.ticks,
{
    sched.tick_count()
}

/// The deadline `ticks` ticks from now.
pub fn deadline_after_ticks(sched: &Scheduler, ticks: u32) -> (r: Deadline)
    ensures
        r@ == ticks_after(sched@.ticks, ticks),
{
    Deadline::after_ticks(sched.tick_count(), ticks)
}

/// The deadline `ms` milliseconds from now.
pub fn deadline_after_ms(sched: &Scheduler, ms: u32) -> (r: Deadline)
    ensures
        r@ == ticks_after(sched@.ticks, ms_to_ticks_spec(ms) as u32),
{
    Deadline::after_ms(sched.tick_count(), ms)
}

/// Whether `deadline` has been reached now.
pub fn deadline_reached(sched: &Scheduler, deadline: Deadline) -> (r: bool)
    ensures
        r == reached_at(deadline@, sched@.ticks),
{
    deadline.is_reached(sched.tick_count())
}

/// Stretches the SysTick period towards `deadline` while only the idle task
/// runs (see `Timer::begin_tickless_idle`); returns the reload value to program.
pub fn begin_tickless_idle(sched: &mut Scheduler, deadline: Deadline) -> (r: Option<u32>)
    requires
        old(sched).wf(),
    ensures
        final(sched).wf(),
        final(sched)@.tasks == old(sched)@.tasks,
        final(sched)@.current == old(sched)@.current,
        final(sched)@.ticks == old(sched)@.ticks,
        remaining_at(deadline@, old(sched)@.ticks) <= 1 ==> r is None && final(sched)@ == old(sched)@,
        remaining_at(deadline@, old(sched)@.ticks) > 1 ==> {
            let t = if remaining_at(deadline@, old(sched)@.ticks) < MAX_SUPPRESSED_TICKS {
                remaining_at(deadline@, old(sched)@.ticks)
            } else {
                MAX_SUPPRESSED_TICKS
            };
            &&& r == Some(reload_for(t))
            &&& final(sched)@ == (SchedulerView { tick_step: t, ..old(sched)@ })
        },
{
    sched.begin_tickless_idle(deadline)
}

/// What the SysTick handler must do: reprogram the period (when a reload
/// value is given), halt on a stack overflow (when one is given, with the
/// task and the words it used), and carry out a switch (when one is given).
pub struct SysTickAction {
    pub reload: Option<u32>,
    pub overflow: Option<(TaskId, usize)>,
    pub switch: Option<Switch>,
}

/// `v` once the tick counter has advanced by the ticks its period spanned
/// and the period is back to one tick.
pub open spec fn advanced(v: SchedulerView) -> SchedulerView {
    SchedulerView { ticks: ticks_after(v.ticks, v.tick_step), tick_step: 1, ..v }
}

/// The SysTick handler's work: the tick counter advances by the ticks the
/// period spanned; then every task's stack is checked, in slot order, and the
/// first overflow is traced and returned for the caller to halt, with no
/// kernel tick; otherwise the kernel tick runs (see `Scheduler::on_tick`).
pub fn on_systick(sched: &mut Scheduler) -> (r: SysTickAction)
    requires
        old(sched).wf(),
    ensures
        final(sched).wf(),
        r.reload == if old(sched)@.tick_step != 1 { Some(reload_for(1)) } else { None::<u32> },
        (forall|i: int| 0 <= i < crate::scheduler::MAX_TASKS ==> !overflowed(advanced(old(sched)@), i)) ==> {
            &&& r.overflow is None
            &&& (r.switch, final(sched)@) == on_tick_spec(advanced(old(sched)@))
        },
        r.overflow is None ==> forall|i: int| 0 <= i < crate::scheduler::MAX_TASKS ==> !overflowed(advanced(old(sched)@), i),
        r.overflow matches Some((t, u)) ==> {
            let v = advanced(old(sched)@);
            &&& t.0 < crate::scheduler::MAX_TASKS
            &&& overflowed(v, t.0 as int)
            &&& forall|j: int| 0 <= j < t.0 ==> !overflowed(v, j)
            &&& u == used_words(v, t.0 as int)
            &&& r.switch is None
            &&& final(sched)@ == crate::scheduler::traced(v, TraceKind::StackOverflow, Some(t), u as u32, crate::scheduler::TASK_STACK_WORDS as u32)
        },
{
    let reload = sched.advance_tick();
    let overflow = check_all_task_stacks(sched);
    if overflow.is_some() {
        return SysTickAction { reload, overflow, switch: None };
    }
    let switch = sched.on_tick();
    SysTickAction { reload, overflow: None, switch }
}

/// Sleeps the running task for `ticks` ticks (see `Scheduler::sleep_ticks`).
pub fn sleep_ticks(sched: &mut Scheduler, ticks: u32) -> (r: Reschedule)
    requires
        old(sched).wf(),
    ensures
        final(sched).wf(),
        ticks == 0 ==> (r, final(sched)@) == yield_spec(old(sched)@),
        ticks != 0 ==> {
            let d = ticks_after(old(sched)@.ticks, ticks);
            &&& reached_at(d, old(sched)@.ticks) ==> (r, final(sched)@) == yield_spec(old(sched)@)
            &&& !reached_at(d, old(sched)@.ticks) ==> exists|dl: Deadline| dl@ == d && (r, final(sched)@) == block_spec(old(sched)@, TaskWaitKind::Sleep, Some(dl))
        },
{
    sched.sleep_ticks(ticks)
}

/// Sleeps the running task until `deadline` (see `Scheduler::sleep_until`).
pub fn sleep_until(sched: &mut Scheduler, deadline: Deadline) -> (r: Reschedule)
    requires
        old(sched).wf(),
    ensures
        final(sched).wf(),
        reached_at(deadline@, old(sched)@.ticks) ==> (r, final(sched)@) == yield_spec(old(sched)@),
        !reached_at(deadline@, old(sched)@.ticks) ==> (r, final(sched)@) == block_spec(old(sched)@, TaskWaitKind::Sleep, Some(deadline)),
{
    sched.sleep_until(deadline)
}

/// Sleeps the running task for `ms` milliseconds, rounded up to ticks.
pub fn sleep_ms(sched: &mut Scheduler, ms: u32) -> (r: Reschedule)
    requires
        old(sched).wf(),
    ensures
        final(sched).wf(),
        ms_to_ticks_spec(ms) == 0 ==> (r, final(sched)@) == yield_spec(old(sched)@),
        ms_to_ticks_spec(ms) != 0 ==> {
            let d = ticks_after(old(sched)@.ticks, ms_to_ticks_spec(ms) as u32);
            &&& reached_at(d, old(sched)@.ticks) ==> (r, final(sched)@) == yield_spec(old(sched)@)
            &&& !reached_at(d, old(sched)@.ticks) ==> exists|dl: Deadline| dl@ == d && (r, final(sched)@) == block_spec(old(sched)@, TaskWaitKind::Sleep, Some(dl))
        },
{
    sleep_ticks(sched, ms_to_ticks(ms))
}

/// Delays the running task for `ticks` ticks: the same as `sleep_ticks`.
pub fn delay_ticks(sched: &mut Scheduler, ticks: u32) -> (r: Reschedule)
    requires
        old(sched).wf(),
    ensures
        final(sched).wf(),
        ticks == 0 ==> (r, final(sched)@) == yield_spec(old(sched)@),
        ticks != 0 ==> {
            let d = ticks_after(old(sched)@.ticks, ticks);
            &&& reached_at(d, old(sched)@.ticks) ==> (r, final(sched)@) == yield_spec(old(sched)@)
            &&& !reached_at(d, old(sched)@.ticks) ==> exists|dl: Deadline| dl@ == d && (r, final(sched)@) == block_spec(old(sched)@, TaskWaitKind::Sleep, Some(dl))
        },
{
    sleep_ticks(sched, ticks)
}

/// Delays the running task until `deadline`: the same as `sleep_until`.
pub fn delay_until(sched: &mut Scheduler, deadline: Deadline) -> (r: Reschedule)
    requires
        old(sched).wf(),
    ensures
        final(sched).wf(),
        reached_at(deadline@, old(sched)@.ticks) ==> (r, final(sched)@) == yield_spec(old(sched)@),
        !reached_at(deadline@, old(sched)@.ticks) ==> (r, final(sched)@) == block_spec(old(sched)@, TaskWaitKind::Sleep, Some(deadline)),
{
    sleep_until(sched, deadline)
}

/// Delays the running task for `ms` milliseconds: the same as `sleep_ms`.
pub fn delay_ms(sched: &mut Scheduler, ms: u32) -> (r: Reschedule)
    requires
        old(sched).wf(),
    ensures
        final(sched).wf(),
        ms_to_ticks_spec(ms) == 0 ==> (r, final(sched)@) == yield_spec(old(sched)@),
        ms_to_ticks_spec(ms) != 0 ==> {
            let d = ticks_after(old(sched)@.ticks, ms_to_ticks_spec(ms) as u32);
            &&& reached_at(d, old(sched)@.ticks) ==> (r, final(sched)@) == yield_spec(old(sched)@)
            &&& !reached_at(d, old(sched)@.ticks) ==> exists|dl: Deadline| dl@ == d && (r, final(sched)@) == block_spec(old(sched)@, TaskWaitKind::Sleep, Some(dl))
        },
{
    sleep_ms(sched, ms)
}

} // verus!
