//! When the machine runs: instruction steps and timer ticks each at their own
//! fixed period, and screen frames at theirs. Times are nanoseconds on a
//! monotonic clock.

use vstd::prelude::*;

verus! {

/// Something that falls due.
#[derive(Clone, Copy, Debug, PartialEq, Eq, Structural)]
pub enum Event {
    /// The timers tick.
    Tick,
    /// The machine carries out one step.
    Cpu,
}

/// The times at which the next step, tick and frame fall due, and the
/// period of each.
pub struct Schedule {
    pub next_cpu: u64,
    pub next_timer: u64,
    pub next_frame: u64,
    pub cpu_step: u64,
    pub timer_step: u64,
    pub frame_step: u64,
}

/// What falls due next at time `now`, with the next tick due at `next_timer`
/// and the next step at `next_cpu`: the earlier of the two, the tick first on
/// a tie, or nothing when neither is due yet.
pub open spec fn next_event(next_timer: int, next_cpu: int, now: int) -> Option<Event> {
    if next_timer <= next_cpu {
        if next_timer <= now {
            Some(Event::Tick)
        } else {
            None
        }
    } else if next_cpu <= now {
        Some(Event::Cpu)
    } else {
        None
    }
}

/// How far from done a schedule is at time `now`.
pub open spec fn backlog(next_timer: int, next_cpu: int, now: int) -> int {
    (if next_timer <= now {
        now + 1 - next_timer
    } else {
        0
    }) + (if next_cpu <= now {
        now + 1 - next_cpu
    } else {
        0
    })
}

/// Everything that falls due up to and including time `now`, in order.
pub open spec fn timeline(
    next_timer: int,
    next_cpu: int,
    timer_step: int,
    cpu_step: int,
    now: int,
) -> Seq<Event>
    decreases backlog(next_timer, next_cpu, now),
    when timer_step > 0 && cpu_step > 0
{
    match next_event(next_timer, next_cpu, now) {
        Some(Event::Tick) => seq![Event::Tick] + timeline(
            next_timer + timer_step,
            next_cpu,
            timer_step,
            cpu_step,
            now,
        ),
        Some(Event::Cpu) => seq![Event::Cpu] + timeline(
            next_timer,
            next_cpu + cpu_step,
            timer_step,
            cpu_step,
            now,
        ),
        None => seq![],
    }
}

/// The due times of the next tick and step once everything up to `now` is done.
pub open spec fn settled(
    next_timer: int,
    next_cpu: int,
    timer_step: int,
    cpu_step: int,
    now: int,
) -> (int, int)
    decreases backlog(next_timer, next_cpu, now),
    when timer_step > 0 && cpu_step > 0
{
    match next_event(next_timer, next_cpu, now) {
        Some(Event::Tick) => settled(next_timer + timer_step, next_cpu, timer_step, cpu_step, now),
        Some(Event::Cpu) => settled(next_timer, next_cpu + cpu_step, timer_step, cpu_step, now),
        None => (next_timer, next_cpu),
    }
}

/// How many times `e` occurs in `events`.
pub open spec fn count(events: Seq<Event>, e: Event) -> nat
    decreases events.len(),
{
    if events.len() == 0 {
        0
    } else {
        (if events[0] == e {
            1nat
        } else {
            0nat
        }) + count(events.drop_first(), e)
    }
}

/// How many points `next`, `next + step`, `next + 2 * step`, ... lie at or before `now`.
pub open spec fn due_count(next: int, step: int, now: int) -> int {
    if next <= now {
        (now - next) / step + 1
    } else {
        0
    }
}

/// One more period from `next` leaves one fewer point due at or before `now`.
proof fn lemma_due_count_step(next: int, step: int, now: int)
    requires
        step > 0,
        next <= now,
    ensures
        due_count(next, step, now) == 1 + due_count(next + step, step, now),
{
    if next + step <= now {
        vstd::arithmetic::div_mod::lemma_div_plus_one(now - next - step, step);
        assert(step + (now - next - step) == now - next);
    } else {
        vstd::arithmetic::div_mod::lemma_basic_div(now - next, step);
    }
}

/// Timers tick and steps run at their own fixed rates, whatever the other
/// does: up to `now` the timeline holds one tick for each tick period point
/// and one step for each step period point at or before `now`, and both due
/// times end up the first such point after `now`.
pub proof fn lemma_timeline_rates(
    next_timer: int,
    next_cpu: int,
    timer_step: int,
    cpu_step: int,
    now: int,
)
    requires
        timer_step > 0,
        cpu_step > 0,
    ensures
        count(timeline(next_timer, next_cpu, timer_step, cpu_step, now), Event::Tick)
            == due_count(next_timer, timer_step, now),
        count(timeline(next_timer, next_cpu, timer_step, cpu_step, now), Event::Cpu)
            == due_count(next_cpu, cpu_step, now),
        settled(next_timer, next_cpu, timer_step, cpu_step, now) == (
            next_timer + timer_step * due_count(next_timer, timer_step, now),
            next_cpu + cpu_step * due_count(next_cpu, cpu_step, now),
        ),
    decreases backlog(next_timer, next_cpu, now),
{
    let evs = timeline(next_timer, next_cpu, timer_step, cpu_step, now);
    match next_event(next_timer, next_cpu, now) {
        Some(Event::Tick) => {
            lemma_timeline_rates(next_timer + timer_step, next_cpu, timer_step, cpu_step, now);
            lemma_due_count_step(next_timer, timer_step, now);
            assert(evs.drop_first() =~= timeline(
                next_timer + timer_step,
                next_cpu,
                timer_step,
                cpu_step,
                now,
            ));
            let d = due_count(next_timer + timer_step, timer_step, now);
            assert(timer_step + timer_step * d == timer_step * (1 + d)) by (nonlinear_arith);
        },
        Some(Event::Cpu) => {
            lemma_timeline_rates(next_timer, next_cpu + cpu_step, timer_step, cpu_step, now);
            lemma_due_count_step(next_cpu, cpu_step, now);
            assert(evs.drop_first() =~= timeline(
                next_timer,
                next_cpu + cpu_step,
                timer_step,
                cpu_step,
                now,
            ));
            let d = due_count(next_cpu + cpu_step, cpu_step, now);
            assert(cpu_step + cpu_step * d == cpu_step * (1 + d)) by (nonlinear_arith);
        },
        None => {},
    }
}

/// Things fall due in time order, a tick before a step due at the same time:
/// nothing falls due exactly when both due times are past `now`, and
/// otherwise the first is a tick exactly when the tick is due no later than
/// the step.
pub proof fn lemma_timeline_order(
    next_timer: int,
    next_cpu: int,
    timer_step: int,
    cpu_step: int,
    now: int,
)
    requires
        timer_step > 0,
        cpu_step > 0,
    ensures
        ({
            let evs = timeline(next_timer, next_cpu, timer_step, cpu_step, now);
            &&& (evs.len() == 0) == (next_timer > now && next_cpu > now)
            &&& evs.len() > 0 ==> ((evs[0] == Event::Tick) == (next_timer <= next_cpu))
        }),
{
}

impl Schedule {
    /// Whether the schedule's arithmetic up to time `now` fits in a `u64`.
    pub open spec fn fits(self, now: u64) -> bool {
        &&& self.cpu_step > 0
        &&& self.timer_step > 0
        &&& self.frame_step > 0
        &&& now + self.cpu_step <= u64::MAX
        &&& now + self.timer_step <= u64::MAX
        &&& now + self.frame_step <= u64::MAX
    }

    /// A schedule started at `now`: the first step, tick and frame fall due
    /// one period later.
    pub fn new(now: u64, cpu_step: u64, timer_step: u64, frame_step: u64) -> (s: Self)
        requires
            now + cpu_step <= u64::MAX,
            now + timer_step <= u64::MAX,
            now + frame_step <= u64::MAX,
        ensures
            s == (Schedule {
                next_cpu: (now + cpu_step) as u64,
                next_timer: (now + timer_step) as u64,
                next_frame: (now + frame_step) as u64,
                cpu_step,
                timer_step,
                frame_step,
            }),
    {
        Schedule {
            next_cpu: now + cpu_step,
            next_timer: now + timer_step,
            next_frame: now + frame_step,
            cpu_step,
            timer_step,
            frame_step,
        }
    }

    /// Takes everything that falls due up to and including `now`, in order,
    /// and moves the due times past `now`.
    pub fn due_events(&mut self, now: u64) -> (events: Vec<Event>)
        requires
            old(self).fits(now),
        ensures
            events@ == timeline(
                old(self).next_timer as int,
                old(self).next_cpu as int,
                old(self).timer_step as int,
                old(self).cpu_step as int,
                now as int,
            ),
            (final(self).next_timer as int, final(self).next_cpu as int) == settled(
                old(self).next_timer as int,
                old(self).next_cpu as int,
                old(self).timer_step as int,
                old(self).cpu_step as int,
                now as int,
            ),
            final(self).next_frame == old(self).next_frame,
            final(self).cpu_step == old(self).cpu_step,
            final(self).timer_step == old(self).timer_step,
            final(self).frame_step == old(self).frame_step,
    {
        let ghost ts = self.timer_step as int;
        let ghost cs = self.cpu_step as int;
        let ghost all = timeline(self.next_timer as int, self.next_cpu as int, ts, cs, now as int);
        let ghost end = settled(self.next_timer as int, self.next_cpu as int, ts, cs, now as int);
        let ghost start = *self;
        let mut events: Vec<Event> = Vec::new();
        loop
            invariant
                self.fits(now),
                ts == self.timer_step,
                cs == self.cpu_step,
                self.next_frame == start.next_frame,
                self.cpu_step == start.cpu_step,
                self.timer_step == start.timer_step,
                self.frame_step == start.frame_step,
                all == events@ + timeline(
                    self.next_timer as int,
                    self.next_cpu as int,
                    ts,
                    cs,
                    now as int,
                ),
                end == settled(self.next_timer as int, self.next_cpu as int, ts, cs, now as int),
            ensures
                all == events@,
                end == (self.next_timer as int, self.next_cpu as int),
                self.next_frame == start.next_frame,
                self.cpu_step == start.cpu_step,
                self.timer_step == start.timer_step,
                self.frame_step == start.frame_step,
            decreases backlog(self.next_timer as int, self.next_cpu as int, now as int),
        {
            let ghost before = events@;
            if self.next_timer <= self.next_cpu {
                if self.next_timer > now {
                    assert(timeline(self.next_timer as int, self.next_cpu as int, ts, cs, now as int)
                        =~= Seq::<Event>::empty());
                    assert(events@ =~= events@ + Seq::<Event>::empty());
                    break ;
                }
                events.push(Event::Tick);
                self.next_timer = self.next_timer + self.timer_step;
            } else {
                if self.next_cpu > now {
                    assert(timeline(self.next_timer as int, self.next_cpu as int, ts, cs, now as int)
                        =~= Seq::<Event>::empty());
                    assert(events@ =~= events@ + Seq::<Event>::empty());
                    break ;
                }
                events.push(Event::Cpu);
                self.next_cpu = self.next_cpu + self.cpu_step;
            }
            assert(all =~= events@ + timeline(
                self.next_timer as int,
                self.next_cpu as int,
                ts,
                cs,
                now as int,
            ));
        }
        assert(events@ == all);
        events
    }

    /// Whether a frame is due at `now`. When one is, the next frame is moved
    /// to the first time after `now` on the frame period's grid, skipping the
    /// frames that were missed.
    pub fn frame_due(&mut self, now: u64) -> (due: bool)
        requires
            old(self).fits(now),
        ensures
            due == (now >= old(self).next_frame),
            due ==> {
                &&& final(self).next_frame > now
                &&& final(self).next_frame - old(self).frame_step <= now
                &&& (final(self).next_frame - old(self).next_frame) % (old(self).frame_step as int)
                    == 0
            },
            !due ==> final(self).next_frame == old(self).next_frame,
            final(self).next_cpu == old(self).next_cpu,
            final(self).next_timer == old(self).next_timer,
            final(self).cpu_step == old(self).cpu_step,
            final(self).timer_step == old(self).timer_step,
            final(self).frame_step == old(self).frame_step,
    {
        if now < self.next_frame {
            return false;
        }
        let ghost first = self.next_frame as int;
        let ghost step = self.frame_step as int;
        let ghost mut k: int = 0;
        while self.next_frame <= now
            invariant
                self.fits(now),
                self.next_cpu == old(self).next_cpu,
                self.next_timer == old(self).next_timer,
                self.cpu_step == old(self).cpu_step,
                self.timer_step == old(self).timer_step,
                self.frame_step == old(self).frame_step,
                step == self.frame_step,
                first <= now,
                self.next_frame == first + k * step,
                k >= 0,
                self.next_frame - step <= now,
            decreases (if self.next_frame <= now {
                now + 1 - self.next_frame
            } else {
                0
            }),
        {
            self.next_frame = self.next_frame + self.frame_step;
            proof {
                assert(first + k * step + step == first + (k + 1) * step) by (nonlinear_arith);
                k = k + 1;
            }
        }
        proof {
            vstd::arithmetic::div_mod::lemma_mod_multiples_basic(k, step);
        }
        true
    }

    /// The earliest of the times at which the next step, tick and frame fall due.
    pub fn next_wakeup(&self) -> (t: u64)
        ensures
            t <= self.next_cpu,
            t <= self.next_timer,
            t <= self.next_frame,
            t == self.next_cpu || t == self.next_timer || t == self.next_frame,
    {
        let mut t = self.next_cpu;
        if self.next_timer < t {
            t = self.next_timer;
        }
        if self.next_frame < t {
            t = self.next_frame;
        }
        t
    }
}

} // verus!
