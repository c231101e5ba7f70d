//! Named timers. The clock that makes them cycle lives with the game loop:
//! what the systems read of a timer is how many cycles it completed.
use vstd::prelude::*;

verus! {

/// How a timer behaves once its duration elapsed.
#[derive(PartialEq, Eq, Structural, Clone, Copy, Debug)]
pub enum TimerType {
    /// The timer ends and waits to be reset.
    Manual,
    /// The timer starts over, counting one more cycle.
    Cyclic,
}

/// A named timer.
pub struct Timer {
    pub name: String,
    pub timer_type: TimerType,
    /// Duration of one cycle, in nanoseconds.
    pub duration_nanos: u64,
    /// Cycles completed when the game loop last advanced the clock.
    pub cycle: usize,
    /// Time elapsed in the current cycle, in nanoseconds.
    pub elapsed_nanos: u64,
}

/// What a timer is, its name taken by its characters.
pub struct TimerView {
    pub name: Seq<char>,
    pub timer_type: TimerType,
    pub duration_nanos: u64,
    pub cycle: usize,
    pub elapsed_nanos: u64,
}

impl View for Timer {
    type V = TimerView;

    open spec fn view(&self) -> TimerView {
        TimerView {
            name: self.name@,
            timer_type: self.timer_type,
            duration_nanos: self.duration_nanos,
            cycle: self.cycle,
            elapsed_nanos: self.elapsed_nanos,
        }
    }
}

impl Timer {
    /// Number of cycles completed.
    pub fn cycle(&self) -> (c: usize)
        ensures
            c == self.cycle,
    {
        self.cycle
    }

    /// Starts the timer over.
    pub fn reset(&mut self)
        ensures
            final(self)@ == (TimerView { cycle: 0, elapsed_nanos: 0, ..old(self)@ }),
    {
        self.cycle = 0;
        self.elapsed_nanos = 0;
    }

    /// Moves the clock of this timer on by `dt` nanoseconds.
    pub fn advance(&mut self, dt: u64)
        ensures
            final(self)@ == advanced(old(self)@, dt),
    {
        let d = self.duration_nanos;
        if d == 0 {
            self.cycle = 0;
            return;
        }
        let total: u128 = self.elapsed_nanos as u128 + dt as u128;
        match self.timer_type {
            TimerType::Cyclic => {
                let cycles: u128 = total / (d as u128);
                self.cycle = if cycles > usize::MAX as u128 {
                    usize::MAX
                } else {
                    cycles as usize
                };
                self.elapsed_nanos = (total % (d as u128)) as u64;
            },
            TimerType::Manual => {
                if total >= d as u128 {
                    self.cycle = 1;
                    self.elapsed_nanos = d;
                } else {
                    self.cycle = 0;
                    self.elapsed_nanos = total as u64;
                }
            },
        }
    }
}

/// The timer `t` once its clock moved on by `dt` nanoseconds: a cyclic timer
/// counts the cycles the time it had in its cycle and `dt` complete, and keeps
/// the rest; a manual timer that reaches its duration has completed its one
/// cycle and stays there until it is reset. A timer of no duration counts no
/// cycle.
pub open spec fn advanced(t: TimerView, dt: u64) -> TimerView {
    let d = t.duration_nanos as int;
    let total = t.elapsed_nanos + dt;
    if d == 0 {
        TimerView { cycle: 0, ..t }
    } else {
        match t.timer_type {
            TimerType::Cyclic => TimerView {
                cycle: if total / d > usize::MAX {
                    usize::MAX
                } else {
                    (total / d) as usize
                },
                elapsed_nanos: (total % d) as u64,
                ..t
            },
            TimerType::Manual => if total >= d {
                TimerView { cycle: 1, elapsed_nanos: t.duration_nanos, ..t }
            } else {
                TimerView { cycle: 0, elapsed_nanos: total as u64, ..t }
            },
        }
    }
}

/// Position of the timer named `name` in `ts`, if any.
pub open spec fn timer_index(ts: Seq<TimerView>, name: Seq<char>) -> Option<int> {
    if exists|i: int| 0 <= i < ts.len() && #[trigger] ts[i].name == name {
        Some(choose|i: int| 0 <= i < ts.len() && #[trigger] ts[i].name == name)
    } else {
        None
    }
}

/// A fresh timer named `name`.
pub open spec fn fresh_timer(name: Seq<char>, timer_type: TimerType, duration_nanos: u64) -> TimerView {
    TimerView { name, timer_type, duration_nanos, cycle: 0, elapsed_nanos: 0 }
}

/// The timers `ts` once a timer named `name` was added, unless one exists.
pub open spec fn with_timer(
    ts: Seq<TimerView>,
    name: Seq<char>,
    timer_type: TimerType,
    duration_nanos: u64,
) -> Seq<TimerView> {
    match timer_index(ts, name) {
        Some(_) => ts,
        None => ts.push(fresh_timer(name, timer_type, duration_nanos)),
    }
}

/// The timers `ts` without the one named `name`.
pub open spec fn without_timer(ts: Seq<TimerView>, name: Seq<char>) -> Seq<TimerView> {
    match timer_index(ts, name) {
        Some(i) => ts.remove(i),
        None => ts,
    }
}

/// No two timers of `ts` share a name.
pub open spec fn distinct_names(ts: Seq<TimerView>) -> bool {
    forall|i: int, j: int| 0 <= i < j < ts.len() ==> #[trigger] ts[i].name != #[trigger] ts[j].name
}

/// The timers of the game, by name.
pub struct Timers {
    pub timers: Vec<Timer>,
}

impl View for Timers {
    type V = Seq<TimerView>;

    open spec fn view(&self) -> Seq<TimerView> {
        self.timers@.map_values(|t: Timer| t@)
    }
}

/// In timers with distinct names, a name stands at one position only.
pub proof fn lemma_timer_index(ts: Seq<TimerView>, i: int)
    requires
        distinct_names(ts),
        0 <= i < ts.len(),
    ensures
        timer_index(ts, ts[i].name) == Some(i),
{
    let j = choose|j: int| 0 <= j < ts.len() && #[trigger] ts[j].name == ts[i].name;
    if j < i {
        assert(ts[j].name != ts[i].name);
    } else if i < j {
        assert(ts[i].name != ts[j].name);
    }
}

impl Timers {
    /// No timer.
    pub fn new() -> (r: Timers)
        ensures
            r@ == Seq::<TimerView>::empty(),
    {
        let r = Timers { timers: Vec::new() };
        assert(r@ =~= Seq::<TimerView>::empty());
        r
    }

    /// Position of the timer named `name`.
    pub fn find(&self, name: &str) -> (r: Option<usize>)
        requires
            distinct_names(self@),
        ensures
            r is None <==> timer_index(self@, name@) is None,
            r is Some ==> r.unwrap() < self@.len() && timer_index(self@, name@) == Some(r.unwrap() as int),
    {
        let key = name.to_owned();
        let mut i: usize = 0;
        while i < self.timers.len()
            invariant
                i <= self.timers@.len(),
                key@ == name@,
                distinct_names(self@),
                forall|j: int| 0 <= j < i ==> #[trigger] self@[j].name != name@,
            decreases self.timers.len() - i,
        {
            assert(self@[i as int] == self.timers@[i as int]@);
            if self.timers[i].name == key {
                proof {
                    lemma_timer_index(self@, i as int);
                }
                return Some(i);
            }
            i = i + 1;
        }
        assert(timer_index(self@, name@) is None) by {
            if exists|j: int| 0 <= j < self@.len() && #[trigger] self@[j].name == name@ {
                let j = choose|j: int| 0 <= j < self@.len() && #[trigger] self@[j].name == name@;
                assert(self@[j].name != name@);
            }
        }
        None
    }

    /// Adds a timer named `name`. Returns whether it was added: a timer of that
    /// name that already exists is kept as it is.
    pub fn add_timer(&mut self, name: &str, timer_type: TimerType, duration_nanos: u64) -> (created: bool)
        requires
            distinct_names(old(self)@),
        ensures
            distinct_names(final(self)@),
            created == (timer_index(old(self)@, name@) is None),
            final(self)@ == with_timer(old(self)@, name@, timer_type, duration_nanos),
    {
        match self.find(name) {
            Some(_) => false,
            None => {
                let ghost before = self@;
                self.timers.push(Timer { name: name.to_owned(), timer_type, duration_nanos, cycle: 0, elapsed_nanos: 0 });
                assert(self@ =~= before.push(fresh_timer(name@, timer_type, duration_nanos)));
                assert forall|i: int, j: int| 0 <= i < j < self@.len() implies #[trigger] self@[i].name
                    != #[trigger] self@[j].name by {
                    if j == before.len() {
                        assert(self@[i] == before[i]);
                    } else {
                        assert(self@[i] == before[i] && self@[j] == before[j]);
                    }
                }
                true
            },
        }
    }

    /// The number of cycles the timer named `name` completed, if it exists.
    pub fn timer_cycle(&self, name: &str) -> (r: Option<usize>)
        requires
            distinct_names(self@),
        ensures
            r == (match timer_index(self@, name@) {
                Some(i) => Some(self@[i].cycle),
                None => None,
            }),
    {
        match self.find(name) {
            Some(i) => {
                assert(self@[i as int] == self.timers@[i as int]@);
                Some(self.timers[i].cycle())
            },
            None => None,
        }
    }

    /// Moves the clock of every timer on by `dt` nanoseconds.
    pub fn advance(&mut self, dt: u64)
        ensures
            final(self)@.len() == old(self)@.len(),
            forall|i: int| 0 <= i < old(self)@.len() ==> #[trigger] final(self)@[i] == advanced(old(self)@[i], dt),
    {
        let ghost ts = self@;
        let n = self.timers.len();
        let mut i: usize = 0;
        while i < n
            invariant
                n == ts.len(),
                i <= n,
                self@.len() == n,
                forall|j: int| 0 <= j < i ==> #[trigger] self@[j] == advanced(ts[j], dt),
                forall|j: int| i <= j < n ==> #[trigger] self@[j] == ts[j],
            decreases n - i,
        {
            let ghost before = self@;
            let ghost bt = self.timers@;
            assert(before[i as int] == bt[i as int]@);
            let mut t = self.timers.remove(i);
            assert(t@ == ts[i as int]);
            t.advance(dt);
            self.timers.insert(i, t);
            assert(self.timers@ =~= bt.update(i as int, t));
            assert forall|j: int| 0 <= j < n && j != i implies #[trigger] self@[j] == before[j] by {
                assert(self@[j] == self.timers@[j]@);
                assert(before[j] == bt[j]@);
            }
            assert(self@[i as int] == t@);
            i = i + 1;
        }
    }

    /// Removes the timer named `name`. Returns whether it existed.
    pub fn delete_timer(&mut self, name: &str) -> (r: bool)
        requires
            distinct_names(old(self)@),
        ensures
            distinct_names(final(self)@),
            r == (timer_index(old(self)@, name@) is Some),
            final(self)@ == without_timer(old(self)@, name@),
    {
        match self.find(name) {
            Some(i) => {
                let ghost before = self@;
                let _t = self.timers.remove(i);
                assert(self@ =~= before.remove(i as int));
                assert forall|a: int, b: int| 0 <= a < b < self@.len() implies #[trigger] self@[a].name
                    != #[trigger] self@[b].name by {
                    if a < i {
                        if b < i {
                            assert(self@[b] == before[b]);
                        } else {
                            assert(self@[b] == before[b + 1]);
                        }
                    } else {
                        assert(self@[a] == before[a + 1] && self@[b] == before[b + 1]);
                    }
                }
                true
            },
            None => false,
        }
    }
}

/// Once added, a timer stands among the timers.
pub proof fn lemma_with_timer_has(ts: Seq<TimerView>, name: Seq<char>, timer_type: TimerType, duration_nanos: u64)
    ensures
        timer_index(with_timer(ts, name, timer_type, duration_nanos), name) is Some,
{
    let ts1 = with_timer(ts, name, timer_type, duration_nanos);
    if timer_index(ts, name) is None {
        assert(ts1[ts.len() as int].name == name);
    }
}

/// Adding a timer that exists changes nothing, and a timer just added and then
/// deleted is gone.
pub proof fn law_timer_add_delete(ts: Seq<TimerView>, name: Seq<char>, timer_type: TimerType, duration_nanos: u64)
    requires
        distinct_names(ts),
    ensures
        ({
            let ts1 = with_timer(ts, name, timer_type, duration_nanos);
            &&& with_timer(ts1, name, timer_type, duration_nanos) == ts1
            &&& timer_index(without_timer(ts1, name), name) is None
        }),
{
    let ts1 = with_timer(ts, name, timer_type, duration_nanos);
    lemma_with_timer_has(ts, name, timer_type, duration_nanos);
    assert(distinct_names(ts1)) by {
        if timer_index(ts, name) is None {
            assert forall|i: int, j: int| 0 <= i < j < ts1.len() implies #[trigger] ts1[i].name != #[trigger] ts1[j].name by {
                if j == ts.len() {
                    assert(ts1[i] == ts[i]);
                    if ts[i].name == name {
                        assert(exists|k: int| 0 <= k < ts.len() && #[trigger] ts[k].name == name);
                    }
                } else {
                    assert(ts1[i] == ts[i] && ts1[j] == ts[j]);
                }
            }
        }
    }
    let k = timer_index(ts1, name).unwrap();
    let ts2 = ts1.remove(k);
    if timer_index(ts2, name) is Some {
        let j = choose|j: int| 0 <= j < ts2.len() && #[trigger] ts2[j].name == name;
        let j0 = if j < k { j } else { j + 1 };
        assert(ts2[j] == ts1[j0]);
        lemma_timer_index(ts1, j0);
    }
}

} // verus!
