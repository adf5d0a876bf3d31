//! Monotonic cooling schedules.
use vstd::prelude::*;
use crate::engine::Temperature;

verus! {

/// A linear cooling schedule: each update subtracts a constant from the temperature.
///
/// The search stops once the temperature is strictly below the threshold, so
/// `Linear::new(10, 1, 0)` first stops after 11 updates, at temperature -1.
pub struct Linear {
    temperature: i64,
    constant: i64,
    stopping: i64,
}

impl Linear {
    #[verifier::type_invariant]
    spec fn inv(self) -> bool {
        self.wf()
    }

    pub open spec fn wf(self) -> bool {
        self.step() > 0 && self.threshold() > i64::MIN
    }

    pub closed spec fn current(self) -> i64 {
        self.temperature
    }

    pub closed spec fn step(self) -> i64 {
        self.constant
    }

    pub closed spec fn threshold(self) -> i64 {
        self.stopping
    }

    /// The temperature after one update: lowered by the constant, saturating at `i64::MIN`.
    pub open spec fn next_temperature(self) -> int {
        if self.current() - self.step() >= i64::MIN {
            self.current() - self.step()
        } else {
            i64::MIN as int
        }
    }

    /// Creates a `Linear` schedule; a temperature below `stopping_value` stops the search.
    pub fn new(temperature: i64, constant: i64, stopping_value: i64) -> (r: Self)
        requires
            constant > 0,
            stopping_value > i64::MIN,
        ensures
            r.wf(),
            r.current() == temperature,
            r.step() == constant,
            r.threshold() == stopping_value,
    {
        Linear { temperature, constant, stopping: stopping_value }
    }

    /// The schedule after one update.
    pub fn cooled(self) -> (r: Self)
        requires
            self.wf(),
        ensures
            r.wf(),
            r.current() == self.next_temperature(),
            r.current() <= self.current(),
            r.step() == self.step(),
            r.threshold() == self.threshold(),
    {
        let next = if self.temperature >= i64::MIN + self.constant {
            self.temperature - self.constant
        } else {
            i64::MIN
        };
        Linear::new(next, self.constant, self.stopping)
    }
}

/// Linear cooling never raises the temperature, and once the temperature is
/// below the stopping threshold it stays below it.
pub proof fn lemma_linear_cooling_is_monotonic(s: Linear)
    requires
        s.wf(),
    ensures
        s.next_temperature() <= s.current(),
        s.current() < s.threshold() ==> s.next_temperature() < s.threshold(),
{
}

impl<T> Temperature<T> for Linear {
    open spec fn spec_temperature(&self) -> i64 {
        self.current()
    }

    open spec fn spec_stop(&self) -> bool {
        self.current() < self.threshold()
    }

    open spec fn updates_left(&self) -> nat {
        if self.current() < self.threshold() {
            0
        } else {
            ((self.current() - self.threshold()) / (self.step() as int) + 1) as nat
        }
    }

    open spec fn spec_updates_to(&self, _s: &T, next: &Self) -> bool {
        &&& next.current() == self.next_temperature()
        &&& next.step() == self.step()
        &&& next.threshold() == self.threshold()
    }

    fn update(self, _s: &T) -> (r: Self)
        ensures
            r.current() == self.next_temperature(),
            r.current() <= self.current(),
            r.step() == self.step(),
            r.threshold() == self.threshold(),
            self.current() >= self.threshold() ==> Temperature::<T>::updates_left(&r) + 1
                == Temperature::<T>::updates_left(&self),
    {
        proof {
            use_type_invariant(&self);
            let x = self.current() - self.threshold();
            let c = self.step() as int;
            if x >= c {
                assert((x - c) / c == x / c - 1) by (nonlinear_arith)
                    requires
                        c > 0,
                        x >= c,
                ;
            }
            if 0 <= x < c {
                assert(x / c == 0) by (nonlinear_arith)
                    requires
                        0 <= x < c,
                ;
            }
        }
        self.cooled()
    }

    fn temperature(&self) -> (r: i64) {
        self.temperature
    }

    fn stop(&self) -> (r: bool) {
        self.temperature < self.stopping
    }
}

/// A geometric cooling schedule: each update multiplies the temperature by
/// `numerator / denominator`, a factor strictly between 0 and 1, rounding down.
///
/// The threshold must be positive: the temperature falls to 0 and stays
/// there, so a schedule with a threshold of 0 or less would never stop.
pub struct Geometric {
    temperature: i64,
    numerator: i64,
    denominator: i64,
    stopping: i64,
}

impl Geometric {
    #[verifier::type_invariant]
    spec fn inv(self) -> bool {
        self.wf()
    }

    pub open spec fn wf(self) -> bool {
        0 < self.factor_numerator() < self.factor_denominator()
            && self.current() >= 0
            && self.threshold() > 0
    }

    pub closed spec fn current(self) -> i64 {
        self.temperature
    }

    pub closed spec fn factor_numerator(self) -> i64 {
        self.numerator
    }

    pub closed spec fn factor_denominator(self) -> i64 {
        self.denominator
    }

    pub closed spec fn threshold(self) -> i64 {
        self.stopping
    }

    /// The temperature after one update.
    pub open spec fn next_temperature(self) -> int {
        (self.current() * self.factor_numerator()) / (self.factor_denominator() as int)
    }

    /// Creates a `Geometric` schedule with factor `numerator / denominator`;
    /// a temperature below `stopping_value` stops the search.
    pub fn new(temperature: i64, numerator: i64, denominator: i64, stopping_value: i64) -> (r: Self)
        requires
            temperature >= 0,
            0 < numerator < denominator,
            stopping_value > 0,
        ensures
            r.wf(),
            r.current() == temperature,
            r.factor_numerator() == numerator,
            r.factor_denominator() == denominator,
            r.threshold() == stopping_value,
    {
        Geometric { temperature, numerator, denominator, stopping: stopping_value }
    }

    /// The schedule after one update.
    pub fn cooled(self) -> (r: Self)
        requires
            self.wf(),
        ensures
            r.wf(),
            r.current() == self.next_temperature(),
            r.current() <= self.current(),
            self.current() > 0 ==> r.current() < self.current(),
            r.factor_numerator() == self.factor_numerator(),
            r.factor_denominator() == self.factor_denominator(),
            r.threshold() == self.threshold(),
    {
        let t = self.temperature as i128;
        let n = self.numerator as i128;
        let d = self.denominator as i128;
        proof {
            assert(0 <= t * n <= t * d < 0x4000_0000_0000_0000_0000_0000_0000_0000)
                by (nonlinear_arith)
                requires
                    0 <= t < 0x8000_0000_0000_0000,
                    0 < n < d < 0x8000_0000_0000_0000,
            ;
            assert(t > 0 ==> t * n < t * d) by (nonlinear_arith)
                requires
                    0 <= t,
                    0 < n < d,
            ;
            assert((t * n) / (d as int) <= t && (t > 0 ==> (t * n) / (d as int) < t)) by (nonlinear_arith)
                requires
                    0 <= t * n <= t * d,
                    t > 0 ==> t * n < t * d,
                    d > 0,
            ;
        }
        let next = ((t * n) / d) as i64;
        Geometric::new(next, self.numerator, self.denominator, self.stopping)
    }
}

/// Geometric cooling never raises the temperature, and once the temperature
/// is below the stopping threshold it stays below it.
pub proof fn lemma_geometric_cooling_is_monotonic(s: Geometric)
    requires
        s.wf(),
    ensures
        s.next_temperature() <= s.current(),
        s.current() < s.threshold() ==> s.next_temperature() < s.threshold(),
{
    let t = s.current() as int;
    let n = s.factor_numerator() as int;
    let d = s.factor_denominator() as int;
    assert((t * n) / d <= t) by (nonlinear_arith)
        requires
            0 <= t,
            0 < n < d,
    ;
}

impl<T> Temperature<T> for Geometric {
    open spec fn spec_temperature(&self) -> i64 {
        self.current()
    }

    open spec fn spec_stop(&self) -> bool {
        self.current() < self.threshold()
    }

    open spec fn updates_left(&self) -> nat {
        if self.current() < self.threshold() {
            0
        } else {
            (self.current() + 1) as nat
        }
    }

    open spec fn spec_updates_to(&self, _s: &T, next: &Self) -> bool {
        &&& next.current() == self.next_temperature()
        &&& next.factor_numerator() == self.factor_numerator()
        &&& next.factor_denominator() == self.factor_denominator()
        &&& next.threshold() == self.threshold()
    }

    fn update(self, _s: &T) -> (r: Self)
        ensures
            r.current() == self.next_temperature(),
            r.current() <= self.current(),
            r.factor_numerator() == self.factor_numerator(),
            r.factor_denominator() == self.factor_denominator(),
            r.threshold() == self.threshold(),
    {
        proof {
            use_type_invariant(&self);
        }
        self.cooled()
    }

    fn temperature(&self) -> (r: i64) {
        self.temperature
    }

    fn stop(&self) -> (r: bool) {
        self.temperature < self.stopping
    }
}

} // verus!
