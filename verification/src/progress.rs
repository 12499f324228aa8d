//! Progress of a run of known length, as lines to show.

use crate::date::digit_char;
use vstd::prelude::*;
use vstd::string::*;

verus! {

/// The decimal digits of a number.
pub open spec fn decimal_text(n: nat) -> Seq<char>
    decreases n,
{
    if n < 10 {
        seq![digit_char(n as int)]
    } else {
        decimal_text(n / 10).push(digit_char((n % 10) as int))
    }
}

/// Writes a number in decimal.
pub fn to_decimal(n: usize) -> (r: String)
    ensures
        r@ == decimal_text(n as nat),
    decreases n,
{
    proof {
        reveal_strlit("0123456789");
    }
    let digits: &str = "0123456789";
    let d: usize = n % 10;
    let last: &str = digits.substring_char(d, d + 1);
    assert(last@ =~= seq![digit_char(d as int)]);
    if n < 10 {
        String::from_str(last)
    } else {
        let mut r = to_decimal(n / 10);
        r.append(last);
        assert(r@ =~= decimal_text((n / 10) as nat).push(digit_char(d as int)));
        r
    }
}

/// Counts the steps of a run and says when one is worth showing: each
/// step of a short run, each full percent of a long one.
pub struct ProgressIndicator {
    message: String,
    threshold: usize,
    max_threshold: String,
    is_percent: bool,
    current_step: usize,
}

impl ProgressIndicator {
    #[verifier::type_invariant]
    pub closed spec fn inv(self) -> bool {
        self.threshold >= 1
    }

    pub closed spec fn message(self) -> Seq<char> {
        self.message@
    }

    /// The number of steps between two lines.
    pub closed spec fn threshold(self) -> int {
        self.threshold as int
    }

    /// The text that stands for the whole run.
    pub closed spec fn max_threshold(self) -> Seq<char> {
        self.max_threshold@
    }

    pub closed spec fn is_percent(self) -> bool {
        self.is_percent
    }

    /// The number of steps taken.
    pub closed spec fn steps(self) -> int {
        self.current_step as int
    }

    /// The line for a step, where the step is shown.
    pub open spec fn line(self, step_number: int) -> Option<Seq<char>> {
        if self.threshold() > 0 && step_number % self.threshold() == 0 {
            let value = if self.is_percent() {
                step_number / self.threshold()
            } else {
                step_number
            };
            Some(
                self.message() + seq![' '] + decimal_text(value as nat) + seq!['/']
                    + self.max_threshold(),
            )
        } else {
            None
        }
    }

    /// An indicator for a run of `total_steps` steps. Up to 99 steps are
    /// counted one by one; from 100 steps on, progress is shown in percent.
    pub fn new(total_steps: usize, message: String) -> (r: ProgressIndicator)
        ensures
            r.message() == message@,
            r.steps() == 0,
            total_steps <= 99 ==> r.threshold() == 1 && !r.is_percent() && r.max_threshold()
                == decimal_text(total_steps as nat),
            total_steps > 99 ==> r.threshold() == total_steps / 100 && r.is_percent()
                && r.max_threshold() == seq!['1', '0', '0', '%'],
    {
        if total_steps <= 99 {
            ProgressIndicator {
                message,
                threshold: 1,
                max_threshold: to_decimal(total_steps),
                is_percent: false,
                current_step: 0,
            }
        } else {
            proof {
                reveal_strlit("100%");
                assert("100%"@ =~= seq!['1', '0', '0', '%']);
            }
            ProgressIndicator {
                message,
                threshold: total_steps / 100,
                max_threshold: String::from_str("100%"),
                is_percent: true,
                current_step: 0,
            }
        }
    }

    /// The number of steps taken so far.
    pub fn current_step(&self) -> (r: usize)
        ensures
            r == self.steps(),
    {
        self.current_step
    }

    /// The line to show for the given step, if it falls on the threshold.
    pub fn show_progress(&self, step_number: usize) -> (r: Option<String>)
        ensures
            r is Some == self.line(step_number as int) is Some,
            r matches Some(s) ==> Some(s@) == self.line(step_number as int),
    {
        proof {
            use_type_invariant(self);
            reveal_strlit(" ");
            reveal_strlit("/");
            assert(" "@ =~= seq![' ']);
            assert("/"@ =~= seq!['/']);
        }
        if step_number % self.threshold == 0 {
            let value: usize = if self.is_percent {
                step_number / self.threshold
            } else {
                step_number
            };
            let mut line = self.message.clone();
            line.append(" ");
            line.append(to_decimal(value).as_str());
            line.append("/");
            line.append(self.max_threshold.as_str());
            Some(line)
        } else {
            None
        }
    }

    /// Counts one step and gives the line to show for it, if any.
    pub fn step(&mut self) -> (r: Option<String>)
        requires
            old(self).steps() < usize::MAX,
        ensures
            final(self).steps() == old(self).steps() + 1,
            final(self).message() == old(self).message(),
            final(self).threshold() == old(self).threshold(),
            final(self).max_threshold() == old(self).max_threshold(),
            final(self).is_percent() == old(self).is_percent(),
            r is Some == old(self).line(old(self).steps() + 1) is Some,
            r matches Some(s) ==> Some(s@) == old(self).line(old(self).steps() + 1),
    {
        proof {
            use_type_invariant(&*self);
        }
        self.current_step = self.current_step + 1;
        self.show_progress(self.current_step)
    }
}

} // verus!
