use vstd::prelude::*;

verus! {

/// The outcome of a test.
#[derive(Debug, Copy, Clone, PartialEq, Eq, Structural)]
pub enum TestResult {
    Success,
    Failure,
}

/// The outcome of a whole run, given the outcomes of its tests in order: a failure if any test
/// failed.
pub fn launch(outcomes: &Vec<TestResult>) -> (res: TestResult)
    ensures
        res == (if exists|i: int| 0 <= i < outcomes@.len() && outcomes@[i] == TestResult::Failure {
            TestResult::Failure
        } else {
            TestResult::Success
        }),
{
    let mut res = TestResult::Success;
    let mut i: usize = 0;
    while i < outcomes.len()
        invariant
            i <= outcomes@.len(),
            res == (if exists|j: int| 0 <= j < i && outcomes@[j] == TestResult::Failure {
                TestResult::Failure
            } else {
                TestResult::Success
            }),
        decreases outcomes@.len() - i,
    {
        match outcomes[i] {
            TestResult::Failure => {
                res = TestResult::Failure;
            },
            TestResult::Success => {},
        }
        i = i + 1;
    }
    res
}

/// The number of timer interrupts the timer test waits for.
pub const TIMER_TEST_INTERRUPTS: usize = 3;

/// The delay, in timer ticks, to which the timer test arms the timer.
pub const TIMER_TEST_DELAY: usize = 50_000;

/// One interrupt of the timer test, after `count` earlier ones: the new count, and the delay to
/// arm the timer with again, while fewer than the awaited number of interrupts came before.
pub fn timer_test_tick(count: usize) -> (r: (usize, Option<usize>))
    requires
        count < usize::MAX,
    ensures
        r.0 == count + 1,
        r.1 == if count < TIMER_TEST_INTERRUPTS {
            Some(TIMER_TEST_DELAY)
        } else {
            None
        },
{
    let rearm = if count < TIMER_TEST_INTERRUPTS {
        Some(TIMER_TEST_DELAY)
    } else {
        None
    };
    (count + 1, rearm)
}

/// The timer test is over once `count` interrupts came.
pub fn timer_test_done(count: usize) -> (b: bool)
    ensures
        b == (count >= TIMER_TEST_INTERRUPTS),
{
    count >= TIMER_TEST_INTERRUPTS
}

} // verus!
