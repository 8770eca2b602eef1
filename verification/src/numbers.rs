//! Small exercises on integers: parity, guessing, sums over a range walked
//! in steps, and a scan of a list.

use vstd::prelude::*;

verus! {

/// Whether `n` is divisible by two.
pub fn is_even(n: i32) -> (even: bool)
    ensures
        even == (n % 2 == 0),
{
    n % 2 == 0
}

/// What a number is called out as in the counting game.
#[derive(Debug, Clone, Copy, PartialEq, Eq, Structural)]
pub enum Call {
    /// Divisible by three and by five.
    FizzBuzz,
    /// Divisible by three only.
    Fizz,
    /// Divisible by five only.
    Buzz,
    /// Divisible by neither: nothing is called.
    Number,
}

/// What `n` is called out as.
pub open spec fn spec_fizz_buzz(n: i32) -> Call {
    if n % 3 == 0 && n % 5 == 0 {
        Call::FizzBuzz
    } else if n % 3 == 0 {
        Call::Fizz
    } else if n % 5 == 0 {
        Call::Buzz
    } else {
        Call::Number
    }
}

/// What `n` is called out as: by divisibility by three and by five.
pub fn fizz_buzz(n: i32) -> (call: Call)
    ensures
        call == spec_fizz_buzz(n),
{
    if n % 3 == 0 && n % 5 == 0 {
        Call::FizzBuzz
    } else if n % 3 == 0 {
        Call::Fizz
    } else if n % 5 == 0 {
        Call::Buzz
    } else {
        Call::Number
    }
}

/// The sum of the members of `nums`.
pub open spec fn sum_of(nums: Seq<i32>) -> int
    decreases nums.len(),
{
    if nums.len() == 0 {
        0
    } else {
        sum_of(nums.drop_last()) + nums.last()
    }
}

/// Whether every sum of a leading part of `nums` is an `i32`.
pub open spec fn sums_fit(nums: Seq<i32>) -> bool {
    forall|n: int| 0 <= n <= nums.len() ==> i32::MIN <= #[trigger] sum_of(nums.take(n)) <= i32::MAX
}

/// Adds up the members of `nums` from the first to the last. The running sum
/// must stay an `i32` all the way.
pub fn sum(nums: &[i32]) -> (total: i32)
    requires
        sums_fit(nums@),
    ensures
        total == sum_of(nums@),
{
    let mut total: i32 = 0;
    let mut i: usize = 0;
    while i < nums.len()
        invariant
            i <= nums.len(),
            total == sum_of(nums@.take(i as int)),
            sums_fit(nums@),
        decreases nums.len() - i,
    {
        proof {
            assert(nums@.take(i + 1).drop_last() =~= nums@.take(i as int));
            assert(i32::MIN <= sum_of(nums@.take(i + 1)) <= i32::MAX);
        }
        total += nums[i];
        i += 1;
    }
    proof {
        assert(nums@.take(nums.len() as int) =~= nums@);
    }
    total
}

/// The largest member of a list that has one: a member that no other
/// exceeds.
pub fn largest(nums: &[i32]) -> (max: i32)
    requires
        nums.len() > 0,
    ensures
        nums@.contains(max),
        forall|i: int| 0 <= i < nums.len() ==> nums[i] <= max,
{
    let mut max: i32 = nums[0];
    let mut index: usize = 0;
    loop
        invariant_except_break
            index < nums.len(),
        invariant
            index <= nums.len(),
            nums@.contains(max),
            forall|i: int| 0 <= i < index ==> nums[i] <= max,
        ensures
            index == nums.len(),
        decreases nums.len() - index,
    {
        if nums[index] > max {
            max = nums[index];
        }
        index += 1;
        if index >= nums.len() {
            break ;
        }
    }
    max
}

/// How a guess stands to the secret: `-1` if it is too low, `1` if it is too
/// high, `0` if it is right.
pub open spec fn spec_check_guess(guess: i32, secret: i32) -> int {
    if guess < secret {
        -1
    } else if guess > secret {
        1
    } else {
        0
    }
}

/// How a guess stands to the secret: `-1` if it is too low, `1` if it is too
/// high, `0` if it is right.
pub fn check_guess(guess: i32, secret: i32) -> (verdict: i32)
    ensures
        verdict == spec_check_guess(guess, secret),
{
    if guess < secret {
        -1
    } else if guess > secret {
        1
    } else {
        0
    }
}

/// The distance between two numbers.
pub open spec fn distance(a: int, b: int) -> int {
    if a <= b {
        b - a
    } else {
        a - b
    }
}

/// Plays the guessing game from `first` on, moving the guess by one towards
/// the secret after each wrong guess, and counts the guesses made, the right
/// one included: one more than the distance from `first` to the secret. The
/// count must fit an `i32`.
pub fn guesses_needed(first: i32, secret: i32) -> (attempts: i32)
    requires
        distance(first as int, secret as int) < i32::MAX,
    ensures
        attempts == distance(first as int, secret as int) + 1,
{
    let mut guess: i32 = first;
    let mut attempts: i32 = 0;
    loop
        invariant_except_break
            attempts == distance(first as int, guess as int),
        invariant
            distance(first as int, secret as int) < i32::MAX,
            distance(first as int, guess as int) + distance(guess as int, secret as int)
                == distance(first as int, secret as int),
        ensures
            attempts == distance(first as int, secret as int) + 1,
        decreases distance(guess as int, secret as int),
    {
        attempts += 1;
        let verdict = check_guess(guess, secret);
        if verdict == 0 {
            break ;
        } else if verdict == -1 {
            guess += 1;
        } else {
            guess -= 1;
        }
    }
    attempts
}

/// How many whole numbers lie from `low` to `high`, both included.
pub open spec fn span(low: int, high: int) -> nat {
    if low <= high {
        (high - low + 1) as nat
    } else {
        0
    }
}

/// The sum of the numbers `low`, `low + step`, `low + 2 * step`, ... that do
/// not exceed `high`.
pub open spec fn step_sum(low: int, high: int, step: int) -> int
    decreases span(low, high),
{
    if low > high || step <= 0 {
        0
    } else {
        low + step_sum(low + step, high, step)
    }
}

/// Whether adding those numbers to `total` one after the other, and walking
/// from each to the next, stays within `i32` all the way. A walk from a `low`
/// that does not exceed `high` needs a positive step to end.
pub open spec fn walk_fits(total: int, low: int, high: int, step: int) -> bool
    decreases span(low, high),
{
    if low > high {
        true
    } else if step <= 0 {
        false
    } else {
        &&& i32::MIN <= total + low <= i32::MAX
        &&& low + step <= i32::MAX
        &&& walk_fits(total + low, low + step, high, step)
    }
}

/// Adds to `total` the numbers `low`, `low + step`, `low + 2 * step`, ...
/// that do not exceed `high`. With `low` above `high` nothing is added.
pub fn sum_with_step(total: &mut i32, low: i32, high: i32, step: i32)
    requires
        walk_fits(*old(total) as int, low as int, high as int, step as int),
    ensures
        *final(total) == *old(total) + step_sum(low as int, high as int, step as int),
{
    let mut current: i32 = low;
    while current <= high
        invariant
            walk_fits(*total as int, current as int, high as int, step as int),
            *total + step_sum(current as int, high as int, step as int) == *old(total) + step_sum(
                low as int,
                high as int,
                step as int,
            ),
        decreases span(current as int, high as int),
    {
        *total += current;
        current += step;
    }
}

} // verus!
