//! Times of day as the interface shows them.

use vstd::prelude::*;

verus! {

/// The decimal digits, in order.
pub open spec fn decimal_digits() -> Seq<char> {
    "0123456789"@
}

/// `n` (below 100) as two decimal digits.
pub open spec fn two_digits(n: int) -> Seq<char> {
    seq![decimal_digits()[n / 10], decimal_digits()[n % 10]]
}

/// The text shown for an instant given in nanoseconds since the Unix epoch:
/// the UTC time of day as `HH:MM`, or a notice for an instant before the epoch.
pub open spec fn timestamp_text(nanos: i128) -> Seq<char> {
    if nanos < 0 {
        "Time went backwards"@
    } else {
        let seconds_today = (nanos / 1_000_000_000) % 86400;
        two_digits(seconds_today / 3600) + ":"@ + two_digits((seconds_today % 3600) / 60)
    }
}

fn push_two_digits(text: &mut String, n: u128)
    requires
        n < 100,
    ensures
        final(text)@ == old(text)@ + two_digits(n as int),
{
    let digits = "0123456789";
    proof {
        reveal_strlit("0123456789");
    }
    let tens = (n / 10) as usize;
    let ones = (n % 10) as usize;
    text.append(digits.substring_char(tens, tens + 1));
    text.append(digits.substring_char(ones, ones + 1));
    assert(digits@.subrange(tens as int, tens + 1) =~= seq![decimal_digits()[n as int / 10]]);
    assert(digits@.subrange(ones as int, ones + 1) =~= seq![decimal_digits()[n as int % 10]]);
    assert(final(text)@ =~= old(text)@ + two_digits(n as int));
}

/// The time of day of an instant (nanoseconds since the Unix epoch) as
/// `HH:MM`.
pub fn format_timestamp(nanos: i128) -> (res: String)
    ensures
        res@ == timestamp_text(nanos),
{
    if nanos < 0 {
        return String::from_str("Time went backwards");
    }
    let total_seconds: u128 = (nanos as u128) / 1_000_000_000;
    let seconds_today: u128 = total_seconds % 86400;
    let hours: u128 = seconds_today / 3600;
    let minutes: u128 = (seconds_today % 3600) / 60;
    let mut text = String::new();
    push_two_digits(&mut text, hours);
    text.append(":");
    push_two_digits(&mut text, minutes);
    assert(text@ =~= timestamp_text(nanos));
    text
}

} // verus!
