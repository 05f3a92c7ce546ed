//! Sending progress: how far a scan has come, how long it has to go, and when to
//! say so.

use crate::duration::Duration;
use crate::text::decimal_text;
use vstd::prelude::*;

verus! {

/// A minute, in nanoseconds.
pub const ONE_MINUTE: u64 = 60_000_000_000;

/// Ten minutes, in nanoseconds.
pub const TEN_MINUTES: u64 = 600_000_000_000;

/// Half an hour, in nanoseconds.
pub const THIRTY_MINUTES: u64 = 1_800_000_000_000;

/// An hour, in nanoseconds.
pub const ONE_HOUR: u64 = 3_600_000_000_000;

/// Sending progress reported during a scan.
#[derive(Clone, Copy, Debug, PartialEq, Eq, Structural)]
#[non_exhaustive]
pub struct ScanProgress {
    /// Number of probes sent so far.
    pub probes_sent: usize,
    /// Total number of probes in the scan.
    pub total_probes: usize,
    /// Time elapsed since sending began.
    pub elapsed: Duration,
}

/// The percentage that `sent` is of `total`, rounded down. A hundred times `sent`
/// is held at the largest `usize`.
pub open spec fn percentage(sent: usize, total: usize) -> nat {
    if total == 0 {
        0
    } else if sent * 100 <= usize::MAX {
        (sent * 100) as nat / total as nat
    } else {
        usize::MAX as nat / total as nat
    }
}

impl ScanProgress {
    /// The number of probes still to send.
    pub open spec fn remaining(self) -> nat {
        if self.probes_sent < self.total_probes {
            (self.total_probes - self.probes_sent) as nat
        } else {
            0
        }
    }

    /// Whether the remaining time can be estimated: something was sent, and the
    /// counts and the time are not too large.
    pub open spec fn can_estimate(self) -> bool {
        &&& 0 < self.probes_sent <= u32::MAX
        &&& self.remaining() <= u32::MAX
        &&& self.elapsed@ * self.remaining() <= crate::duration::longest()
    }

    /// Creates a progress snapshot from the given probe counts and elapsed time.
    #[must_use]
    pub fn new(probes_sent: usize, total_probes: usize, elapsed: Duration) -> (progress: Self)
        ensures
            progress == (ScanProgress { probes_sent, total_probes, elapsed }),
    {
        ScanProgress { probes_sent, total_probes, elapsed }
    }

    /// Returns the integer completion percentage.
    #[must_use]
    pub fn percent(self) -> (percent: usize)
        ensures
            percent == percentage(self.probes_sent, self.total_probes),
    {
        if self.total_probes == 0 {
            return 0;
        }
        let scaled: usize = if self.probes_sent <= usize::MAX / 100 {
            self.probes_sent * 100
        } else {
            usize::MAX
        };
        scaled / self.total_probes
    }

    /// Estimates the time required to send the remaining probes: as long for each
    /// as the probes sent so far took on average.
    #[must_use]
    pub fn estimated_remaining(self) -> (time: Option<Duration>)
        ensures
            time is Some <==> self.can_estimate(),
            time matches Some(time) ==> time@ == self.elapsed@ * self.remaining()
                / self.probes_sent as nat,
    {
        if self.probes_sent as u64 > u32::MAX as u64 {
            return None;
        }
        let remaining: usize = self.total_probes.saturating_sub(self.probes_sent);
        if remaining as u64 > u32::MAX as u64 {
            return None;
        }
        if self.probes_sent == 0 {
            return None;
        }
        match self.elapsed.checked_mul(remaining as u32) {
            Some(product) => product.checked_div(self.probes_sent as u32),
            None => None,
        }
    }
}

/// The time between a deadline for progress and the next one: a minute for the
/// first ten minutes, ten minutes through the first hour, half an hour after
/// that.
pub open spec fn step_after(deadline: nat) -> nat {
    if deadline < TEN_MINUTES {
        ONE_MINUTE as nat
    } else if deadline < ONE_HOUR {
        TEN_MINUTES as nat
    } else {
        THIRTY_MINUTES as nat
    }
}

/// How far `deadline` is from being after `elapsed`.
pub open spec fn shortfall(deadline: nat, elapsed: nat) -> nat {
    if deadline > elapsed {
        0
    } else {
        (elapsed + 1 - deadline) as nat
    }
}

/// The first deadline after `elapsed`, from `deadline` on.
pub open spec fn advanced(deadline: nat, elapsed: nat) -> nat
    decreases shortfall(deadline, elapsed),
{
    if deadline > elapsed {
        deadline
    } else {
        advanced(deadline + step_after(deadline), elapsed)
    }
}

/// Whether progress is to be reported at `time`: each minute for ten minutes, each
/// ten minutes for an hour, each half hour after that.
pub open spec fn on_schedule(time: nat) -> bool {
    &&& time > 0
    &&& {
        ||| time <= TEN_MINUTES && time % ONE_MINUTE as nat == 0
        ||| time <= ONE_HOUR && time % TEN_MINUTES as nat == 0
        ||| time >= ONE_HOUR && time % THIRTY_MINUTES as nat == 0
    }
}

/// The deadline for progress that follows `previous`.
pub fn next_progress_deadline(previous: Duration) -> (next: Duration)
    requires
        previous@ + step_after(previous@) <= crate::duration::longest(),
    ensures
        next@ == previous@ + step_after(previous@),
{
    let nanos = previous.as_nanos();
    let step: u64 = if nanos < TEN_MINUTES as u128 {
        ONE_MINUTE
    } else if nanos < ONE_HOUR as u128 {
        TEN_MINUTES
    } else {
        THIRTY_MINUTES
    };
    previous.checked_add(Duration::from_nanos(step)).unwrap()
}

/// The first deadline for progress after `elapsed`, from `deadline` on.
pub fn advance_progress_deadline(deadline: Duration, elapsed: Duration) -> (next: Duration)
    requires
        advanced(deadline@, elapsed@) <= crate::duration::longest(),
    ensures
        next@ == advanced(deadline@, elapsed@),
{
    let mut next = deadline;
    while next.as_nanos() <= elapsed.as_nanos()
        invariant
            advanced(next@, elapsed@) == advanced(deadline@, elapsed@),
            advanced(deadline@, elapsed@) <= crate::duration::longest(),
        decreases shortfall(next@, elapsed@),
    {
        proof {
            lemma_advanced_later(next@ + step_after(next@), elapsed@);
        }
        next = next_progress_deadline(next);
    }
    next
}

/// No deadline is passed over backwards.
proof fn lemma_advanced_later(deadline: nat, elapsed: nat)
    ensures
        deadline <= advanced(deadline, elapsed),
    decreases shortfall(deadline, elapsed),
{
    if deadline <= elapsed {
        lemma_advanced_later(deadline + step_after(deadline), elapsed);
    }
}

/// `chrono::Duration::from_std`: the same time where it is at most `i64::MAX`
/// milliseconds, nothing where it is longer.
#[verifier::external_body]
fn chrono_from_std(secs: u64, nanos: u32) -> (delta: Option<(i64, i32)>)
    requires
        nanos < 1_000_000_000,
    ensures
        delta is Some <==> secs * 1_000_000_000 + nanos <= i64::MAX * 1_000_000,
        delta matches Some(delta) ==> delta.0 == secs && delta.1 == nanos,
{
    chrono::Duration::from_std(std::time::Duration::new(secs, nanos)).ok().map(
        |delta| (delta.num_seconds(), delta.subsec_nanos()),
    )
}

/// Whether a second, counted from the beginning of 1970, is in the years that
/// `chrono` knows, from -262143 through 262142.
pub open spec fn in_calendar(secs: int) -> bool {
    -8_334_601_228_800 <= secs <= 8_210_266_876_799
}

/// The time that is some nanoseconds after another, where both are in the calendar.
///
/// A leap second follows the last second of a minute and is written as that second
/// with a second more of nanoseconds. A time that stays in its leap second is
/// written so too. One that leaves it is counted as if the leap second were the
/// second it follows.
pub open spec fn calendar_time_after(secs: i64, nanos: u32, delay: int) -> Option<(i64, u32)> {
    let total = secs * 1_000_000_000 + nanos as int % 1_000_000_000 + delay;
    let leap = nanos >= 1_000_000_000;
    if !in_calendar(secs as int) || nanos >= 2_000_000_000 || leap && secs as int % 60 != 59 {
        None
    } else if leap && nanos + delay < 2_000_000_000 {
        Some((secs, (nanos + delay) as u32))
    } else if in_calendar(total / 1_000_000_000) {
        Some(((total / 1_000_000_000) as i64, (total % 1_000_000_000) as u32))
    } else {
        None
    }
}

/// `chrono::DateTime::<Utc>::checked_add_signed`, from the time that
/// `DateTime::from_timestamp` makes: the time after a delay, where there is such a
/// time and it and the time before the delay are in the calendar.
#[verifier::external_body]
fn chrono_checked_add_signed(secs: i64, nanos: u32, delay_secs: i64, delay_nanos: i32) -> (sum:
    Option<(i64, u32)>)
    requires
        0 <= delay_secs,
        0 <= delay_nanos < 1_000_000_000,
        delay_secs * 1_000_000_000 + delay_nanos <= i64::MAX * 1_000_000,
    ensures
        sum == calendar_time_after(secs, nanos, delay_secs * 1_000_000_000 + delay_nanos),
{
    let delay = chrono::Duration::new(delay_secs, delay_nanos as u32).unwrap();
    chrono::DateTime::from_timestamp(secs, nanos).and_then(
        |time| time.checked_add_signed(delay),
    ).map(|time| (time.timestamp(), time.timestamp_subsec_nanos()))
}

/// The time from a progress report to the expected end of sending, in seconds and
/// nanoseconds. There is none where the time cannot be estimated or is more than a
/// calendar can add.
pub fn eta_delay(progress: ScanProgress) -> (delay: Option<(i64, i32)>)
    ensures
        delay is Some <==> {
            &&& progress.can_estimate()
            &&& progress.elapsed@ * progress.remaining() / progress.probes_sent as nat <= i64::MAX
                * 1_000_000
        },
        delay matches Some(delay) ==> {
            let nanos = progress.elapsed@ * progress.remaining() / progress.probes_sent as nat;
            delay.0 == nanos / 1_000_000_000 && delay.1 == nanos % 1_000_000_000
        },
{
    match progress.estimated_remaining() {
        Some(time) => chrono_from_std(time.as_secs(), time.subsec_nanos()),
        None => None,
    }
}

/// The time at which sending is expected to end, in seconds and nanoseconds since
/// the beginning of 1970, given the time of the progress report in the same form.
/// There is none where the delay is not known or leads out of the calendar.
pub fn eta_time(progress: ScanProgress, now_secs: i64, now_nanos: u32) -> (eta: Option<(i64, u32)>)
    ensures
        ({
            let delay = progress.elapsed@ * progress.remaining() / progress.probes_sent as nat;
            if progress.can_estimate() && delay <= i64::MAX * 1_000_000 {
                eta == calendar_time_after(now_secs, now_nanos, delay as int)
            } else {
                eta is None
            }
        }),
{
    match eta_delay(progress) {
        Some((secs, nanos)) => chrono_checked_add_signed(now_secs, now_nanos, secs, nanos),
        None => None,
    }
}

/// A deadline on the schedule is advanced to the first time on the schedule, from
/// that deadline on, that is after `elapsed`.
pub proof fn law_progress_schedule(deadline: nat, elapsed: nat)
    requires
        on_schedule(deadline),
    ensures
        on_schedule(advanced(deadline, elapsed)),
        deadline <= advanced(deadline, elapsed),
        elapsed < advanced(deadline, elapsed),
        forall|time: nat|
            #![trigger on_schedule(time)]
            on_schedule(time) && deadline <= time && elapsed < time ==> advanced(deadline, elapsed)
                <= time,
    decreases shortfall(deadline, elapsed),
{
    if deadline <= elapsed {
        let next = deadline + step_after(deadline);
        assert(on_schedule(next));
        assert forall|time: nat|
            #![trigger on_schedule(time)]
            on_schedule(time) && deadline < time implies next <= time by {}
        law_progress_schedule(next, elapsed);
    }
}

/// The wait for the next report is at most half an hour.
pub proof fn law_report_gap(deadline: nat, elapsed: nat)
    requires
        deadline <= elapsed,
    ensures
        advanced(deadline, elapsed) <= elapsed + THIRTY_MINUTES,
    decreases shortfall(deadline, elapsed),
{
    let next = deadline + step_after(deadline);
    if next <= elapsed {
        law_report_gap(next, elapsed);
    } else {
        assert(advanced(next, elapsed) == next);
    }
}

/// Reports start a minute into a scan: the first deadline is the first time on the
/// schedule.
pub proof fn law_first_report(time: nat)
    ensures
        on_schedule(ONE_MINUTE as nat),
        on_schedule(time) ==> ONE_MINUTE <= time,
{
}

/// The percentage never falls as probes are sent, and is below a hundred until all
/// are sent. It is a hundred then, unless a hundred times their number is more than
/// the largest `usize`.
pub proof fn law_percentage(sent: usize, more: usize, total: usize)
    ensures
        sent <= more ==> percentage(sent, total) <= percentage(more, total),
        sent < total ==> percentage(sent, total) < 100,
        0 < total && total * 100 <= usize::MAX ==> percentage(total, total) == 100,
{
    if total > 0 {
        let held = |count: usize|
            if count * 100 <= usize::MAX {
                count * 100
            } else {
                usize::MAX as int
            };
        if sent <= more {
            vstd::arithmetic::div_mod::lemma_div_is_ordered(
                held(sent),
                held(more),
                total as int,
            );
        }
        if sent < total {
            vstd::arithmetic::div_mod::lemma_multiply_divide_lt(held(sent), total as int, 100);
        }
        vstd::arithmetic::div_mod::lemma_div_multiples_vanish(100, total as int);
    }
}

/// The estimate gives each remaining probe the average time of the probes sent, to
/// within a nanosecond in all.
pub proof fn law_estimate(progress: ScanProgress)
    requires
        progress.can_estimate(),
    ensures
        ({
            let time = progress.elapsed@ * progress.remaining() / progress.probes_sent as nat;
            &&& time * progress.probes_sent <= progress.elapsed@ * progress.remaining()
            &&& progress.elapsed@ * progress.remaining() < (time + 1) * progress.probes_sent
            &&& progress.remaining() == 0 ==> time == 0
        }),
{
    let product = (progress.elapsed@ * progress.remaining()) as int;
    let sent = progress.probes_sent as int;
    vstd::arithmetic::div_mod::lemma_fundamental_div_mod(product, sent);
    vstd::arithmetic::mul::lemma_mul_is_distributive_add_other_way(sent, product / sent, 1);
    vstd::arithmetic::mul::lemma_mul_is_commutative(sent, product / sent);
    if progress.remaining() == 0 {
        vstd::arithmetic::mul::lemma_mul_basics(progress.elapsed@ as int);
        vstd::arithmetic::div_mod::lemma_div_of0(sent);
    }
}

/// The line of a progress report.
pub open spec fn progress_line(percent: nat, eta: Option<Seq<char>>) -> Seq<char> {
    "[stats] "@ + crate::text::decimal(percent) + "% done | ETA "@ + match eta {
        Some(eta) => eta,
        None => "unknown"@,
    }
}

/// Formats a progress report, given the text of the expected end of sending where
/// there is one.
pub fn format_progress(progress: ScanProgress, eta: Option<&str>) -> (line: String)
    ensures
        line@ == progress_line(
            percentage(progress.probes_sent, progress.total_probes),
            match eta {
                Some(eta) => Some(eta@),
                None => None,
            },
        ),
{
    let mut line = "[stats] ".to_string();
    line.append(decimal_text(progress.percent() as u64).as_str());
    line.append("% done | ETA ");
    match eta {
        Some(eta) => line.append(eta),
        None => line.append("unknown"),
    }
    line
}

/// The percentage in numbers: of a hundred times the probes sent, held at the largest
/// `usize`, as many times the total as go into it.
pub proof fn law_percentage_in_numbers(sent: usize, total: usize)
    ensures
        total == 0 ==> percentage(sent, total) == 0,
        ({
            let scaled = if sent * 100 <= usize::MAX {
                sent * 100
            } else {
                usize::MAX as int
            };
            total > 0 ==> percentage(sent, total) * total <= scaled < (percentage(sent, total) + 1)
                * total
        }),
{
    if total > 0 {
        let scaled = if sent * 100 <= usize::MAX {
            sent * 100
        } else {
            usize::MAX as int
        };
        vstd::arithmetic::div_mod::lemma_fundamental_div_mod(scaled, total as int);
        vstd::arithmetic::mul::lemma_mul_is_distributive_add_other_way(
            total as int,
            scaled / total as int,
            1,
        );
        vstd::arithmetic::mul::lemma_mul_is_commutative(total as int, scaled / total as int);
    }
}

/// What an estimate needs: a probe sent, at most 4294967295 probes sent and as many
/// still to send, and a product of the time and the probes still to send that is no
/// longer than the longest duration. The probes still to send are those of the total
/// that were not sent, and none where more were sent.
pub proof fn law_what_can_be_estimated(progress: ScanProgress)
    ensures
        progress.probes_sent <= progress.total_probes ==> progress.probes_sent
            + progress.remaining() == progress.total_probes,
        progress.probes_sent > progress.total_probes ==> progress.remaining() == 0,
        progress.can_estimate() <==> 1 <= progress.probes_sent <= 4294967295 && progress.remaining()
            <= 4294967295 && progress.elapsed@ * progress.remaining()
            <= 18_446_744_073_709_551_615_999_999_999,
{
    crate::duration::law_longest();
}

/// The times of reports, in nanoseconds: the minutes through ten, the tens of minutes
/// through an hour, and the half hours from then on.
pub proof fn law_times_of_reports(minutes: nat, part: nat)
    requires
        part < 60_000_000_000,
    ensures
        on_schedule(minutes * 60_000_000_000 + part) <==> part == 0 && minutes > 0 && (minutes <= 10
            || minutes <= 60 && minutes % 10 == 0 || minutes >= 60 && minutes % 30 == 0),
{
    let time = minutes * 60_000_000_000 + part;
    assert(time % 60_000_000_000 == part);
    assert(time % 600_000_000_000 == minutes % 10 * 60_000_000_000 + part);
    assert(time % 1_800_000_000_000 == minutes % 30 * 60_000_000_000 + part);
}

/// The deadlines one after the other: a minute later before ten minutes, ten minutes
/// later before an hour, and half an hour later from then on. A deadline that is past
/// is passed over to the next one, and one that is not stays.
pub proof fn law_deadlines(deadline: nat, elapsed: nat)
    ensures
        deadline < 600_000_000_000 ==> step_after(deadline) == 60_000_000_000,
        600_000_000_000 <= deadline < 3_600_000_000_000 ==> step_after(deadline)
            == 600_000_000_000,
        deadline >= 3_600_000_000_000 ==> step_after(deadline) == 1_800_000_000_000,
        deadline > elapsed ==> advanced(deadline, elapsed) == deadline,
        deadline <= elapsed ==> advanced(deadline, elapsed) == advanced(
            deadline + step_after(deadline),
            elapsed,
        ),
{
}

/// The time after a delay, of an ordinary time: it is later by the delay, and there is
/// one exactly where both times are in the years from -262143 through 262142.
pub proof fn law_time_after_delay(secs: i64, nanos: u32, delay: nat, eta: int, part: int)
    requires
        nanos < 1_000_000_000,
        0 <= part < 1_000_000_000,
        eta * 1_000_000_000 + part == secs * 1_000_000_000 + nanos + delay,
    ensures
        ({
            let after = calendar_time_after(secs, nanos, delay as int);
            &&& after is Some <==> -8_334_601_228_800 <= secs && eta <= 8_210_266_876_799
            &&& after matches Some((end, rest)) ==> end == eta && rest == part
        }),
{
    let total = secs * 1_000_000_000 + nanos + delay;
    vstd::arithmetic::div_mod::lemma_fundamental_div_mod_converse(total, 1_000_000_000, eta, part);
}

/// The time after a delay, of a time in a leap second, which is the last second of a
/// minute with a second more of nanoseconds: it stays in the leap second where the
/// delay is short enough, and is otherwise as late as from the same part of the second
/// before.
pub proof fn law_time_after_leap_second(secs: i64, nanos: u32, delay: nat)
    requires
        nanos >= 1_000_000_000,
    ensures
        ({
            let after = calendar_time_after(secs, nanos, delay as int);
            let leap = secs as int % 60 == 59 && nanos < 2_000_000_000;
            let known = -8_334_601_228_800 <= secs <= 8_210_266_876_799;
            &&& !leap || !known ==> after is None
            &&& leap && known && nanos + delay < 2_000_000_000 ==> after == Some(
                (secs, (nanos + delay) as u32),
            )
            &&& leap && known && nanos + delay >= 2_000_000_000 ==> after == calendar_time_after(
                secs,
                (nanos - 1_000_000_000) as u32,
                delay as int,
            )
        }),
{
}

/// What a report of progress says.
pub proof fn law_progress_line(percent: nat, eta: Seq<char>)
    ensures
        progress_line(percent, Some(eta)) == "[stats] "@ + crate::text::decimal(percent)
            + "% done | ETA "@ + eta,
        progress_line(percent, None) == "[stats] "@ + crate::text::decimal(percent)
            + "% done | ETA unknown"@,
{
    reveal_strlit("% done | ETA ");
    reveal_strlit("unknown");
    reveal_strlit("% done | ETA unknown");
    assert(progress_line(percent, None) =~= "[stats] "@ + crate::text::decimal(percent)
        + "% done | ETA unknown"@);
}

} // verus!
