use vstd::arithmetic::div_mod::{
    lemma_basic_div, lemma_div_by_multiple, lemma_div_is_ordered, lemma_div_pos_is_pos,
    lemma_fundamental_div_mod, lemma_mod_division_less_than_divisor,
};
use vstd::arithmetic::mul::lemma_mul_inequality;
use vstd::prelude::*;

verus! {

/// Largest day number the library supports, in either direction of the
/// Common Era epoch. It comfortably covers every date a proleptic
/// Gregorian calendar library can represent, while keeping all derived
/// arithmetic far away from machine overflow.
pub const MAX_DAY_NUMBER: i64 = 100_000_000;

/// The type of constraint that determines the timetable configuration.
#[derive(Clone, Copy, Debug, PartialEq, Eq, Structural)]
pub enum Constraint {
    /// The number of vehicles is specified.
    NumberOfVehicles(u16),
    /// The frequency a vehicle arrives at a station is specified,
    /// as a whole number of days between consecutive vehicles.
    Frequency(u16),
}

/// An error reported by the scheduler.
#[derive(Clone, Copy, Debug, PartialEq, Eq, Structural)]
pub enum TimetableError {
    /// The constraint carries a parameter no schedule can be built from:
    /// a frequency of zero days.
    InvalidConstraintParameter,
}

/// A calendar date, held as a day number: the count of days since the
/// Common Era epoch (day 1 is 0001-01-01 of the proleptic Gregorian
/// calendar, so 1970-01-01 is day 719163).
#[derive(Clone, Copy, Debug, PartialEq, Eq, Structural)]
pub struct Date {
    pub days: i64,
}

impl Date {
    /// The day number stays within the supported calendar range.
    pub open spec fn wf(self) -> bool {
        -MAX_DAY_NUMBER <= self.days <= MAX_DAY_NUMBER
    }
}

/// Whether a constraint is one the scheduler accepts: a frequency of
/// zero days would call for a division by zero and is rejected.
pub open spec fn constraint_valid(c: Constraint) -> bool {
    match c {
        Constraint::NumberOfVehicles(_) => true,
        Constraint::Frequency(f) => f > 0,
    }
}

/// `length / f` rounded to the nearest integer, ties away from zero.
/// For non-negative `length` this is `(2 * length + f) / (2 * f)` with
/// the division taken toward negative infinity; a negative `length` is
/// rounded on its magnitude and negated, so the rule is symmetric
/// around zero.
pub open spec fn round_half_from_zero(length: int, f: int) -> int
    recommends
        f > 0,
{
    if length >= 0 {
        (2 * length + f) / (2 * f)
    } else {
        -((2 * (-length) + f) / (2 * f))
    }
}

/// Clamp an integer into the range of a `u16` vehicle count: a negative
/// value gives no vehicles at all, an oversized one saturates.
pub open spec fn clamp_to_u16(x: int) -> int {
    if x < 0 {
        0
    } else if x > u16::MAX {
        u16::MAX as int
    } else {
        x
    }
}

/// The vehicle count a valid constraint resolves to: a direct count is
/// taken as it is; a frequency of `f` days over a span of `length` days
/// calls for `length / f` vehicles, rounded to the nearest whole number
/// (ties away from zero) and clamped into the `u16` range.
pub open spec fn spec_vehicle_count(length: int, c: Constraint) -> int
    recommends
        constraint_valid(c),
{
    match c {
        Constraint::NumberOfVehicles(n) => n as int,
        Constraint::Frequency(f) => clamp_to_u16(round_half_from_zero(length, f as int)),
    }
}

/// The offset, in whole days from the schedule's start date, of the
/// vehicle with index `i` out of `count`: the span scaled by `i / count`
/// with the result truncated toward zero, so the vehicles divide the
/// span evenly and no rounding error accumulates from one to the next.
pub open spec fn spec_offset_days(length: int, i: int, count: int) -> int
    recommends
        0 < count,
{
    if length >= 0 {
        (length * i) / count
    } else {
        -(((-length) * i) / count)
    }
}

/// A non-positive span never resolves to a positive vehicle count:
/// rounding a quotient of magnitude at most `|length| / f` away from
/// zero keeps its sign, and the clamp turns anything non-positive
/// into zero.
proof fn lemma_nonpositive_length_resolves_to_zero(length: int, f: int)
    requires
        length <= 0,
        f > 0,
    ensures
        clamp_to_u16(round_half_from_zero(length, f)) == 0,
{
    if length == 0 {
        lemma_basic_div(f, 2 * f);
    } else {
        lemma_div_pos_is_pos(2 * (-length) + f, 2 * f);
    }
}

/// The offset of the very first vehicle is exactly zero: it departs on
/// the schedule's start date itself.
proof fn lemma_offset_zero(length: int, count: int)
    requires
        0 < count,
    ensures
        spec_offset_days(length, 0, count) == 0,
{
    lemma_basic_div(0, count);
    if length >= 0 {
        assert(length * 0 == 0);
    } else {
        assert((-length) * 0 == 0);
    }
}

/// Scaling a non-negative magnitude by `i / count` with `i < count`
/// keeps the result between zero and the magnitude itself.
proof fn lemma_offset_magnitude_bound(mag: int, i: int, count: int)
    requires
        0 <= mag,
        0 <= i < count,
    ensures
        0 <= (mag * i) / count <= mag,
{
    lemma_mul_inequality(0, i, mag);
    lemma_mul_inequality(i, count, mag);
    lemma_div_pos_is_pos(mag * i, count);
    lemma_div_is_ordered(mag * i, mag * count, count);
    lemma_div_by_multiple(mag, count);
}

/// Offsets move with the vehicle index: outward from the start date
/// for a forward span, and never past an earlier vehicle either way.
proof fn lemma_offsets_monotonic(length: int, i: int, j: int, count: int)
    requires
        0 <= i <= j < count,
    ensures
        length >= 0 ==> spec_offset_days(length, i, count) <= spec_offset_days(length, j, count),
        length < 0 ==> spec_offset_days(length, j, count) <= spec_offset_days(length, i, count),
{
    if length >= 0 {
        lemma_mul_inequality(i, j, length);
        lemma_div_is_ordered(length * i, length * j, count);
    } else {
        lemma_mul_inequality(i, j, -length);
        lemma_div_is_ordered((-length) * i, (-length) * j, count);
    }
}

/// No systematic drift: over a forward span, each vehicle's whole-day
/// offset falls short of the exact rational offset `length * i / count`
/// by less than one day, however many vehicles precede it — the
/// truncation error never accumulates from one vehicle to the next.
pub proof fn lemma_offsets_do_not_drift(length: int, i: int, count: int)
    requires
        length >= 0,
        0 <= i < count,
    ensures
        0 <= length * i - count * spec_offset_days(length, i, count) < count,
{
    lemma_fundamental_div_mod(length * i, count);
    lemma_mod_division_less_than_divisor(length * i, count);
}

/// The frequency rule really picks a nearest whole count: for `f > 0`,
/// the rounded quotient `r = round_half_from_zero(length, f)` keeps
/// `r * f` within half of `f` of the span itself, and a tie (`length`
/// exactly halfway between two multiples of `f`) goes to the multiple
/// farther from zero.
pub proof fn lemma_round_half_from_zero_is_nearest(length: int, f: int)
    requires
        f > 0,
    ensures
        length >= 0 ==> -f <= 2 * (length - f * round_half_from_zero(length, f)) < f,
        length < 0 ==> -f < 2 * (length - f * round_half_from_zero(length, f)) <= f,
{
    if length >= 0 {
        let q = (2 * length + f) / (2 * f);
        lemma_fundamental_div_mod(2 * length + f, 2 * f);
        assert((2 * f) * q == 2 * (f * q)) by (nonlinear_arith);
    } else {
        let q = (2 * (-length) + f) / (2 * f);
        lemma_fundamental_div_mod(2 * (-length) + f, 2 * f);
        assert((2 * f) * q == 2 * (f * q)) by (nonlinear_arith);
        assert(f * -q == -(f * q)) by (nonlinear_arith);
    }
}

/// Restartability: the contract of `start_dates` pins every element of
/// the sequence down, so any two sequences that satisfy it — in
/// particular the results of two separate calls on the same timetable
/// value — are equal.
pub proof fn lemma_start_dates_deterministic(t: Timetable, d1: Seq<Date>, d2: Seq<Date>)
    requires
        constraint_valid(t.constraint),
        d1.len() == spec_vehicle_count(t.length as int, t.constraint),
        d2.len() == spec_vehicle_count(t.length as int, t.constraint),
        forall|i: int|
            0 <= i < d1.len() ==> (#[trigger] d1[i]).days == t.start_date.days + spec_offset_days(
                t.length as int,
                i,
                spec_vehicle_count(t.length as int, t.constraint),
            ),
        forall|i: int|
            0 <= i < d2.len() ==> (#[trigger] d2[i]).days == t.start_date.days + spec_offset_days(
                t.length as int,
                i,
                spec_vehicle_count(t.length as int, t.constraint),
            ),
    ensures
        d1 == d2,
{
    assert(d1 =~= d2);
}

/// A schedule for a fleet of vehicles: an immutable start date, span
/// and constraint, from which every vehicle's start date is derived on
/// demand.
pub struct Timetable {
    /// The date on which the first vehicle departs.
    pub start_date: Date,
    /// The total span the timetable covers, in whole days.
    pub length: i64,
    /// The constraint by which to fill in the rest of the timetable.
    pub constraint: Constraint,
}

impl Timetable {
    /// Both ends of the schedule's span lie within the supported
    /// calendar range, so every derived date does too.
    pub open spec fn wf(self) -> bool {
        &&& self.start_date.wf()
        &&& -MAX_DAY_NUMBER <= self.start_date.days + self.length <= MAX_DAY_NUMBER
    }

    /// Resolve a constraint to a concrete vehicle count over a span of
    /// `length` whole days.
    ///
    /// A direct vehicle count is returned as it is. A frequency `f > 0`
    /// gives `length / f` rounded to the nearest whole number, ties away
    /// from zero, clamped into the `u16` range; a frequency of zero is
    /// rejected rather than divided by.
    pub fn resolve_vehicle_count(length: i64, constraint: Constraint) -> (r: Result<
        u16,
        TimetableError,
    >)
        ensures
            constraint_valid(constraint) ==> (r matches Ok(n) && n == spec_vehicle_count(
                length as int,
                constraint,
            )),
            !constraint_valid(constraint) ==> r == Err::<u16, TimetableError>(
                TimetableError::InvalidConstraintParameter,
            ),
    {
        match constraint {
            Constraint::NumberOfVehicles(n) => Ok(n),
            Constraint::Frequency(f) => {
                if f == 0 {
                    Err(TimetableError::InvalidConstraintParameter)
                } else if length <= 0 {
                    proof {
                        lemma_nonpositive_length_resolves_to_zero(length as int, f as int);
                    }
                    Ok(0)
                } else {
                    let mag: u128 = length as u128;
                    let fw: u128 = f as u128;
                    let q: u128 = (2 * mag + fw) / (2 * fw);
                    if q > 65535 {
                        Ok(65535)
                    } else {
                        Ok(q as u16)
                    }
                }
            },
        }
    }

    /// Create a new OpenTTD timetable.
    ///
    /// # Arguments
    ///
    /// - `start_date` - The date on which the first vehicle departs.
    /// - `length` - The duration of the timetable, in whole days.
    /// - `constraint` - The constraint by which to fill in the rest
    ///     of the time table.
    pub fn from_constraint(start_date: Date, length: i64, constraint: Constraint) -> (t: Timetable)
        requires
            start_date.wf(),
            -MAX_DAY_NUMBER <= start_date.days + length <= MAX_DAY_NUMBER,
        ensures
            t == (Timetable { start_date, length, constraint }),
            t.wf(),
    {
        Timetable { start_date, length, constraint }
    }

    /// The start dates of all vehicles on this timetable, in vehicle
    /// order.
    ///
    /// The constraint is resolved to a vehicle count `count`; vehicle
    /// `i` of `0 .. count` then departs `length * i / count` whole days
    /// (truncated toward zero) after the start date, so the vehicles
    /// divide the span evenly and no rounding error accumulates. A
    /// count of zero gives an empty sequence before any division is
    /// attempted; a frequency of zero is rejected.
    #[verifier::loop_isolation(false)]
    pub fn start_dates(&self) -> (r: Result<Vec<Date>, TimetableError>)
        requires
            self.wf(),
        ensures
            constraint_valid(self.constraint) ==> (r matches Ok(dates) && {
                let count = spec_vehicle_count(self.length as int, self.constraint);
                &&& dates@.len() == count
                &&& forall|i: int|
                    0 <= i < count ==> (#[trigger] dates@[i]).days == self.start_date.days
                        + spec_offset_days(self.length as int, i, count)
                &&& forall|i: int| 0 <= i < count ==> (#[trigger] dates@[i]).wf()
                &&& count > 0 ==> dates@[0] == self.start_date
                &&& self.length >= 0 ==> forall|i: int, j: int|
                    #![trigger dates@[i], dates@[j]]
                    0 <= i <= j < count ==> dates@[i].days <= dates@[j].days
            }),
            !constraint_valid(self.constraint) ==> r == Err::<Vec<Date>, TimetableError>(
                TimetableError::InvalidConstraintParameter,
            ),
    {
        let count: u16 = match Self::resolve_vehicle_count(self.length, self.constraint) {
            Ok(c) => c,
            Err(e) => {
                return Err(e);
            },
        };
        let mut dates: Vec<Date> = Vec::new();
        if count == 0 {
            return Ok(dates);
        }
        let neg: bool = self.length < 0;
        let mag: u64 = if neg {
            (-self.length) as u64
        } else {
            self.length as u64
        };
        let mut i: u16 = 0;
        while i < count
            invariant
                i <= count,
                dates@.len() == i,
                forall|k: int|
                    0 <= k < i ==> (#[trigger] dates@[k]).days == self.start_date.days
                        + spec_offset_days(self.length as int, k, count as int),
                forall|k: int| 0 <= k < i ==> (#[trigger] dates@[k]).wf(),
            decreases count - i,
        {
            proof {
                lemma_mul_inequality(i as int, u16::MAX as int, mag as int);
                lemma_offset_magnitude_bound(mag as int, i as int, count as int);
            }
            let off_mag: u64 = (mag * (i as u64)) / (count as u64);
            let offset: i64 = if neg {
                -(off_mag as i64)
            } else {
                off_mag as i64
            };
            dates.push(Date { days: self.start_date.days + offset });
            i = i + 1;
        }
        proof {
            lemma_offset_zero(self.length as int, count as int);
            assert forall|a: int, b: int|
                #![trigger dates@[a], dates@[b]]
                self.length >= 0 && 0 <= a <= b < count implies dates@[a].days
                <= dates@[b].days by {
                lemma_offsets_monotonic(self.length as int, a, b, count as int);
            }
        }
        Ok(dates)
    }
}

} // verus!
