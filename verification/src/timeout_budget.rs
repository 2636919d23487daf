//! The time that is left for a request, handed from hop to hop in a header.

use crate::headers::{
    field_text, get_text, has_room_for, header_fields, is_visible_text, lemma_known_names,
    refused, set_text, text_round_trip, with_text, HeadersFull,
};
use crate::text::{
    all_digits, decimal, decimal_round_trip, digits_value, is_digit, lemma_decimal,
    numbers_are_digits, parse_u64, parsed_u64, u64_to_string,
};
use crate::time::{age_of, is_age, is_present, present, Duration, NANOS_PER_MILLI};
use crate::types::GLOBAL_TIMEOUT_HEADER;
use http::header::HeaderMap;
use std::time::Instant;
use vstd::prelude::*;

verus! {

/// A span of time that started at some moment.
#[derive(Debug, Clone, Copy)]
pub struct TimeoutBudget {
    pub start_time: Instant,
    pub total_budget: Duration,
}

/// The milliseconds that the headers grant, where they say so.
pub open spec fn granted_ms(fields: Map<Seq<char>, Seq<Seq<u8>>>) -> Option<u64> {
    match field_text(fields, GLOBAL_TIMEOUT_HEADER@) {
        Some(text) => parsed_u64(text),
        None => None,
    }
}

/// The milliseconds that a request gets: what its headers grant, or else a default.
pub open spec fn budget_ms(fields: Map<Seq<char>, Seq<Seq<u8>>>, default_ms: u64) -> u64 {
    match granted_ms(fields) {
        Some(ms) => ms,
        None => default_ms,
    }
}

/// The headers with the remaining time in them.
pub open spec fn with_granted(
    fields: Map<Seq<char>, Seq<Seq<u8>>>,
    ms: u64,
) -> Map<Seq<char>, Seq<Seq<u8>>> {
    with_text(fields, GLOBAL_TIMEOUT_HEADER@, decimal(ms as nat))
}

impl TimeoutBudget {
    /// What is left after some time: the total less that time, and never less than
    /// nothing.
    pub open spec fn left(self, elapsed: Duration) -> Duration {
        Duration {
            nanos: if self.total_budget.nanos >= elapsed.nanos {
                (self.total_budget.nanos - elapsed.nanos) as u128
            } else {
                0
            },
        }
    }

    /// A budget that starts now.
    pub fn new(total_budget_ms: u64) -> (r: Self)
        ensures
            r.total_budget.nanos == total_budget_ms * NANOS_PER_MILLI,
            is_present(r.start_time),
    {
        TimeoutBudget {
            start_time: present(),
            total_budget: Duration::from_millis(total_budget_ms),
        }
    }

    /// The budget that the headers grant, or else a default one; with it, whether the
    /// headers granted it.
    pub fn from_header_or_new(headers: &HeaderMap, default_budget_ms: u64) -> (r: (Self, bool))
        ensures
            r.0.total_budget.nanos == budget_ms(header_fields(*headers), default_budget_ms)
                * NANOS_PER_MILLI,
            is_present(r.0.start_time),
            r.1 == (granted_ms(header_fields(*headers)) is Some),
    {
        proof {
            lemma_known_names();
        }
        if let Some(remaining_str) = get_text(headers, GLOBAL_TIMEOUT_HEADER) {
            if let Some(remaining_ms) = parse_u64(remaining_str.as_str()) {
                return (TimeoutBudget::new(remaining_ms), true);
            }
        }
        (TimeoutBudget::new(default_budget_ms), false)
    }

    /// What is left now.
    pub fn remaining(&self) -> (r: Duration)
        ensures
            exists|age: Duration| #[trigger] is_age(self.start_time, age) && r == self.left(age),
            r.nanos <= self.total_budget.nanos,
    {
        let age = age_of(&self.start_time);
        self.remaining_after(age)
    }

    /// What is left after some time.
    pub fn remaining_after(&self, elapsed: Duration) -> (r: Duration)
        ensures
            r == self.left(elapsed),
    {
        self.total_budget.saturating_sub(elapsed)
    }

    /// The whole milliseconds that are left now.
    pub fn remaining_ms(&self) -> (r: u64)
        ensures
            exists|age: Duration| #[trigger]
                is_age(self.start_time, age) && r == self.left(age).millis(),
    {
        let left = self.remaining();
        left.to_millis()
    }

    /// Whether nothing is left now.
    pub fn is_expired(&self) -> (r: bool)
        ensures
            exists|age: Duration| #[trigger]
                is_age(self.start_time, age) && r == (self.left(age).nanos == 0),
    {
        let left = self.remaining();
        left.is_zero()
    }

    /// Whether at least `required` is left now.
    pub fn has_enough_budget(&self, required: Duration) -> (r: bool)
        ensures
            exists|age: Duration| #[trigger]
                is_age(self.start_time, age) && r == (self.left(age).nanos >= required.nanos),
    {
        let left = self.remaining();
        left.at_least(required)
    }

    /// Puts the whole milliseconds that are left now into the headers.
    pub fn inject_header(&self, headers: &mut HeaderMap) -> (r: Result<(), HeadersFull>)
        ensures
            r is Err ==> refused(*old(headers)),
            has_room_for(*old(headers), 1) ==> r is Ok,
            r is Ok ==> exists|age: Duration| #[trigger]
                is_age(self.start_time, age) && header_fields(*final(headers)) == with_granted(
                    header_fields(*old(headers)),
                    self.left(age).millis(),
                ),
            r is Err ==> header_fields(*final(headers)) == header_fields(*old(headers)),
    {
        let age = age_of(&self.start_time);
        self.inject_header_after(headers, age)
    }

    /// Puts the whole milliseconds that are left after some time into the headers.
    pub fn inject_header_after(&self, headers: &mut HeaderMap, elapsed: Duration) -> (r: Result<
        (),
        HeadersFull,
    >)
        ensures
            r is Err ==> refused(*old(headers)),
            has_room_for(*old(headers), 1) ==> r is Ok,
            r is Ok ==> header_fields(*final(headers)) == with_granted(
                header_fields(*old(headers)),
                self.left(elapsed).millis(),
            ),
            r is Err ==> header_fields(*final(headers)) == header_fields(*old(headers)),
    {
        let ms = self.remaining_after(elapsed).to_millis();
        proof {
            lemma_known_names();
            lemma_decimal_is_visible(ms);
            text_round_trip(header_fields(*headers), GLOBAL_TIMEOUT_HEADER@, decimal(ms as nat));
        }
        set_text(headers, GLOBAL_TIMEOUT_HEADER, u64_to_string(ms).as_str())
    }
}

/// Decimal digits are visible text.
proof fn lemma_decimal_is_visible(ms: u64)
    ensures
        is_visible_text(decimal(ms as nat)),
{
    lemma_decimal(ms as nat);
    let text = decimal(ms as nat);
    assert forall|i: int| 0 <= i < text.len() implies (' ' <= #[trigger] text[i] <= '~' || text[i]
        == '\t') by {
        assert(is_digit(text[i]));
    };
}

/// A budget that has just begun has all of its time.
pub proof fn fresh_budget_is_whole(budget: TimeoutBudget, ms: u64)
    requires
        budget.total_budget.nanos == ms * NANOS_PER_MILLI,
    ensures
        budget.left(Duration { nanos: 0 }) == budget.total_budget,
        budget.left(Duration { nanos: 0 }).millis() == ms,
{
}

/// The more time has passed the less is left, and never more than the total.
pub proof fn budget_only_shrinks(budget: TimeoutBudget, earlier: Duration, later: Duration)
    requires
        earlier.nanos <= later.nanos,
    ensures
        budget.left(later).nanos <= budget.left(earlier).nanos <= budget.total_budget.nanos,
{
}

/// A budget is used up exactly when its whole time has passed.
pub proof fn budget_expires_with_its_time(budget: TimeoutBudget, elapsed: Duration)
    ensures
        budget.left(elapsed).nanos == 0 <==> elapsed.nanos >= budget.total_budget.nanos,
{
}

/// What one hop writes into the headers the next hop reads from them, whatever its own
/// default is.
pub proof fn granted_time_is_read_back(
    fields: Map<Seq<char>, Seq<Seq<u8>>>,
    ms: u64,
    default_ms: u64,
)
    ensures
        granted_ms(with_granted(fields, ms)) == Some(ms),
        budget_ms(with_granted(fields, ms), default_ms) == ms,
{
    lemma_decimal_is_visible(ms);
    text_round_trip(fields, GLOBAL_TIMEOUT_HEADER@, decimal(ms as nat));
    decimal_round_trip(ms);
}

/// The next hop never gets more time than was left at this one.
pub proof fn budget_does_not_grow_between_hops(
    budget: TimeoutBudget,
    elapsed: Duration,
    fields: Map<Seq<char>, Seq<Seq<u8>>>,
    default_ms: u64,
)
    ensures
        budget_ms(with_granted(fields, budget.left(elapsed).millis()), default_ms)
            * NANOS_PER_MILLI <= budget.left(elapsed).nanos,
{
    granted_time_is_read_back(fields, budget.left(elapsed).millis(), default_ms);
}

/// What has passed and what is left make up the whole, until the whole has passed.
pub proof fn time_passed_and_left_make_up_the_whole(budget: TimeoutBudget, elapsed: Duration)
    ensures
        elapsed.nanos <= budget.total_budget.nanos ==> budget.left(elapsed).nanos + elapsed.nanos
            == budget.total_budget.nanos,
        elapsed.nanos >= budget.total_budget.nanos ==> budget.left(elapsed).nanos == 0,
{
}

/// The milliseconds of a span are the whole ones: not one too many, and none missing.
pub proof fn milliseconds_are_the_whole_ones(span: Duration)
    requires
        span.nanos < 0x1_0000_0000_0000_0000 * 1_000_000,
    ensures
        span.millis() * 1_000_000 <= span.nanos < (span.millis() + 1) * 1_000_000,
{
}

/// The time of a request depends on nothing but its own header: without it, or where it is
/// no number, the request gets the default, and otherwise what the header says.
pub proof fn only_the_timeout_header_grants_time(
    a: Map<Seq<char>, Seq<Seq<u8>>>,
    b: Map<Seq<char>, Seq<Seq<u8>>>,
    default_ms: u64,
)
    ensures
        field_text(a, GLOBAL_TIMEOUT_HEADER@) == field_text(b, GLOBAL_TIMEOUT_HEADER@)
            ==> budget_ms(a, default_ms) == budget_ms(b, default_ms),
        !a.contains_key(GLOBAL_TIMEOUT_HEADER@) ==> granted_ms(a) is None,
        granted_ms(a) is None ==> budget_ms(a, default_ms) == default_ms,
        granted_ms(a) matches Some(ms) ==> budget_ms(a, default_ms) == ms,
        field_text(a, GLOBAL_TIMEOUT_HEADER@) matches Some(t) ==> (all_digits(t) && t.len() > 0
            && digits_value(t) <= u64::MAX ==> granted_ms(a) == Some(digits_value(t) as u64)),
        granted_ms(a) is Some ==> (field_text(a, GLOBAL_TIMEOUT_HEADER@) matches Some(t) && t.len()
            > 0 && forall|i: int|
            0 <= i < t.len() ==> is_digit(#[trigger] t[i]) || (i == 0 && t[i] == '+')),
{
    if let Some(t) = field_text(a, GLOBAL_TIMEOUT_HEADER@) {
        numbers_are_digits(t, 0);
        assert forall|i: int| 0 <= i < t.len() && granted_ms(a) is Some implies is_digit(
            #[trigger] t[i],
        ) || (i == 0 && t[i] == '+') by {
            numbers_are_digits(t, i);
        };
        if all_digits(t) && t.len() > 0 {
            assert(is_digit(t[0]));
        }
    }
}

} // verus!
