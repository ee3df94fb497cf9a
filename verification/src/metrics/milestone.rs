//! The next milestone of a running streak.
use crate::metrics::streaks::clamp_i32;
use crate::text::{append_str, decimal_text, push_decimal, string_from_chars};
use vstd::prelude::*;

verus! {

/// The streak, in weeks, at which the next milestone is reached: one, two,
/// three and six months, one year, and behind that every full year of 52
/// weeks.
pub open spec fn next_milestone_weeks(streak: int) -> int {
    if streak < 4 {
        4
    } else if streak < 8 {
        8
    } else if streak < 12 {
        12
    } else if streak < 26 {
        26
    } else if streak < 52 {
        52
    } else {
        (streak / 52 + 1) * 52
    }
}

/// What the milestone at `weeks` weeks is called.
pub open spec fn milestone_name(weeks: int) -> Seq<char> {
    if weeks == 4 {
        "1-month streak"@
    } else if weeks == 8 {
        "2-month streak"@
    } else if weeks == 12 {
        "3-month streak"@
    } else if weeks == 26 {
        "6-month streak"@
    } else if weeks == 52 {
        "1-year streak"@
    } else {
        decimal_text((weeks / 52) as nat) + "-year streak"@
    }
}

/// The next milestone lies ahead: the streak has not reached it, and behind
/// the first year it is no more than 52 weeks away.
pub proof fn lemma_next_milestone(streak: int)
    ensures
        next_milestone_weeks(streak) > streak,
        streak >= 52 ==> next_milestone_weeks(streak) - streak <= 52 && next_milestone_weeks(
            streak,
        ) % 52 == 0,
{
    if streak >= 52 {
        let q = streak / 52;
        assert(streak == 52 * q + streak % 52) by {
            vstd::arithmetic::div_mod::lemma_fundamental_div_mod(streak, 52);
        }
        assert(((q + 1) * 52) % 52 == 0) by {
            vstd::arithmetic::div_mod::lemma_mod_multiples_basic(q + 1, 52);
        }
    }
}

/// The weeks that remain until the next milestone of a streak of
/// `current_streak` weeks, and what that milestone is called.
pub fn calculate_next_weekly_milestone(current_streak: i32) -> (r: (Option<i32>, Option<String>))
    ensures
        r.0 == Some(clamp_i32(next_milestone_weeks(current_streak as int) - current_streak)),
        r.1 is Some,
        r.1->0@ == milestone_name(next_milestone_weeks(current_streak as int)),
{
    let streak: i64 = current_streak as i64;
    let (target, name): (i64, String) = if streak < 4 {
        (4, String::from_str("1-month streak"))
    } else if streak < 8 {
        (8, String::from_str("2-month streak"))
    } else if streak < 12 {
        (12, String::from_str("3-month streak"))
    } else if streak < 26 {
        (26, String::from_str("6-month streak"))
    } else if streak < 52 {
        (52, String::from_str("1-year streak"))
    } else {
        let years: i64 = streak / 52 + 1;
        let mut out: Vec<char> = Vec::new();
        push_decimal(&mut out, years as u64);
        append_str(&mut out, "-year streak");
        proof {
            assert((years * 52) / 52 == years) by (nonlinear_arith);
            assert(out@ =~= milestone_name(years * 52));
        }
        (years * 52, string_from_chars(&out))
    };
    let left: i64 = target - streak;
    let weeks: i32 = if left > 2147483647 {
        i32::MAX
    } else {
        left as i32
    };
    (Some(weeks), Some(name))
}

} // verus!
