//! The employee record held by the store.

use vstd::prelude::*;

verus! {

/// Largest value the mutation layer accepts for `salary` and `bonus`.
pub const PAY_BOUND: u32 = 2_000_000_000;

/// Largest value of `rating_centi`: a rating of exactly 1 (100 hundredths).
pub const RATING_CENTI_MAX: u32 = 100;

/// One employee record.
///
/// The performance rating lies in `[0, 1]` with a granularity of one
/// hundredth; it is held exactly as an integer count of hundredths, so the
/// store never touches inexact arithmetic.
#[derive(Clone, Debug, PartialEq, Eq)]
pub struct Employee {
    pub full_name: String,
    pub salary: u32,
    pub bonus: u32,
    pub rating_centi: u32,
}

/// The mathematical value of a record: its fields with the name as a
/// sequence of characters.
pub struct EmployeeModel {
    pub full_name: Seq<char>,
    pub salary: u32,
    pub bonus: u32,
    pub rating_centi: u32,
}

impl View for Employee {
    type V = EmployeeModel;

    open spec fn view(&self) -> EmployeeModel {
        EmployeeModel {
            full_name: self.full_name@,
            salary: self.salary,
            bonus: self.bonus,
            rating_centi: self.rating_centi,
        }
    }
}

/// The pay total the presentation layer derives from a record:
/// `floor(salary + bonus * rating)`, with the rating in hundredths.
pub open spec fn spec_total(salary: u32, bonus: u32, rating_centi: u32) -> int {
    salary + (bonus * rating_centi) / 100
}

/// Computes the derived pay total exactly, in wide arithmetic.
pub fn total(salary: u32, bonus: u32, rating_centi: u32) -> (r: u64)
    ensures
        r == spec_total(salary, bonus, rating_centi),
{
    proof {
        assert(bonus * rating_centi <= u32::MAX * u32::MAX) by (nonlinear_arith)
            requires
                bonus <= u32::MAX,
                rating_centi <= u32::MAX,
        ;
    }
    let product: u64 = (bonus as u64) * (rating_centi as u64);
    (salary as u64) + product / 100
}

} // verus!
