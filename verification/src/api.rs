//! The codec as the calculator offers it: errors reported as calculator errors.
use vstd::prelude::*;

use crate::codec::{decode, first_encoding, encodes, rule_error_to_convert, strict, ConvertError};
use crate::error::{pearl_from_convert, PearlError};
use crate::direction::{direction_error, directions_valid};
use crate::model::{CodeRule, Directions, TNTNumCode, RB};
use crate::rule::{compile_rule, is_first_error, rule_valid, slots_of, Checks, RuleError};

verus! {

/// Whether `res` reports, as a calculator error, the first check that the rule's caps fail.
pub open spec fn reports_first_error<T>(rule: &CodeRule, checks: Checks, res: Result<T, PearlError>) -> bool {
    exists|e: RuleError|
        is_first_error(rule, checks, e) && res == Err::<T, PearlError>(
            pearl_from_convert(rule_error_to_convert(e)),
        )
}

/// The counts and direction a code stands for under a rule (see `codec::code_to_rb`).
pub fn code_to_rb(rule: &CodeRule, code: TNTNumCode) -> (res: Result<RB, PearlError>)
    ensures
        !rule_valid(rule, strict()) ==> reports_first_error(rule, strict(), res),
        rule_valid(rule, strict()) && code.0@.len() != slots_of(rule).len() ==> res == Err::<
            RB,
            PearlError,
        >(PearlError::CodeLengthMismatch { expected: slots_of(rule).len() as usize, actual: code.0@.len() as usize }),
        rule_valid(rule, strict()) && code.0@.len() == slots_of(rule).len() ==> res == match decode(
            rule,
            code.0@,
        ) {
            Ok(rb) => Ok::<RB, PearlError>(rb),
            Err(e) => Err(pearl_from_convert(e)),
        },
{
    match crate::codec::code_to_rb(rule, code) {
        Ok(rb) => Ok(rb),
        Err(e) => Err(PearlError::from_convert(e)),
    }
}

/// The code for the given counts and direction under a rule (see `codec::rb_to_code`).
pub fn rb_to_code(rule: &CodeRule, rb: RB) -> (res: Result<TNTNumCode, PearlError>)
    ensures
        !rule_valid(rule, strict()) ==> reports_first_error(rule, strict(), res),
        rule_valid(rule, strict()) && rb.direction > 3 ==> res == Err::<TNTNumCode, PearlError>(
            PearlError::DirectionOutOfRange { value: rb.direction as u64 },
        ),
        rule_valid(rule, strict()) && rb.direction <= 3 ==> (res is Ok <==> exists|s: Seq<bool>|
            #[trigger] encodes(rule, s, rb)),
        rule_valid(rule, strict()) && rb.direction <= 3 && res is Err ==> res == Err::<
            TNTNumCode,
            PearlError,
        >(PearlError::NoExactEncoding { rb }),
        res matches Ok(code) ==> first_encoding(rule, code.0@, rb),
{
    match crate::codec::rb_to_code(rule, rb) {
        Ok(code) => Ok(code),
        Err(e) => Err(PearlError::from_convert(e)),
    }
}

/// The checks a config's code rule goes through: slot numbers in range, not repeated within a
/// group, and in no two groups.
pub open spec fn config_checks() -> Checks {
    Checks { overlap: true, kinds: false }
}

impl CodeRule {
    /// Checks the rule's cap groups, reporting the first slot number that fails.
    pub fn check(&self) -> (res: Result<(), PearlError>)
        ensures
            res is Ok <==> rule_valid(self, config_checks()),
            res is Err ==> reports_first_error(self, config_checks(), res),
    {
        match compile_rule(self, Checks { overlap: true, kinds: false }) {
            Ok(_) => Ok(()),
            Err(e) => {
                proof {
                    let (i, j) = choose|i: int, j: int|
                        {
                            &&& crate::rule::is_cap_pos(self, i, j)
                            &&& #[trigger] crate::rule::bit_error(self, config_checks(), i, j) == Some(e)
                            &&& forall|i2: int, j2: int|
                                crate::rule::is_cap_pos(self, i2, j2) && crate::rule::pos_before(i2, j2, i, j)
                                    ==> #[trigger] crate::rule::bit_error(self, config_checks(), i2, j2) is None
                        };
                    assert(crate::rule::bit_error(self, config_checks(), i, j) == Some(e));
                }
                let r = match e {
                    RuleError::InvalidCapBit { bit, max } => PearlError::InvalidCapBit { bit, max },
                    RuleError::DuplicateCapBit { bit } => PearlError::DuplicateCapBit { bit },
                    RuleError::OverlappingCapBit { bit } => PearlError::OverlappingCapBit { bit },
                    RuleError::MixedCapKinds => PearlError::MixedCapKinds,
                };
                let res = Err(r);
                assert(reports_first_error(self, config_checks(), res));
                res
            },
        }
    }
}

/// Checks a config's directions and code rule: the directions first, then the rule's caps.
pub fn check_config(directions: Directions, code: &CodeRule) -> (res: Result<(), PearlError>)
    ensures
        res is Ok <==> directions_valid(directions.0) && rule_valid(code, config_checks()),
        !directions_valid(directions.0) ==> (res matches Err(e) && exists|i: int|
            0 <= i < 4 && direction_error(directions.0, i) == Some(e) && forall|j: int|
                0 <= j < i ==> #[trigger] direction_error(directions.0, j) is None),
        directions_valid(directions.0) && !rule_valid(code, config_checks()) ==> reports_first_error(
            code,
            config_checks(),
            res,
        ),
{
    match directions.resolve() {
        Ok(_) => {},
        Err(e) => return Err(e),
    }
    code.check()
}

} // verus!
