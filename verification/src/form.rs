//! Reading the form's fields for a simulation, a calculation or a conversion: each field in turn,
//! stopping at the first that does not hold what it should.
use vstd::prelude::*;

use crate::input::{
    parse_optional_u64, parse_optional_usize, parse_required_i64, parse_required_u64,
    parse_required_usize, ParseError, ParseType,
};
use crate::model::{TNTNumRB, Time, RB};
use crate::text::{parse_signed, parse_unsigned, trim};

verus! {

/// Why the form's fields cannot be used.
#[derive(Debug, Clone)]
pub enum FormError {
    /// A field does not hold what it should.
    Field(ParseError),
    /// The direction is above 3.
    DirectionRange,
    /// Only one of the red and blue limits is given.
    MaxRedBluePair,
}

impl FormError {
    /// The key under which the form shows the error, for the errors that are not about one field.
    pub open spec fn spec_key(self) -> Option<Seq<char>> {
        match self {
            FormError::Field(_) => None,
            FormError::DirectionRange => Some("error-direction-range"@),
            FormError::MaxRedBluePair => Some("error-max-red-blue-pair"@),
        }
    }

    /// The key under which the form shows the error, for the errors that are not about one field.
    pub fn key(&self) -> (k: Option<&'static str>)
        ensures
            self.spec_key() matches Some(s) ==> (k matches Some(t) && t@ == s),
            self.spec_key() is None ==> k is None,
    {
        match self {
            FormError::Field(_) => None,
            FormError::DirectionRange => Some("error-direction-range"),
            FormError::MaxRedBluePair => Some("error-max-red-blue-pair"),
        }
    }
}

/// The value of a field holding an unsigned integer of at most `max`.
pub open spec fn field_value(value: Seq<char>, max: int) -> Option<int> {
    parse_unsigned(trim(value), max)
}

/// The value of a field holding a signed 64-bit integer.
pub open spec fn signed_field_value(value: Seq<char>) -> Option<int> {
    parse_signed(trim(value), i64::MIN as int, i64::MAX as int)
}

/// Whether `res` reports the field named `name` as not holding a value of type `expected`.
pub open spec fn reports_field<T>(res: Result<T, FormError>, name: Seq<char>, expected: ParseType) -> bool {
    res matches Err(FormError::Field(e)) && e.name@ == name && e.expected == expected
}

/// Reads the direction, red and blue fields: the direction must be 0 to 3.
pub fn read_rb_fields(
    direction: &str,
    red: &str,
    blue: &str,
    direction_name: &str,
    red_name: &str,
    blue_name: &str,
) -> (res: Result<RB, FormError>)
    ensures
        field_value(direction@, usize::MAX as int) is None ==> reports_field(
            res,
            direction_name@,
            ParseType::Usize,
        ),
        field_value(direction@, usize::MAX as int) matches Some(d) && d > 3 ==> res matches Err(
            FormError::DirectionRange,
        ),
        field_value(direction@, usize::MAX as int) matches Some(d) && d <= 3 && field_value(
            red@,
            u64::MAX as int,
        ) is None ==> reports_field(res, red_name@, ParseType::U64),
        field_value(direction@, usize::MAX as int) matches Some(d) && d <= 3 && field_value(
            red@,
            u64::MAX as int,
        ) is Some && field_value(blue@, u64::MAX as int) is None ==> reports_field(
            res,
            blue_name@,
            ParseType::U64,
        ),
        res matches Ok(rb) ==> {
            &&& rb.direction <= 3
            &&& field_value(direction@, usize::MAX as int) == Some(rb.direction as int)
            &&& field_value(red@, u64::MAX as int) == Some(rb.num.red as int)
            &&& field_value(blue@, u64::MAX as int) == Some(rb.num.blue as int)
        },
        (field_value(direction@, usize::MAX as int) matches Some(d) && d <= 3) && field_value(
            red@,
            u64::MAX as int,
        ) is Some && field_value(blue@, u64::MAX as int) is Some ==> res is Ok,
{
    let d = match parse_required_usize(direction, direction_name) {
        Ok(v) => v,
        Err(e) => return Err(FormError::Field(e)),
    };
    if d > 3 {
        return Err(FormError::DirectionRange);
    }
    let r = match parse_required_u64(red, red_name) {
        Ok(v) => v,
        Err(e) => return Err(FormError::Field(e)),
    };
    let b = match parse_required_u64(blue, blue_name) {
        Ok(v) => v,
        Err(e) => return Err(FormError::Field(e)),
    };
    Ok(RB { num: TNTNumRB { red: r, blue: b }, direction: d })
}

/// Reads an optional time field.
fn read_time_field(value: &str, name: &str) -> (res: Result<Option<Time>, FormError>)
    ensures
        trim(value@).len() == 0 ==> res matches Ok(None),
        trim(value@).len() > 0 && field_value(value@, u64::MAX as int) is None ==> reports_field(
            res,
            name@,
            ParseType::U64,
        ),
        (trim(value@).len() > 0 && field_value(value@, u64::MAX as int) is Some) ==> (
        res matches Ok(Some(t)) && field_value(value@, u64::MAX as int) == Some(t.0 as int)),
{
    match parse_optional_u64(value, name) {
        Ok(Some(v)) => Ok(Some(Time(v))),
        Ok(None) => Ok(None),
        Err(e) => Err(FormError::Field(e)),
    }
}

/// Reads the optional time and end-portal time fields of a simulation.
pub fn read_simulation_times(time: &str, to_end_time: &str, time_name: &str, to_end_name: &str) -> (res:
    Result<(Option<Time>, Option<Time>), FormError>)
    ensures
        trim(time@).len() > 0 && field_value(time@, u64::MAX as int) is None ==> reports_field(
            res,
            time_name@,
            ParseType::U64,
        ),
        (trim(time@).len() == 0 || field_value(time@, u64::MAX as int) is Some) && trim(
            to_end_time@,
        ).len() > 0 && field_value(to_end_time@, u64::MAX as int) is None ==> reports_field(
            res,
            to_end_name@,
            ParseType::U64,
        ),
        res matches Ok((t, e)) ==> {
            &&& (trim(time@).len() == 0 ==> t is None)
            &&& (trim(time@).len() > 0 ==> (t matches Some(tt) && field_value(
                time@,
                u64::MAX as int,
            ) == Some(tt.0 as int)))
            &&& (trim(to_end_time@).len() == 0 ==> e is None)
            &&& (trim(to_end_time@).len() > 0 ==> (e matches Some(et) && field_value(
                to_end_time@,
                u64::MAX as int,
            ) == Some(et.0 as int)))
        },
        (trim(time@).len() == 0 || field_value(time@, u64::MAX as int) is Some) && (trim(
            to_end_time@,
        ).len() == 0 || field_value(to_end_time@, u64::MAX as int) is Some) ==> res is Ok,
{
    let t = read_time_field(time, time_name)?;
    let e = read_time_field(to_end_time, to_end_name)?;
    Ok((t, e))
}

/// The TNT limits that two optional fields give: none when both are blank, both when both are
/// given, and an error when only one is.
pub open spec fn max_tnt_pair(red: Option<u64>, blue: Option<u64>) -> Result<Option<TNTNumRB>, FormError> {
    match (red, blue) {
        (None, None) => Ok(None),
        (Some(r), Some(b)) => Ok(Some(TNTNumRB { red: r, blue: b })),
        _ => Err(FormError::MaxRedBluePair),
    }
}

/// The value an optional unsigned field gives: none when it is blank.
pub open spec fn optional_field(value: Seq<char>) -> Option<Option<u64>> {
    if trim(value).len() == 0 {
        Some(None)
    } else {
        match field_value(value, u64::MAX as int) {
            Some(v) => Some(Some(v as u64)),
            None => None,
        }
    }
}

/// Reads the target and TNT limit fields of a calculation: the target's x and z, then the red and
/// blue limits, which must be given together or not at all.
pub fn read_calculation_target(
    x: &str,
    z: &str,
    max_red: &str,
    max_blue: &str,
    x_name: &str,
    z_name: &str,
    red_name: &str,
    blue_name: &str,
) -> (res: Result<(i64, i64, Option<TNTNumRB>), FormError>)
    ensures
        signed_field_value(x@) is None ==> reports_field(res, x_name@, ParseType::I64),
        signed_field_value(x@) is Some && signed_field_value(z@) is None ==> reports_field(
            res,
            z_name@,
            ParseType::I64,
        ),
        signed_field_value(x@) is Some && signed_field_value(z@) is Some && optional_field(max_red@)
            is None ==> reports_field(res, red_name@, ParseType::U64),
        signed_field_value(x@) is Some && signed_field_value(z@) is Some && optional_field(max_red@)
            is Some && optional_field(max_blue@) is None ==> reports_field(
            res,
            blue_name@,
            ParseType::U64,
        ),
        signed_field_value(x@) is Some && signed_field_value(z@) is Some && optional_field(max_red@)
            is Some && optional_field(max_blue@) is Some ==> match max_tnt_pair(
            optional_field(max_red@).unwrap(),
            optional_field(max_blue@).unwrap(),
        ) {
            Ok(m) => (res matches Ok((xv, zv, mm)) && mm == m && signed_field_value(x@) == Some(
                xv as int,
            ) && signed_field_value(z@) == Some(zv as int)),
            Err(_) => (res matches Err(FormError::MaxRedBluePair)),
        },
{
    let xv = match parse_required_i64(x, x_name) {
        Ok(v) => v,
        Err(e) => return Err(FormError::Field(e)),
    };
    let zv = match parse_required_i64(z, z_name) {
        Ok(v) => v,
        Err(e) => return Err(FormError::Field(e)),
    };
    let r = match parse_optional_u64(max_red, red_name) {
        Ok(v) => v,
        Err(e) => return Err(FormError::Field(e)),
    };
    let b = match parse_optional_u64(max_blue, blue_name) {
        Ok(v) => v,
        Err(e) => return Err(FormError::Field(e)),
    };
    let max_tnt = match (r, b) {
        (None, None) => None,
        (Some(red), Some(blue)) => Some(TNTNumRB { red, blue }),
        _ => return Err(FormError::MaxRedBluePair),
    };
    Ok((xv, zv, max_tnt))
}

/// Reads the optional time limit and result count fields of a calculation.
pub fn read_calculation_limits(max_time: &str, show_first: &str, time_name: &str, first_name: &str) -> (res:
    Result<(Option<Time>, Option<usize>), FormError>)
    ensures
        optional_field(max_time@) is None ==> reports_field(res, time_name@, ParseType::U64),
        optional_field(max_time@) is Some && trim(show_first@).len() > 0 && field_value(
            show_first@,
            usize::MAX as int,
        ) is None ==> reports_field(res, first_name@, ParseType::Usize),
        res matches Ok((t, f)) ==> {
            &&& optional_field(max_time@) is Some
            &&& (optional_field(max_time@).unwrap() is None ==> t is None)
            &&& (optional_field(max_time@).unwrap() is Some ==> (t matches Some(tt) && Some(
                tt.0,
            ) == optional_field(max_time@).unwrap()))
            &&& (trim(show_first@).len() == 0 ==> f is None)
            &&& (trim(show_first@).len() > 0 ==> (f matches Some(n) && field_value(
                show_first@,
                usize::MAX as int,
            ) == Some(n as int)))
        },
        optional_field(max_time@) is Some && (trim(show_first@).len() == 0 || field_value(
            show_first@,
            usize::MAX as int,
        ) is Some) ==> res is Ok,
{
    let t = read_time_field(max_time, time_name)?;
    let f = match parse_optional_usize(show_first, first_name) {
        Ok(v) => v,
        Err(e) => return Err(FormError::Field(e)),
    };
    Ok((t, f))
}

} // verus!
