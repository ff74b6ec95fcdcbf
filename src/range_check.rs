use vstd::prelude::*;
use vstd::string::StringExecFns;
use crate::text::{decimal_text, i32_text};

verus! {

/// One end of a range: inclusive, exclusive, or absent.
#[derive(Clone, Copy, Debug, PartialEq, Eq, Structural)]
pub enum RangeBound {
    Included(i32),
    Excluded(i32),
    Unbounded,
}

/// Whether `v` lies on the allowed side of a lower bound.
pub open spec fn above_lower(v: int, b: RangeBound) -> bool {
    match b {
        RangeBound::Included(x) => x <= v,
        RangeBound::Excluded(x) => x < v,
        RangeBound::Unbounded => true,
    }
}

/// Whether `v` lies on the allowed side of an upper bound.
pub open spec fn below_upper(v: int, b: RangeBound) -> bool {
    match b {
        RangeBound::Included(x) => v <= x,
        RangeBound::Excluded(x) => v < x,
        RangeBound::Unbounded => true,
    }
}

pub open spec fn in_range(v: int, start: RangeBound, end: RangeBound) -> bool {
    above_lower(v, start) && below_upper(v, end)
}

/// Text of the lower end: `<lo><op>`, empty when unbounded.
pub open spec fn lower_text(b: RangeBound) -> Seq<char> {
    match b {
        RangeBound::Included(x) => decimal_text(x as int) + "<="@,
        RangeBound::Excluded(x) => decimal_text(x as int) + "<"@,
        RangeBound::Unbounded => Seq::empty(),
    }
}

/// Text of the upper end: `<op><hi>`, empty when unbounded.
pub open spec fn upper_text(b: RangeBound) -> Seq<char> {
    match b {
        RangeBound::Included(x) => "<="@ + decimal_text(x as int),
        RangeBound::Excluded(x) => "<"@ + decimal_text(x as int),
        RangeBound::Unbounded => Seq::empty(),
    }
}

/// `Value <name>=<value> is out of range: expected <lo><op> <name> <op><hi>`
pub open spec fn range_message(
    value: int,
    name: Seq<char>,
    start: RangeBound,
    end: RangeBound,
) -> Seq<char> {
    "Value "@ + name + "="@ + decimal_text(value) + " is out of range: expected "@ + lower_text(
        start,
    ) + " "@ + name + " "@ + upper_text(end)
}

/// A value found outside its allowed range, with the name it goes by and
/// both ends of the range.
#[derive(Clone, Debug)]
pub struct OutOfRangeError {
    pub value: i32,
    pub name: String,
    pub start: RangeBound,
    pub end: RangeBound,
}

/// Whether `value` satisfies both bounds.
pub fn check(value: i32, start: RangeBound, end: RangeBound) -> (r: bool)
    ensures
        r == in_range(value as int, start, end),
{
    let lower_ok = match start {
        RangeBound::Included(x) => x <= value,
        RangeBound::Excluded(x) => x < value,
        RangeBound::Unbounded => true,
    };
    let upper_ok = match end {
        RangeBound::Included(x) => value <= x,
        RangeBound::Excluded(x) => value < x,
        RangeBound::Unbounded => true,
    };
    lower_ok && upper_ok
}

/// Checks `value` against both bounds and, when it falls outside, reports it
/// under `name`.
pub fn range_check(value: i32, name: &str, start: RangeBound, end: RangeBound) -> (r: Result<
    (),
    OutOfRangeError,
>)
    ensures
        r is Ok <==> in_range(value as int, start, end),
        r matches Err(e) ==> e.value == value && e.name@ == name@ && e.start == start && e.end
            == end,
{
    if check(value, start, end) {
        Ok(())
    } else {
        Err(OutOfRangeError { value, name: String::from_str(name), start, end })
    }
}

fn bound_text(b: RangeBound, lower: bool) -> (r: String)
    ensures
        lower ==> r@ == lower_text(b),
        !lower ==> r@ == upper_text(b),
{
    proof {
        reveal_strlit("<=");
        reveal_strlit("<");
    }
    match b {
        RangeBound::Included(x) => {
            if lower {
                let mut s = i32_text(x);
                s.append("<=");
                s
            } else {
                let s = String::from_str("<=");
                s.concat(i32_text(x).as_str())
            }
        },
        RangeBound::Excluded(x) => {
            if lower {
                let mut s = i32_text(x);
                s.append("<");
                s
            } else {
                let s = String::from_str("<");
                s.concat(i32_text(x).as_str())
            }
        },
        RangeBound::Unbounded => String::new(),
    }
}

impl OutOfRangeError {
    /// The human-readable description of the violation.
    pub fn message(&self) -> (r: String)
        ensures
            r@ == range_message(self.value as int, self.name@, self.start, self.end),
    {
        let mut s = String::from_str("Value ");
        s.append(self.name.as_str());
        s.append("=");
        s.append(i32_text(self.value).as_str());
        s.append(" is out of range: expected ");
        s.append(bound_text(self.start, true).as_str());
        s.append(" ");
        s.append(self.name.as_str());
        s.append(" ");
        s.append(bound_text(self.end, false).as_str());
        proof {
            assert(s@ =~= range_message(self.value as int, self.name@, self.start, self.end));
        }
        s
    }
}

} // verus!
