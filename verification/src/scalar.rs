use vstd::prelude::*;

use crate::error::Error;

verus! {

/// The element kind of a column: the runtime type tag every array and every
/// scalar carries.
#[derive(Clone, Copy, Debug, PartialEq, Eq, Structural)]
pub enum LogicalType {
    Utf8,
    Int64,
    Float32,
    Float64,
}

/// A dynamically typed constant, used as a literal expression and as the
/// result of positional reads from a column array.
///
/// Floating-point values are carried opaquely as IEEE-754 bit patterns; this
/// library never computes on them itself, so adapters convert at the
/// boundary.
#[derive(Debug, PartialEq)]
pub enum ScalarValue {
    Utf8(String),
    Int64(i64),
    Float32Bits(u32),
    Float64Bits(u64),
}

/// The mathematical value of a scalar: text as a sequence of characters,
/// numbers as themselves, floats as their bit patterns.
pub enum ScalarVal {
    Utf8(Seq<char>),
    Int64(i64),
    Float32Bits(u32),
    Float64Bits(u64),
}

impl ScalarVal {
    /// The logical type this value inhabits.
    pub open spec fn ty(self) -> LogicalType {
        match self {
            ScalarVal::Utf8(_) => LogicalType::Utf8,
            ScalarVal::Int64(_) => LogicalType::Int64,
            ScalarVal::Float32Bits(_) => LogicalType::Float32,
            ScalarVal::Float64Bits(_) => LogicalType::Float64,
        }
    }
}

impl View for ScalarValue {
    type V = ScalarVal;

    open spec fn view(&self) -> ScalarVal {
        match self {
            ScalarValue::Utf8(s) => ScalarVal::Utf8(s@),
            ScalarValue::Int64(i) => ScalarVal::Int64(*i),
            ScalarValue::Float32Bits(b) => ScalarVal::Float32Bits(*b),
            ScalarValue::Float64Bits(b) => ScalarVal::Float64Bits(*b),
        }
    }
}

/// The decimal digit character for `d`.
pub open spec fn digit_char(d: int) -> char {
    if d == 0 {
        '0'
    } else if d == 1 {
        '1'
    } else if d == 2 {
        '2'
    } else if d == 3 {
        '3'
    } else if d == 4 {
        '4'
    } else if d == 5 {
        '5'
    } else if d == 6 {
        '6'
    } else if d == 7 {
        '7'
    } else if d == 8 {
        '8'
    } else {
        '9'
    }
}

/// The decimal rendering of a natural number, most significant digit first.
pub open spec fn nat_dec(n: nat) -> Seq<char>
    decreases n,
{
    if n < 10 {
        seq![digit_char(n as int)]
    } else {
        nat_dec(n / 10).push(digit_char((n % 10) as int))
    }
}

/// The decimal rendering of an integer: a minus sign for negatives, then the
/// digits of the magnitude.
pub open spec fn int_dec(v: int) -> Seq<char> {
    if v < 0 {
        seq!['-'] + nat_dec((-v) as nat)
    } else {
        nat_dec(v as nat)
    }
}

/// The printable, SQL-like form of a scalar: text single-quoted, integers
/// unquoted. Floating-point values carry no printable form here.
pub open spec fn scalar_display(v: ScalarVal) -> Result<Seq<char>, Error> {
    match v {
        ScalarVal::Utf8(s) => Ok(seq!['\''] + s + seq!['\'']),
        ScalarVal::Int64(i) => Ok(int_dec(i as int)),
        ScalarVal::Float32Bits(_) => Err(Error::NotImplemented),
        ScalarVal::Float64Bits(_) => Err(Error::NotImplemented),
    }
}

fn append_digit(s: &mut String, d: u64)
    requires
        d < 10,
    ensures
        final(s)@ == old(s)@.push(digit_char(d as int)),
{
    proof {
        reveal_strlit("0");
        reveal_strlit("1");
        reveal_strlit("2");
        reveal_strlit("3");
        reveal_strlit("4");
        reveal_strlit("5");
        reveal_strlit("6");
        reveal_strlit("7");
        reveal_strlit("8");
        reveal_strlit("9");
    }
    let t: &str = if d == 0 {
        "0"
    } else if d == 1 {
        "1"
    } else if d == 2 {
        "2"
    } else if d == 3 {
        "3"
    } else if d == 4 {
        "4"
    } else if d == 5 {
        "5"
    } else if d == 6 {
        "6"
    } else if d == 7 {
        "7"
    } else if d == 8 {
        "8"
    } else {
        "9"
    };
    s.append(t);
    proof {
        assert(s@ =~= old(s)@.push(digit_char(d as int)));
    }
}

/// Renders `n` in decimal, proved equal to `nat_dec`.
pub fn fmt_u64(n: u64) -> (s: String)
    ensures
        s@ == nat_dec(n as nat),
    decreases n,
{
    if n < 10 {
        let mut s = String::new();
        append_digit(&mut s, n);
        proof {
            assert(s@ =~= nat_dec(n as nat));
        }
        s
    } else {
        let mut s = fmt_u64(n / 10);
        append_digit(&mut s, n % 10);
        s
    }
}

/// Renders `v` in decimal, proved equal to `int_dec`.
pub fn fmt_i64(v: i64) -> (s: String)
    ensures
        s@ == int_dec(v as int),
{
    if v >= 0 {
        fmt_u64(v as u64)
    } else {
        let mag: u64 = (-(v as i128)) as u64;
        let mut s = "-".to_owned();
        proof {
            reveal_strlit("-");
        }
        let digits = fmt_u64(mag);
        s.append(digits.as_str());
        proof {
            assert(s@ =~= int_dec(v as int));
        }
        s
    }
}

impl ScalarValue {
    /// The runtime type tag of this value.
    pub fn logical_type(&self) -> (t: LogicalType)
        ensures
            t == self@.ty(),
    {
        match self {
            ScalarValue::Utf8(_) => LogicalType::Utf8,
            ScalarValue::Int64(_) => LogicalType::Int64,
            ScalarValue::Float32Bits(_) => LogicalType::Float32,
            ScalarValue::Float64Bits(_) => LogicalType::Float64,
        }
    }

    /// The SQL-like literal syntax of this value; floating-point rendering is
    /// an unhandled path.
    pub fn to_string(&self) -> (r: Result<String, Error>)
        ensures
            match scalar_display(self@) {
                Ok(t) => r is Ok && r->Ok_0@ == t,
                Err(e) => r == Err::<String, Error>(e),
            },
    {
        match self {
            ScalarValue::Utf8(s) => {
                let mut out = "'".to_owned();
                proof {
                    reveal_strlit("'");
                }
                out.append(s.as_str());
                out.append("'");
                proof {
                    assert(out@ =~= seq!['\''] + s@ + seq!['\'']);
                }
                Ok(out)
            },
            ScalarValue::Int64(i) => Ok(fmt_i64(*i)),
            ScalarValue::Float32Bits(_) => Err(Error::NotImplemented),
            ScalarValue::Float64Bits(_) => Err(Error::NotImplemented),
        }
    }
}

impl Clone for ScalarValue {
    /// The clone is the same value.
    fn clone(&self) -> (r: Self)
        ensures
            r == *self,
    {
        match self {
            ScalarValue::Utf8(s) => ScalarValue::Utf8(s.clone()),
            ScalarValue::Int64(i) => ScalarValue::Int64(*i),
            ScalarValue::Float32Bits(b) => ScalarValue::Float32Bits(*b),
            ScalarValue::Float64Bits(b) => ScalarValue::Float64Bits(*b),
        }
    }
}

} // verus!
