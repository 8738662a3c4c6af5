//! Row values and columns.
//!
//! Rows arrive from the result reader holding only `Null` and `Text`
//! cells; the type-inference stage coerces them into the typed variants.
//! Dates and times are held as plain calendar fields, and floating-point
//! cells keep their decimal text; the wire front-end turns both into its
//! binary forms outside this crate.

use chrono::{Datelike, Timelike};
use vstd::prelude::*;

verus! {

/// A calendar date, as chrono reports it: month in 1..=12, day in 1..=31.
#[derive(Clone, Copy, Debug, PartialEq, Eq, Structural)]
pub struct DateParts {
    pub year: i32,
    pub month: u8,
    pub day: u8,
}

/// A calendar date with a time of day, as chrono reports it.
#[derive(Clone, Copy, Debug, PartialEq, Eq, Structural)]
pub struct DateTimeParts {
    pub year: i32,
    pub month: u8,
    pub day: u8,
    pub hour: u8,
    pub minute: u8,
    pub second: u8,
    pub nanosecond: u32,
}

/// One cell of a row.
#[derive(Clone, Debug, PartialEq)]
pub enum ColumnValue {
    Null,
    Text(String),
    I64(i64),
    I32(i32),
    I16(i16),
    I8(i8),
    Double(String),
    Float(String),
    DateTime(DateTimeParts),
    Date(DateParts),
}

/// The mathematical shape of a cell: text as a character sequence,
/// everything else as itself.
pub enum ValueView {
    Null,
    Text(Seq<char>),
    I64(i64),
    I32(i32),
    I16(i16),
    I8(i8),
    Double(Seq<char>),
    Float(Seq<char>),
    DateTime(DateTimeParts),
    Date(DateParts),
}

/// The view of one cell.
pub open spec fn vv(v: ColumnValue) -> ValueView {
    match v {
        ColumnValue::Null => ValueView::Null,
        ColumnValue::Text(s) => ValueView::Text(s@),
        ColumnValue::I64(n) => ValueView::I64(n),
        ColumnValue::I32(n) => ValueView::I32(n),
        ColumnValue::I16(n) => ValueView::I16(n),
        ColumnValue::I8(n) => ValueView::I8(n),
        ColumnValue::Double(s) => ValueView::Double(s@),
        ColumnValue::Float(s) => ValueView::Float(s@),
        ColumnValue::DateTime(p) => ValueView::DateTime(p),
        ColumnValue::Date(p) => ValueView::Date(p),
    }
}

/// The views of a row's cells.
pub open spec fn row_view(r: Seq<ColumnValue>) -> Seq<ValueView> {
    Seq::new(r.len(), |i: int| vv(r[i]))
}

/// An ordered row of cells.
pub type Row = Vec<ColumnValue>;

/// A result column: its name, and its inferred type tag if inference
/// happened.
#[derive(Clone, Debug, PartialEq)]
pub struct Column {
    pub name: String,
    pub ty: Option<String>,
}

/// The view of a column.
pub open spec fn col_view(c: Column) -> (Seq<char>, Option<Seq<char>>) {
    (c.name@, c.ty.deep_view())
}

/// The views of a column list.
pub open spec fn cols_view(cs: Seq<Column>) -> Seq<(Seq<char>, Option<Seq<char>>)> {
    Seq::new(cs.len(), |i: int| col_view(cs[i]))
}

/// A copy of one cell, equal to the original.
pub fn clone_value(v: &ColumnValue) -> (r: ColumnValue)
    ensures
        r == *v,
{
    match v {
        ColumnValue::Null => ColumnValue::Null,
        ColumnValue::Text(s) => ColumnValue::Text(s.clone()),
        ColumnValue::I64(n) => ColumnValue::I64(*n),
        ColumnValue::I32(n) => ColumnValue::I32(*n),
        ColumnValue::I16(n) => ColumnValue::I16(*n),
        ColumnValue::I8(n) => ColumnValue::I8(*n),
        ColumnValue::Double(s) => ColumnValue::Double(s.clone()),
        ColumnValue::Float(s) => ColumnValue::Float(s.clone()),
        ColumnValue::DateTime(p) => ColumnValue::DateTime(*p),
        ColumnValue::Date(p) => ColumnValue::Date(*p),
    }
}

/// A copy of a row, with cells equal to the originals.
pub fn clone_row(row: &Row) -> (r: Row)
    ensures
        r@ == row@,
{
    let n = row.len();
    let mut r: Vec<ColumnValue> = Vec::new();
    let mut i: usize = 0;
    while i < n
        invariant
            i <= n,
            n == row@.len(),
            r@ =~= row@.subrange(0, i as int),
        decreases n - i,
    {
        r.push(clone_value(&row[i]));
        i += 1;
    }
    proof {
        assert(r@ =~= row@);
    }
    r
}

/// A copy of a row list, with rows whose views equal the originals'.
pub fn clone_rows(rows: &Vec<Row>) -> (r: Vec<Row>)
    ensures
        r@.len() == rows@.len(),
        forall|i: int| 0 <= i < rows@.len() ==> r@[i]@ == rows@[i]@,
{
    let n = rows.len();
    let mut r: Vec<Row> = Vec::new();
    let mut i: usize = 0;
    while i < n
        invariant
            i <= n,
            n == rows@.len(),
            r@.len() == i,
            forall|k: int| 0 <= k < i ==> r@[k]@ == rows@[k]@,
        decreases n - i,
    {
        r.push(clone_row(&rows[i]));
        i += 1;
    }
    r
}

/// A copy of one column, equal to the original.
pub fn clone_column(c: &Column) -> (r: Column)
    ensures
        r == *c,
{
    let ty = match &c.ty {
        Some(t) => Some(t.clone()),
        None => None,
    };
    Column { name: c.name.clone(), ty }
}

/// A copy of a column list, with columns equal to the originals.
pub fn clone_columns(cs: &Vec<Column>) -> (r: Vec<Column>)
    ensures
        r@ == cs@,
{
    let n = cs.len();
    let mut r: Vec<Column> = Vec::new();
    let mut i: usize = 0;
    while i < n
        invariant
            i <= n,
            n == cs@.len(),
            r@ =~= cs@.subrange(0, i as int),
        decreases n - i,
    {
        r.push(clone_column(&cs[i]));
        i += 1;
    }
    proof {
        assert(r@ =~= cs@);
    }
    r
}

/// Whether `c` is a decimal digit.
pub open spec fn is_digit(c: char) -> bool {
    '0' <= c && c <= '9'
}

/// The numeric value of a digit.
pub open spec fn digit_val(c: char) -> int {
    c as int - '0' as int
}

/// The value of a digit string, most significant digit first.
pub open spec fn digits_val(s: Seq<char>) -> int
    decreases s.len(),
{
    if s.len() == 0 {
        0
    } else {
        digits_val(s.drop_last()) * 10 + digit_val(s.last())
    }
}

/// The digit part of an integer literal: everything after an optional
/// sign.
pub open spec fn int_digits(s: Seq<char>) -> Seq<char> {
    if s.len() > 0 && (s[0] == '-' || s[0] == '+') {
        s.drop_first()
    } else {
        s
    }
}

/// Whether `s` is an integer literal: an optional sign, then one or more
/// digits. This is the grammar `str::parse` accepts for the signed
/// integer types.
pub open spec fn is_int_text(s: Seq<char>) -> bool {
    int_digits(s).len() > 0 && forall|i: int|
        0 <= i < int_digits(s).len() ==> is_digit(int_digits(s)[i])
}

/// The value of an integer literal.
pub open spec fn int_text_val(s: Seq<char>) -> int {
    if s.len() > 0 && s[0] == '-' {
        -digits_val(int_digits(s))
    } else {
        digits_val(int_digits(s))
    }
}

proof fn lemma_digits_val_nonneg(s: Seq<char>)
    requires
        forall|i: int| 0 <= i < s.len() ==> is_digit(s[i]),
    ensures
        digits_val(s) >= 0,
    decreases s.len(),
{
    if s.len() > 0 {
        lemma_digits_val_nonneg(s.drop_last());
    }
}

proof fn lemma_digits_val_grows(s: Seq<char>, k: int)
    requires
        forall|i: int| 0 <= i < s.len() ==> is_digit(s[i]),
        0 <= k <= s.len(),
    ensures
        digits_val(s.take(k)) <= digits_val(s),
    decreases s.len() - k,
{
    if k < s.len() {
        lemma_digits_val_grows(s, k + 1);
        let t = s.take(k + 1);
        assert(t.drop_last() =~= s.take(k));
        assert(forall|i: int| 0 <= i < t.len() ==> is_digit(t[i]));
        lemma_digits_val_nonneg(s.take(k));
        assert(digits_val(s.take(k)) <= digits_val(s.take(k + 1)));
    } else {
        assert(s.take(k) =~= s);
    }
}

/// The value of `v` read as a signed 64-bit decimal integer, if it is
/// one and fits.
pub fn parse_i64(v: &Vec<char>) -> (r: Option<i64>)
    ensures
        match r {
            Some(n) => is_int_text(v@) && int_text_val(v@) == n as int,
            None => !(is_int_text(v@) && i64::MIN <= int_text_val(v@) <= i64::MAX),
        },
{
    let n = v.len();
    let mut start: usize = 0;
    let mut negative: bool = false;
    if n > 0 && (v[0] == '-' || v[0] == '+') {
        start = 1;
        negative = v[0] == '-';
    }
    proof {
        assert(int_digits(v@) =~= v@.skip(start as int));
    }
    if start == n {
        return None;
    }
    let ghost ds = int_digits(v@);
    let bound: i128 = 9223372036854775808i128;
    let mut acc: i128 = 0;
    let mut i: usize = start;
    while i < n
        invariant
            start <= i <= n,
            n == v@.len(),
            ds == int_digits(v@),
            ds =~= v@.skip(start as int),
            0 <= acc <= bound,
            bound == 9223372036854775808i128,
            forall|k: int| 0 <= k < i - start ==> is_digit(ds[k]),
            acc == digits_val(ds.take(i - start)),
        decreases n - i,
    {
        let c = v[i];
        if !(c >= '0' && c <= '9') {
            proof {
                assert(ds[i - start] == v@[i as int]);
            }
            return None;
        }
        let d: i128 = (c as u32 as i128) - 48;
        proof {
            assert(ds.take(i - start + 1).drop_last() =~= ds.take(i - start));
            assert(ds.take(i - start + 1).last() == v@[i as int]);
            assert(d == digit_val(v@[i as int]));
        }
        acc = acc * 10 + d;
        i += 1;
        if acc > bound {
            proof {
                assert(forall|k: int| 0 <= k < ds.len() ==> is_digit(ds[k]) || k >= i - start);
            }
            if is_int_text_exec_check(v, start, n) {
                proof {
                    lemma_digits_val_grows(ds, i - start);
                    assert(digits_val(ds) >= acc);
                    if v@[0] == '-' && start == 1 {
                        assert(int_text_val(v@) < i64::MIN);
                    } else {
                        assert(int_text_val(v@) == digits_val(ds));
                        assert(int_text_val(v@) > i64::MAX);
                    }
                }
            }
            return None;
        }
    }
    proof {
        assert(ds.take(n - start) =~= ds);
        assert(is_int_text(v@));
    }
    if negative {
        let r: i128 = -acc;
        proof {
            assert(int_text_val(v@) == -digits_val(ds));
        }
        Some(r as i64)
    } else {
        if acc > 9223372036854775807i128 {
            proof {
                assert(int_text_val(v@) > i64::MAX);
            }
            return None;
        }
        Some(acc as i64)
    }
}

/// Whether the characters of `v` from `start` on are all digits, with at
/// least one of them.
fn is_int_text_exec_check(v: &Vec<char>, start: usize, n: usize) -> (r: bool)
    requires
        start <= n,
        n == v@.len(),
    ensures
        r == (v@.skip(start as int).len() > 0 && forall|i: int|
            0 <= i < v@.skip(start as int).len() ==> is_digit(v@.skip(start as int)[i])),
{
    if start == n {
        return false;
    }
    let mut i: usize = start;
    while i < n
        invariant
            start <= i <= n,
            n == v@.len(),
            forall|k: int| start <= k < i ==> is_digit(v@[k]),
        decreases n - i,
    {
        let c = v[i];
        if !(c >= '0' && c <= '9') {
            proof {
                assert(!is_digit(v@.skip(start as int)[i - start]));
            }
            return false;
        }
        i += 1;
    }
    true
}

/// The value of `v` read as a signed 32-bit decimal integer, if it is
/// one and fits.
pub fn parse_i32(v: &Vec<char>) -> (r: Option<i32>)
    ensures
        match r {
            Some(n) => is_int_text(v@) && int_text_val(v@) == n as int,
            None => !(is_int_text(v@) && i32::MIN <= int_text_val(v@) <= i32::MAX),
        },
{
    match parse_i64(v) {
        Some(n) => {
            if n >= -2147483648i64 && n <= 2147483647i64 {
                Some(n as i32)
            } else {
                None
            }
        },
        None => None,
    }
}

/// The value of `v` read as a signed 16-bit decimal integer, if it is
/// one and fits.
pub fn parse_i16(v: &Vec<char>) -> (r: Option<i16>)
    ensures
        match r {
            Some(n) => is_int_text(v@) && int_text_val(v@) == n as int,
            None => !(is_int_text(v@) && i16::MIN <= int_text_val(v@) <= i16::MAX),
        },
{
    match parse_i64(v) {
        Some(n) => {
            if n >= -32768i64 && n <= 32767i64 {
                Some(n as i16)
            } else {
                None
            }
        },
        None => None,
    }
}

/// The value of `v` read as a signed 8-bit decimal integer, if it is one
/// and fits.
pub fn parse_i8(v: &Vec<char>) -> (r: Option<i8>)
    ensures
        match r {
            Some(n) => is_int_text(v@) && int_text_val(v@) == n as int,
            None => !(is_int_text(v@) && i8::MIN <= int_text_val(v@) <= i8::MAX),
        },
{
    match parse_i64(v) {
        Some(n) => {
            if n >= -128i64 && n <= 127i64 {
                Some(n as i8)
            } else {
                None
            }
        },
        None => None,
    }
}

/// What `chrono::NaiveDate::parse_from_str` with format `%Y-%m-%d`
/// returns: it depends on the characters alone.
pub uninterp spec fn date_parse_of(s: Seq<char>) -> Option<DateParts>;

/// Relies on `chrono::NaiveDate::parse_from_str` with format `%Y-%m-%d`:
/// the calendar date the text denotes, a function of the characters
/// alone; chrono documents month in 1..=12 and day in 1..=31.
#[verifier::external_body]
pub fn parse_date_text(s: &str) -> (r: Option<DateParts>)
    ensures
        r == date_parse_of(s@),
        r matches Some(p) ==> 1 <= p.month <= 12 && 1 <= p.day <= 31,
{
    match chrono::NaiveDate::parse_from_str(s, "%Y-%m-%d") {
        Ok(d) => Some(DateParts { year: d.year(), month: d.month() as u8, day: d.day() as u8 }),
        Err(_) => None,
    }
}

/// What `chrono::NaiveDateTime::parse_from_str` with format
/// `%Y-%m-%d %H:%M:%S%.f` returns: it depends on the characters alone.
pub uninterp spec fn datetime_parse_of(s: Seq<char>) -> Option<DateTimeParts>;

/// Relies on `chrono::NaiveDateTime::parse_from_str` with format
/// `%Y-%m-%d %H:%M:%S%.f`: the timestamp the text denotes, a function of
/// the characters alone; chrono documents month in 1..=12, day in 1..=31,
/// hour below 24, minute and second below 60.
#[verifier::external_body]
pub fn parse_datetime_text(s: &str) -> (r: Option<DateTimeParts>)
    ensures
        r == datetime_parse_of(s@),
        r matches Some(p) ==> 1 <= p.month <= 12 && 1 <= p.day <= 31 && p.hour < 24 && p.minute
            < 60 && p.second < 60,
{
    match chrono::NaiveDateTime::parse_from_str(s, "%Y-%m-%d %H:%M:%S%.f") {
        Ok(t) => Some(DateTimeParts {
            year: t.year(), month: t.month() as u8, day: t.day() as u8, hour: t.hour() as u8,
            minute: t.minute() as u8, second: t.second() as u8, nanosecond: t.nanosecond(),
        }),
        Err(_) => None,
    }
}

} // verus!
