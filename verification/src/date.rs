//! Calendar dates typed by users (`12/30/24`, `2024-12-30`) and their reading.
use vstd::prelude::*;
use vstd::string::*;

use crate::text::{
    chars_of, decimal, lemma_decimal_digits, lemma_decimal_roundtrip, lemma_signed_decimal_roundtrip,
    parse_i32_in, parse_u32_in, signed_decimal, spec_parse_i32, spec_parse_u32,
};

verus! {

/// A calendar date as plain numbers; no check is made that it exists.
#[derive(Clone, Copy, Debug, PartialEq, Eq, Structural)]
pub struct Simpledate {
    pub year: i32,
    pub month: u32,
    pub day: u32,
}

impl Simpledate {
    /// The date with the given fields.
    pub fn new(year: i32, month: u32, day: u32) -> (r: Self)
        ensures
            r == (Simpledate { year, month, day }),
    {
        Simpledate { year, month, day }
    }
}

/// A character that separates the fields of a typed date.
pub open spec fn is_date_sep(c: char) -> bool {
    c == '-' || c == '/'
}

/// The fields of `s` between separators, as `str::split` on `-` and `/`
/// yields them: one more field than there are separators, empty ones included.
pub open spec fn split_fields(s: Seq<char>) -> Seq<Seq<char>>
    decreases s.len(),
{
    if s.len() == 0 {
        seq![Seq::<char>::empty()]
    } else {
        let prev = split_fields(s.drop_last());
        if is_date_sep(s.last()) {
            prev.push(Seq::<char>::empty())
        } else {
            prev.update(prev.len() - 1, prev.last().push(s.last()))
        }
    }
}

/// How three numbers read from a typed date make a date: a first field in
/// 1..=12 is month/day/year; otherwise year/month/day. A year below 100 counts
/// from 2000.
pub open spec fn interpret_fields(p1: i32, p2: u32, p3: u32) -> Simpledate {
    if 1 <= p1 <= 12 {
        Simpledate {
            year: if p3 < 100 {
                (2000 + p3) as i32
            } else {
                p3 as i32
            },
            month: p1 as u32,
            day: p2,
        }
    } else {
        Simpledate { year: if p1 < 100 { (2000 + p1) as i32 } else { p1 }, month: p2, day: p3 }
    }
}

/// The message for input that does not have three fields.
pub open spec fn format_error_text() -> Seq<char> {
    "Invalid date format. Expected 3 parts separated by - or /"@
}

/// The message for a field that is not a number of its type.
pub open spec fn number_error_text() -> Seq<char> {
    "Invalid number in date"@
}

/// What reading `s` as a date gives: the date, or the text of the error.
pub open spec fn spec_date_from_string(s: Seq<char>) -> Result<Simpledate, Seq<char>> {
    let parts = split_fields(s);
    if parts.len() != 3 {
        Err(format_error_text())
    } else {
        match (spec_parse_i32(parts[0]), spec_parse_u32(parts[1]), spec_parse_u32(parts[2])) {
            (Some(p1), Some(p2), Some(p3)) => Ok(interpret_fields(p1, p2, p3)),
            _ => Err(number_error_text()),
        }
    }
}

/// Reads a typed date: three fields separated by `-` or `/`. The first is an
/// `i32`, the others `u32`s. A first field in 1..=12 reads as
/// month/day/year; anything else as year/month/day. A year below 100 is taken
/// as a year of the 2000s.
pub fn date_from_string(input: String) -> (r: Result<Simpledate, String>)
    ensures
        match (r, spec_date_from_string(input@)) {
            (Ok(d), Ok(e)) => d == e,
            (Err(m), Err(e)) => m@ == e,
            _ => false,
        },
{
    let v = chars_of(input.as_str());
    let mut done: Vec<Vec<char>> = Vec::new();
    let mut cur: Vec<char> = Vec::new();
    let mut i: usize = 0;
    assert(v@.take(0) =~= Seq::<char>::empty());
    while i < v.len()
        invariant
            i <= v.len(),
            v@ == input@,
            split_fields(v@.take(i as int)) =~= done@.map_values(|f: Vec<char>| f@).push(cur@),
        decreases v.len() - i,
    {
        let c = v[i];
        assert(v@.take(i + 1).drop_last() =~= v@.take(i as int));
        if c == '-' || c == '/' {
            let finished = cur;
            done.push(finished);
            cur = Vec::new();
        } else {
            cur.push(c);
        }
        i = i + 1;
    }
    assert(v@.take(v.len() as int) =~= v@);
    if done.len() != 2 {
        return Err(String::from_str("Invalid date format. Expected 3 parts separated by - or /"));
    }
    let ghost parts = split_fields(input@);
    assert(parts[0] == done@[0]@);
    assert(parts[1] == done@[1]@);
    assert(parts[2] == cur@);
    let p1 = parse_i32_in(&done[0], 0, done[0].len());
    let p2 = parse_u32_in(&done[1], 0, done[1].len());
    let p3 = parse_u32_in(&cur, 0, cur.len());
    assert(done@[0]@.subrange(0, done@[0]@.len() as int) =~= done@[0]@);
    assert(done@[1]@.subrange(0, done@[1]@.len() as int) =~= done@[1]@);
    assert(cur@.subrange(0, cur@.len() as int) =~= cur@);
    match (p1, p2, p3) {
        (Ok(part1), Ok(part2), Ok(part3)) => {
            if part1 >= 1 && part1 <= 12 {
                let year = if part3 < 100 {
                    2000 + part3 as i32
                } else {
                    part3 as i32
                };
                Ok(Simpledate { year, month: part1 as u32, day: part2 })
            } else {
                let year = if part1 < 100 {
                    2000 + part1
                } else {
                    part1
                };
                Ok(Simpledate { year, month: part2, day: part3 })
            }
        },
        _ => Err(String::from_str("Invalid number in date")),
    }
}

// ----------------------------------------------------------------------------
// Laws
// ----------------------------------------------------------------------------

/// `s` holds no field separator.
pub open spec fn no_date_sep(s: Seq<char>) -> bool {
    forall|i: int| 0 <= i < s.len() ==> !is_date_sep(#[trigger] s[i])
}

/// Text without separators extends the last field.
proof fn lemma_split_plain_suffix(x: Seq<char>, b: Seq<char>)
    requires
        no_date_sep(b),
    ensures
        split_fields(x + b) == split_fields(x).update(
            split_fields(x).len() - 1,
            split_fields(x).last() + b,
        ),
        split_fields(x).len() >= 1,
    decreases b.len(),
{
    lemma_split_nonempty(x);
    if b.len() == 0 {
        assert(x + b =~= x);
        assert(split_fields(x).last() + b =~= split_fields(x).last());
        assert(split_fields(x).update(split_fields(x).len() - 1, split_fields(x).last())
            =~= split_fields(x));
    } else {
        let b0 = b.drop_last();
        assert(no_date_sep(b0)) by {
            assert forall|i: int| 0 <= i < b0.len() implies !is_date_sep(#[trigger] b0[i]) by {
                assert(b0[i] == b[i]);
            }
        }
        lemma_split_plain_suffix(x, b0);
        assert((x + b).drop_last() =~= x + b0);
        assert((x + b).last() == b[b.len() - 1]);
        assert(!is_date_sep(b[b.len() - 1]));
        assert(split_fields(x).last() + b =~= (split_fields(x).last() + b0).push(b.last()));
        lemma_split_nonempty(x + b0);
        assert(split_fields(x + b) =~= split_fields(x).update(
            split_fields(x).len() - 1,
            split_fields(x).last() + b,
        ));
    }
}

/// There is always at least one field.
proof fn lemma_split_nonempty(s: Seq<char>)
    ensures
        split_fields(s).len() >= 1,
    decreases s.len(),
{
    if s.len() > 0 {
        lemma_split_nonempty(s.drop_last());
    }
}

/// Three separator-free pieces joined by two separators split into those pieces.
proof fn lemma_split_three(a: Seq<char>, s1: char, b: Seq<char>, s2: char, c: Seq<char>)
    requires
        no_date_sep(a),
        no_date_sep(b),
        no_date_sep(c),
        is_date_sep(s1),
        is_date_sep(s2),
    ensures
        split_fields(a.push(s1) + b.push(s2) + c) == seq![a, b, c],
{
    let e = Seq::<char>::empty();
    lemma_split_plain_suffix(e, a);
    assert(e + a =~= a);
    assert(split_fields(e) =~= seq![e]);
    assert(split_fields(a) =~= seq![a]) by {
        assert(e + a == a);
        assert(seq![e].update(0, e + a) =~= seq![a]);
    }
    assert(a.push(s1).drop_last() =~= a);
    assert(split_fields(a.push(s1)) =~= seq![a, e]);
    lemma_split_plain_suffix(a.push(s1), b);
    assert(split_fields(a.push(s1) + b) =~= seq![a, b]) by {
        assert(e + b =~= b);
    }
    let ab = a.push(s1) + b;
    assert(ab.push(s2) =~= a.push(s1) + b.push(s2));
    assert(ab.push(s2).drop_last() =~= ab);
    assert(split_fields(ab.push(s2)) =~= seq![a, b, e]);
    lemma_split_plain_suffix(ab.push(s2), c);
    assert(e + c =~= c);
    assert(split_fields(ab.push(s2) + c) =~= seq![a, b, c]);
}

/// A decimal holds no separator.
proof fn lemma_decimal_no_sep(n: nat)
    ensures
        no_date_sep(decimal(n)),
{
    lemma_decimal_digits(n);
    let d = decimal(n);
    assert forall|i: int| 0 <= i < d.len() implies !is_date_sep(#[trigger] d[i]) by {
        assert(crate::text::is_digit(d[i]));
    }
}

/// A date written as year, month and day in decimal, separated by `sep1` and `sep2`.
pub open spec fn ymd_text(date: Simpledate, sep1: char, sep2: char) -> Seq<char> {
    signed_decimal(date.year as int).push(sep1) + decimal(date.month as nat).push(sep2) + decimal(
        date.day as nat,
    )
}

/// A date written as month, day and year in decimal, separated by `sep1` and `sep2`.
pub open spec fn mdy_text(month: u32, day: u32, year: u32, sep1: char, sep2: char) -> Seq<char> {
    decimal(month as nat).push(sep1) + decimal(day as nat).push(sep2) + decimal(year as nat)
}

/// A date written year-month-day (or with `/`), whose year is at least 100,
/// reads back as the same date.
pub proof fn law_ymd_roundtrip(date: Simpledate, sep1: char, sep2: char)
    requires
        date.year >= 100,
        is_date_sep(sep1),
        is_date_sep(sep2),
    ensures
        spec_date_from_string(ymd_text(date, sep1, sep2)) == Ok::<Simpledate, Seq<char>>(date),
{
    let y = decimal(date.year as nat);
    assert(signed_decimal(date.year as int) == y);
    lemma_decimal_no_sep(date.year as nat);
    lemma_decimal_no_sep(date.month as nat);
    lemma_decimal_no_sep(date.day as nat);
    lemma_split_three(y, sep1, decimal(date.month as nat), sep2, decimal(date.day as nat));
    lemma_signed_decimal_roundtrip(date.year as int);
    lemma_decimal_roundtrip(date.month as nat, false);
    lemma_decimal_roundtrip(date.day as nat, false);
}

/// A date written month/day/year with a month in 1..=12 reads as that day;
/// a year below 100 is a year of the 2000s, a longer one is kept as written.
pub proof fn law_mdy_reads_month_first(month: u32, day: u32, year: u32, sep1: char, sep2: char)
    requires
        1 <= month <= 12,
        year <= i32::MAX,
        is_date_sep(sep1),
        is_date_sep(sep2),
    ensures
        spec_date_from_string(mdy_text(month, day, year, sep1, sep2)) == Ok::<
            Simpledate,
            Seq<char>,
        >(
            Simpledate {
                year: if year < 100 {
                    (2000 + year) as i32
                } else {
                    year as i32
                },
                month,
                day,
            },
        ),
{
    lemma_decimal_no_sep(month as nat);
    lemma_decimal_no_sep(day as nat);
    lemma_decimal_no_sep(year as nat);
    lemma_split_three(decimal(month as nat), sep1, decimal(day as nat), sep2, decimal(year as nat));
    lemma_decimal_roundtrip(month as nat, true);
    lemma_decimal_roundtrip(day as nat, false);
    lemma_decimal_roundtrip(year as nat, false);
}

/// A year-first date with a two-digit year of 13..=99 reads as a year of the 2000s.
pub proof fn law_ymd_two_digit_year(year: u32, month: u32, day: u32, sep1: char, sep2: char)
    requires
        13 <= year <= 99,
        is_date_sep(sep1),
        is_date_sep(sep2),
    ensures
        spec_date_from_string(mdy_text(year, month, day, sep1, sep2)) == Ok::<
            Simpledate,
            Seq<char>,
        >(Simpledate { year: (2000 + year) as i32, month, day }),
{
    lemma_decimal_no_sep(year as nat);
    lemma_decimal_no_sep(month as nat);
    lemma_decimal_no_sep(day as nat);
    lemma_split_three(decimal(year as nat), sep1, decimal(month as nat), sep2, decimal(day as nat));
    lemma_decimal_roundtrip(year as nat, true);
    lemma_decimal_roundtrip(month as nat, false);
    lemma_decimal_roundtrip(day as nat, false);
}

} // verus!
