//! Character-level text helpers: decimal integers as std reads and writes
//! them, and string building.
use vstd::prelude::*;
use vstd::string::*;

verus! {

// ----------------------------------------------------------------------------
// Decimal literals
// ----------------------------------------------------------------------------

/// An ASCII decimal digit.
pub open spec fn is_digit(c: char) -> bool {
    '0' <= c && c <= '9'
}

/// The value of an ASCII decimal digit.
pub open spec fn digit_val(c: char) -> int {
    c as int - '0' as int
}

/// Every character of `s` is an ASCII decimal digit.
pub open spec fn all_digits(s: Seq<char>) -> bool {
    forall|i: int| 0 <= i < s.len() ==> is_digit(#[trigger] s[i])
}

/// The number that a string of decimal digits denotes (most significant first).
pub open spec fn digits_value(s: Seq<char>) -> int
    decreases s.len(),
{
    if s.len() == 0 {
        0
    } else {
        10 * digits_value(s.drop_last()) + digit_val(s.last())
    }
}

/// A non-empty run of decimal digits and the number it denotes.
pub open spec fn digits_only(s: Seq<char>) -> Option<int> {
    if s.len() > 0 && all_digits(s) {
        Some(digits_value(s))
    } else {
        None
    }
}

/// The integer that `s` denotes in the syntax std's `FromStr` accepts for
/// integers: an optional `+` (or, for signed types, `-`) followed by one or
/// more ASCII digits; nothing else, no white space.
pub open spec fn literal_value(s: Seq<char>, signed: bool) -> Option<int> {
    if s.len() > 0 && s[0] == '+' {
        digits_only(s.drop_first())
    } else if signed && s.len() > 0 && s[0] == '-' {
        match digits_only(s.drop_first()) {
            Some(v) => Some(-v),
            None => None,
        }
    } else {
        digits_only(s)
    }
}

/// What `str::parse::<i32>` returns on `s`, as an option.
pub open spec fn spec_parse_i32(s: Seq<char>) -> Option<i32> {
    match literal_value(s, true) {
        Some(v) => if i32::MIN <= v <= i32::MAX {
            Some(v as i32)
        } else {
            None
        },
        None => None,
    }
}

/// What `str::parse::<u32>` returns on `s`, as an option.
pub open spec fn spec_parse_u32(s: Seq<char>) -> Option<u32> {
    match literal_value(s, false) {
        Some(v) => if 0 <= v <= u32::MAX {
            Some(v as u32)
        } else {
            None
        },
        None => None,
    }
}

/// What `str::parse::<u16>` returns on `s`, as an option.
pub open spec fn spec_parse_u16(s: Seq<char>) -> Option<u16> {
    match literal_value(s, false) {
        Some(v) => if 0 <= v <= u16::MAX {
            Some(v as u16)
        } else {
            None
        },
        None => None,
    }
}

/// The kind of error std's integer parsing reports (its `IntErrorKind`).
#[derive(Clone, Copy, Debug, PartialEq, Eq, Structural)]
pub enum IntParseError {
    /// Nothing to parse.
    Empty,
    /// A character that is no digit (a sign alone counts as one).
    InvalidDigit,
    /// The number is above the type's maximum.
    PosOverflow,
    /// The number is below the type's minimum.
    NegOverflow,
}

/// Where a digit-by-digit scan stops early.
#[derive(Clone, Copy, Debug, PartialEq, Eq, Structural)]
pub enum DigitStop {
    /// At a character that is no digit.
    BadDigit,
    /// At a digit that takes the value past the limit.
    TooLarge,
}

/// Reads `s` digit by digit from the left, as std does: the value so far, or
/// the first reason to stop (a non-digit, or a value past `limit`).
pub open spec fn scan_digits(s: Seq<char>, limit: int) -> Result<int, DigitStop>
    decreases s.len(),
{
    if s.len() == 0 {
        Ok(0)
    } else {
        match scan_digits(s.drop_last(), limit) {
            Err(e) => Err(e),
            Ok(v) => if !is_digit(s.last()) {
                Err(DigitStop::BadDigit)
            } else if 10 * v + digit_val(s.last()) > limit {
                Err(DigitStop::TooLarge)
            } else {
                Ok(10 * v + digit_val(s.last()))
            },
        }
    }
}

/// The scan's verdict as std's error kinds, for a number of the given sign.
pub open spec fn signed_scan(r: Result<int, DigitStop>, negative: bool) -> Result<int, IntParseError> {
    match r {
        Ok(v) => Ok(if negative { -v } else { v }),
        Err(DigitStop::BadDigit) => Err(IntParseError::InvalidDigit),
        Err(DigitStop::TooLarge) => Err(if negative {
            IntParseError::NegOverflow
        } else {
            IntParseError::PosOverflow
        }),
    }
}

/// What std's integer `FromStr` gives on `s` for a type whose values are
/// `-neg_limit..=pos_limit`: empty text is `Empty`, a sign alone an invalid
/// digit; then the digits after an optional `+` (or `-` for signed types)
/// are scanned from the left and the first problem found is reported.
pub open spec fn int_result(s: Seq<char>, signed: bool, pos_limit: int, neg_limit: int) -> Result<
    int,
    IntParseError,
> {
    if s.len() == 0 {
        Err(IntParseError::Empty)
    } else if s.len() == 1 && (s[0] == '+' || s[0] == '-') {
        Err(IntParseError::InvalidDigit)
    } else if s[0] == '+' {
        signed_scan(scan_digits(s.drop_first(), pos_limit), false)
    } else if signed && s[0] == '-' {
        signed_scan(scan_digits(s.drop_first(), neg_limit), true)
    } else {
        signed_scan(scan_digits(s, pos_limit), false)
    }
}

/// What `str::parse::<i32>` returns on `s`.
pub open spec fn spec_i32_result(s: Seq<char>) -> Result<i32, IntParseError> {
    match int_result(s, true, 2147483647, 2147483648) {
        Ok(v) => Ok(v as i32),
        Err(e) => Err(e),
    }
}

/// What `str::parse::<u32>` returns on `s`.
pub open spec fn spec_u32_result(s: Seq<char>) -> Result<u32, IntParseError> {
    match int_result(s, false, 4294967295, 9) {
        Ok(v) => Ok(v as u32),
        Err(e) => Err(e),
    }
}

/// What `str::parse::<u16>` returns on `s`.
pub open spec fn spec_u16_result(s: Seq<char>) -> Result<u16, IntParseError> {
    match int_result(s, false, 65535, 9) {
        Ok(v) => Ok(v as u16),
        Err(e) => Err(e),
    }
}

/// The text std's `ParseIntError` displays for each kind.
pub open spec fn int_error_text(e: IntParseError) -> Seq<char> {
    match e {
        IntParseError::Empty => "cannot parse integer from empty string"@,
        IntParseError::InvalidDigit => "invalid digit found in string"@,
        IntParseError::PosOverflow => "number too large to fit in target type"@,
        IntParseError::NegOverflow => "number too small to fit in target type"@,
    }
}

impl IntParseError {
    /// The message std shows for this kind of error.
    pub fn to_string(&self) -> (r: String)
        ensures
            r@ == int_error_text(*self),
    {
        match self {
            IntParseError::Empty => String::from_str("cannot parse integer from empty string"),
            IntParseError::InvalidDigit => String::from_str("invalid digit found in string"),
            IntParseError::PosOverflow => String::from_str("number too large to fit in target type"),
            IntParseError::NegOverflow => String::from_str("number too small to fit in target type"),
        }
    }
}

/// The character of a digit value `0..=9`.
pub open spec fn digit_char(d: int) -> char {
    (d + 48) as char
}

/// The decimal representation of `n`, without leading zeros (as `{}` prints it).
pub open spec fn decimal(n: nat) -> Seq<char>
    decreases n,
{
    if n < 10 {
        seq![digit_char(n as int)]
    } else {
        decimal(n / 10).push(digit_char((n % 10) as int))
    }
}

/// The decimal representation of an integer, with a `-` before negative ones.
pub open spec fn signed_decimal(i: int) -> Seq<char> {
    if i < 0 {
        seq!['-'] + decimal((-i) as nat)
    } else {
        decimal(i as nat)
    }
}

/// `n` zero characters.
pub open spec fn zeros(n: nat) -> Seq<char> {
    Seq::new(n, |_i: int| '0')
}

/// An integer as `{:0w}` prints it: the sign, then zeros up to a total width of
/// at least `w`, then the digits.
pub open spec fn zero_padded(i: int, w: nat) -> Seq<char> {
    let sign: Seq<char> = if i < 0 { seq!['-'] } else { seq![] };
    let digits = decimal(if i < 0 { (-i) as nat } else { i as nat });
    let fill: int = w - sign.len() - digits.len();
    sign + zeros(if fill > 0 { fill as nat } else { 0 }) + digits
}

// ----------------------------------------------------------------------------
// Lemmas on decimal literals
// ----------------------------------------------------------------------------

/// Appending digits never makes a digit string denote less.
pub proof fn lemma_digits_value_prefix(s: Seq<char>, k: int)
    requires
        0 <= k <= s.len(),
        all_digits(s),
    ensures
        0 <= digits_value(s.take(k)) <= digits_value(s),
    decreases s.len() - k,
{
    lemma_digits_value_nonneg(s);
    if k < s.len() {
        lemma_digits_value_prefix(s, k + 1);
        assert(s.take(k + 1).drop_last() =~= s.take(k));
        assert(is_digit(s[k]));
        lemma_digits_value_nonneg(s.take(k));
    } else {
        assert(s.take(k) =~= s);
    }
}

/// A digit string denotes a non-negative number.
pub proof fn lemma_digits_value_nonneg(s: Seq<char>)
    requires
        all_digits(s),
    ensures
        digits_value(s) >= 0,
    decreases s.len(),
{
    if s.len() > 0 {
        assert(all_digits(s.drop_last()));
        lemma_digits_value_nonneg(s.drop_last());
        assert(is_digit(s[s.len() - 1]));
    }
}

/// `decimal` writes only digits, at least one, and they denote the number.
pub proof fn lemma_decimal_value(n: nat)
    ensures
        decimal(n).len() > 0,
        all_digits(decimal(n)),
        digits_value(decimal(n)) == n,
        decimal(n)[0] != '+' && decimal(n)[0] != '-',
    decreases n,
{
    if n >= 10 {
        lemma_decimal_value(n / 10);
        let d = decimal(n / 10);
        let e = d.push(digit_char((n % 10) as int));
        assert(e.drop_last() =~= d);
        assert(e[0] == d[0]);
        assert(digit_val(digit_char((n % 10) as int)) == n % 10);
        assert(n == 10 * (n / 10) + n % 10);
        assert(digits_value(e) == 10 * digits_value(d) + digit_val(e.last()));
        assert(e.last() == digit_char((n % 10) as int));
        assert forall|i: int| 0 <= i < e.len() implies is_digit(#[trigger] e[i]) by {
            if i < d.len() {
                assert(e[i] == d[i]);
            }
        }
        assert(digits_value(e) == n);
        assert(decimal(n) == e);
    } else {
        let e = decimal(n);
        assert(e.drop_last() =~= Seq::<char>::empty());
        assert(digit_val(digit_char(n as int)) == n);
        assert(digits_value(e) == 10 * digits_value(e.drop_last()) + digit_val(e.last()));
        assert(digits_value(e) == n);
    }
}

/// Reading back what `{}` prints gives the number again.
pub proof fn lemma_decimal_roundtrip(n: nat, signed: bool)
    ensures
        literal_value(decimal(n), signed) == Some(n as int),
{
    lemma_decimal_value(n);
}

/// Reading back a signed decimal gives the number again.
pub proof fn lemma_signed_decimal_roundtrip(i: int)
    ensures
        literal_value(signed_decimal(i), true) == Some(i),
{
    if i < 0 {
        let d = decimal((-i) as nat);
        lemma_decimal_value((-i) as nat);
        let s = seq!['-'] + d;
        assert(s.drop_first() =~= d);
        assert(s[0] == '-');
    } else {
        lemma_decimal_value(i as nat);
    }
}

/// A decimal has no character other than digits.
pub proof fn lemma_decimal_digits(n: nat)
    ensures
        all_digits(decimal(n)),
        decimal(n).len() > 0,
{
    lemma_decimal_value(n);
}

/// An unsigned literal never denotes a negative number.
pub proof fn lemma_unsigned_literal_nonneg(s: Seq<char>)
    ensures
        literal_value(s, false) matches Some(x) ==> x >= 0,
{
    if s.len() > 0 && s[0] == '+' {
        if all_digits(s.drop_first()) {
            lemma_digits_value_nonneg(s.drop_first());
        }
    } else if all_digits(s) {
        lemma_digits_value_nonneg(s);
    }
}

/// Once a scan has stopped on a prefix, it stops there on the whole text.
proof fn lemma_scan_stops(s: Seq<char>, k: int, limit: int)
    requires
        0 <= k <= s.len(),
        scan_digits(s.take(k), limit) is Err,
    ensures
        scan_digits(s, limit) == scan_digits(s.take(k), limit),
    decreases s.len() - k,
{
    if k == s.len() {
        assert(s.take(k) =~= s);
    } else {
        let t = s.drop_last();
        assert(t.take(k) =~= s.take(k));
        lemma_scan_stops(t, k, limit);
    }
}

/// A scan succeeds exactly on digit strings within the limit, with their value.
proof fn lemma_scan_value(s: Seq<char>, limit: int)
    requires
        limit >= 0,
    ensures
        (scan_digits(s, limit) is Ok) == (all_digits(s) && digits_value(s) <= limit),
        scan_digits(s, limit) matches Ok(v) ==> v == digits_value(s),
    decreases s.len(),
{
    if s.len() > 0 {
        let t = s.drop_last();
        lemma_scan_value(t, limit);
        assert(forall|i: int| 0 <= i < t.len() ==> t[i] == s[i]);
        if all_digits(s) {
            assert(all_digits(t)) by {
                assert forall|i: int| 0 <= i < t.len() implies is_digit(#[trigger] t[i]) by {
                    assert(t[i] == s[i]);
                }
            }
            lemma_digits_value_nonneg(t);
            assert(is_digit(s[s.len() - 1]));
        }
        if !is_digit(s.last()) {
            assert(!all_digits(s)) by {
                assert(!is_digit(s[s.len() - 1]));
            }
        }
    }
}

/// An unsigned parse never gives a negative number.
proof fn lemma_unsigned_result_nonneg(s: Seq<char>, pos_limit: int)
    requires
        pos_limit >= 0,
    ensures
        int_result(s, false, pos_limit, 9) matches Ok(v) ==> 0 <= v <= pos_limit,
{
    if s.len() > 1 && s[0] == '+' {
        lemma_scan_value(s.drop_first(), pos_limit);
        if all_digits(s.drop_first()) {
            lemma_digits_value_nonneg(s.drop_first());
        }
    } else if s.len() > 0 {
        lemma_scan_value(s, pos_limit);
        if all_digits(s) {
            lemma_digits_value_nonneg(s);
        }
    }
}

/// std's verdict agrees with the literal syntax: it succeeds exactly where `s`
/// is a literal whose value is in range, and gives that value.
proof fn lemma_int_result_literal(s: Seq<char>, signed: bool, pos_limit: int, neg_limit: int)
    requires
        pos_limit >= 0,
        neg_limit >= 0,
    ensures
        (int_result(s, signed, pos_limit, neg_limit) is Ok) == (literal_value(s, signed) matches Some(
            x,
        ) && -neg_limit <= x <= pos_limit),
        int_result(s, signed, pos_limit, neg_limit) matches Ok(v) ==> literal_value(s, signed)
            == Some(v),
{
    if s.len() == 0 {
    } else if s.len() == 1 && (s[0] == '+' || s[0] == '-') {
        assert(s.drop_first() =~= Seq::<char>::empty());
        if s[0] == '-' && !signed {
            assert(!is_digit(s[0]));
            assert(!all_digits(s));
        }
    } else if s[0] == '+' {
        let t = s.drop_first();
        lemma_scan_value(t, pos_limit);
        if all_digits(t) {
            lemma_digits_value_nonneg(t);
        }
    } else if signed && s[0] == '-' {
        let t = s.drop_first();
        lemma_scan_value(t, neg_limit);
        if all_digits(t) {
            lemma_digits_value_nonneg(t);
        }
    } else {
        lemma_scan_value(s, pos_limit);
        if all_digits(s) {
            lemma_digits_value_nonneg(s);
        }
    }
}

// ----------------------------------------------------------------------------
// Laws
// ----------------------------------------------------------------------------

/// Reading an `i32` back from how `{}` prints it gives the same number.
pub proof fn law_parse_i32_reads_display(i: i32)
    ensures
        spec_parse_i32(signed_decimal(i as int)) == Some(i),
{
    lemma_signed_decimal_roundtrip(i as int);
}

/// Reading a `u32` back from how `{}` prints it gives the same number.
pub proof fn law_parse_u32_reads_display(n: u32)
    ensures
        spec_parse_u32(decimal(n as nat)) == Some(n),
{
    lemma_decimal_roundtrip(n as nat, false);
}

/// Reading a `u16` back from how `{}` prints it gives the same number.
pub proof fn law_parse_u16_reads_display(n: u16)
    ensures
        spec_parse_u16(decimal(n as nat)) == Some(n),
{
    lemma_decimal_roundtrip(n as nat, false);
}

/// An explicit `+` sign changes nothing; a `-` is refused by unsigned types.
pub proof fn law_sign_prefixes(s: Seq<char>)
    ensures
        spec_parse_u32(seq!['+'] + s) == (if s.len() > 0 && s[0] != '+' && s[0] != '-' {
            spec_parse_u32(s)
        } else {
            None::<u32>
        }),
        spec_parse_u32(seq!['-'] + s) == None::<u32>,
{
    let t = seq!['+'] + s;
    assert(t.drop_first() =~= s);
    let u = seq!['-'] + s;
    assert(u[0] == '-');
    assert(!is_digit(u[0]));
    if s.len() > 0 && (s[0] == '+' || s[0] == '-') {
        assert(!is_digit(s[0]));
    }
}

/// `{:0w}` is at least `w` characters long, and exactly the plain decimal
/// where that is already as long.
pub proof fn law_zero_padded_width(i: int, w: nat)
    ensures
        zero_padded(i, w).len() >= w,
        zero_padded(i, w).len() >= signed_decimal(i).len(),
        signed_decimal(i).len() >= w ==> zero_padded(i, w) == signed_decimal(i),
{
    let sign: Seq<char> = if i < 0 { seq!['-'] } else { seq![] };
    let digits = decimal(if i < 0 { (-i) as nat } else { i as nat });
    let fill: int = w - sign.len() - digits.len();
    if fill <= 0 {
        assert(zeros(0) =~= Seq::<char>::empty());
        if i < 0 {
            assert(zero_padded(i, w) =~= signed_decimal(i));
        } else {
            assert(zero_padded(i, w) =~= signed_decimal(i));
        }
    }
}

// ----------------------------------------------------------------------------
// Executable text helpers
// ----------------------------------------------------------------------------

/// Appends one character to a string (std's `String::push`).
#[verifier::external_body]
pub fn push_char(s: &mut String, c: char)
    ensures
        final(s)@ == old(s)@.push(c),
{
    s.push(c);
}

/// The characters of a string slice, in order.
pub fn chars_of(s: &str) -> (v: Vec<char>)
    ensures
        v@ == s@,
{
    let mut v: Vec<char> = Vec::new();
    for c in it: s.chars()
        invariant
            v@ == it.seq().take(it.index()),
            it.seq() == s@,
    {
        v.push(c);
    }
    v
}

/// Whether two string slices hold the same characters.
pub fn same_text(a: &str, b: &str) -> (r: bool)
    ensures
        r == (a@ == b@),
{
    let x = chars_of(a);
    let y = chars_of(b);
    if x.len() != y.len() {
        return false;
    }
    let mut i: usize = 0;
    while i < x.len()
        invariant
            x@ == a@,
            y@ == b@,
            x.len() == y.len(),
            i <= x.len(),
            forall|j: int| 0 <= j < i ==> x@[j] == y@[j],
        decreases x.len() - i,
    {
        if x[i] != y[i] {
            return false;
        }
        i = i + 1;
    }
    assert(x@ =~= y@);
    true
}

/// Appends the characters of `v[from..to]` to `out`.
pub fn push_range(out: &mut String, v: &Vec<char>, from: usize, to: usize)
    requires
        from <= to <= v.len(),
    ensures
        final(out)@ == old(out)@ + v@.subrange(from as int, to as int),
{
    let mut i = from;
    while i < to
        invariant
            from <= i <= to <= v.len(),
            out@ == old(out)@ + v@.subrange(from as int, i as int),
        decreases to - i,
    {
        push_char(out, v[i]);
        assert(v@.subrange(from as int, i + 1) =~= v@.subrange(from as int, i as int).push(
            v@[i as int],
        ));
        i = i + 1;
    }
}

/// Appends a string slice to `out`.
pub fn push_str(out: &mut String, s: &str)
    ensures
        final(out)@ == old(out)@ + s@,
{
    let v = chars_of(s);
    push_range(out, &v, 0, v.len());
    assert(v@.subrange(0, v.len() as int) =~= v@);
}

/// Scans `v[from..to]` digit by digit as std does, stopping at the first
/// character that is no digit or the first digit that takes the value past
/// `limit`.
fn scan_range(v: &Vec<char>, from: usize, to: usize, limit: u64) -> (r: Result<u64, DigitStop>)
    requires
        from <= to <= v.len(),
        limit >= 9,
    ensures
        match (r, scan_digits(v@.subrange(from as int, to as int), limit as int)) {
            (Ok(x), Ok(y)) => x as int == y,
            (Err(e), Err(f)) => e == f,
            _ => false,
        },
{
    let ghost s = v@.subrange(from as int, to as int);
    let mut acc: u64 = 0;
    let mut i = from;
    assert(s.take(0) =~= Seq::<char>::empty());
    while i < to
        invariant
            from <= i <= to <= v.len(),
            s == v@.subrange(from as int, to as int),
            scan_digits(s.take(i - from), limit as int) == Ok::<int, DigitStop>(acc as int),
            acc <= limit,
            limit >= 9,
        decreases to - i,
    {
        let c = v[i];
        assert(s.take(i + 1 - from).drop_last() =~= s.take(i - from));
        assert(s.take(i + 1 - from).last() == c);
        if !('0' <= c && c <= '9') {
            proof {
                lemma_scan_stops(s, i + 1 - from, limit as int);
            }
            return Err(DigitStop::BadDigit);
        }
        let d = (c as u32 - '0' as u32) as u64;
        if acc > (limit - d) / 10 {
            proof {
                assert(10 * acc + d > limit) by (nonlinear_arith)
                    requires
                        acc > (limit - d) / 10,
                        d <= 9,
                        d <= limit,
                ;
                lemma_scan_stops(s, i + 1 - from, limit as int);
            }
            return Err(DigitStop::TooLarge);
        }
        proof {
            assert(10 * acc + d <= limit) by (nonlinear_arith)
                requires
                    acc <= (limit - d) / 10,
                    d <= limit,
            ;
        }
        acc = 10 * acc + d;
        i = i + 1;
    }
    assert(s.take(to - from) =~= s);
    Ok(acc)
}

/// What parsing `v[from..to]` as an integer literal gives (see `int_result`).
fn int_in_range(
    v: &Vec<char>,
    from: usize,
    to: usize,
    signed: bool,
    pos_limit: u64,
    neg_limit: u64,
) -> (r: Result<i64, IntParseError>)
    requires
        from <= to <= v.len(),
        9 <= pos_limit <= i64::MAX,
        9 <= neg_limit <= i64::MAX,
    ensures
        match (r, int_result(v@.subrange(from as int, to as int), signed, pos_limit as int, neg_limit as int)) {
            (Ok(x), Ok(y)) => x as int == y,
            (Err(e), Err(f)) => e == f,
            _ => false,
        },
{
    let ghost s = v@.subrange(from as int, to as int);
    if from == to {
        return Err(IntParseError::Empty);
    }
    if to - from == 1 && (v[from] == '+' || v[from] == '-') {
        return Err(IntParseError::InvalidDigit);
    }
    if v[from] == '+' {
        assert(s.drop_first() =~= v@.subrange(from + 1, to as int));
        match scan_range(v, from + 1, to, pos_limit) {
            Ok(x) => Ok(x as i64),
            Err(DigitStop::BadDigit) => Err(IntParseError::InvalidDigit),
            Err(DigitStop::TooLarge) => Err(IntParseError::PosOverflow),
        }
    } else if signed && v[from] == '-' {
        assert(s.drop_first() =~= v@.subrange(from + 1, to as int));
        match scan_range(v, from + 1, to, neg_limit) {
            Ok(x) => Ok(-(x as i64)),
            Err(DigitStop::BadDigit) => Err(IntParseError::InvalidDigit),
            Err(DigitStop::TooLarge) => Err(IntParseError::NegOverflow),
        }
    } else {
        match scan_range(v, from, to, pos_limit) {
            Ok(x) => Ok(x as i64),
            Err(DigitStop::BadDigit) => Err(IntParseError::InvalidDigit),
            Err(DigitStop::TooLarge) => Err(IntParseError::PosOverflow),
        }
    }
}

/// `str::parse::<i32>` on the characters `v[from..to]`.
pub fn parse_i32_in(v: &Vec<char>, from: usize, to: usize) -> (r: Result<i32, IntParseError>)
    requires
        from <= to <= v.len(),
    ensures
        r == spec_i32_result(v@.subrange(from as int, to as int)),
        r matches Ok(x) ==> spec_parse_i32(v@.subrange(from as int, to as int)) == Some(x),
        r is Err ==> spec_parse_i32(v@.subrange(from as int, to as int)) is None,
{
    proof {
        lemma_int_result_literal(v@.subrange(from as int, to as int), true, 2147483647, 2147483648);
    }
    match int_in_range(v, from, to, true, 2147483647, 2147483648) {
        Ok(x) => Ok(x as i32),
        Err(e) => Err(e),
    }
}

/// `str::parse::<u32>` on the characters `v[from..to]`.
pub fn parse_u32_in(v: &Vec<char>, from: usize, to: usize) -> (r: Result<u32, IntParseError>)
    requires
        from <= to <= v.len(),
    ensures
        r == spec_u32_result(v@.subrange(from as int, to as int)),
        r matches Ok(x) ==> spec_parse_u32(v@.subrange(from as int, to as int)) == Some(x),
        r is Err ==> spec_parse_u32(v@.subrange(from as int, to as int)) is None,
{
    proof {
        lemma_int_result_literal(v@.subrange(from as int, to as int), false, 4294967295, 9);
        lemma_unsigned_result_nonneg(v@.subrange(from as int, to as int), 4294967295);
        lemma_unsigned_literal_nonneg(v@.subrange(from as int, to as int));
    }
    match int_in_range(v, from, to, false, 4294967295, 9) {
        Ok(x) => Ok(x as u32),
        Err(e) => Err(e),
    }
}

/// `str::parse::<u16>` on the characters `v[from..to]`.
pub fn parse_u16_in(v: &Vec<char>, from: usize, to: usize) -> (r: Result<u16, IntParseError>)
    requires
        from <= to <= v.len(),
    ensures
        r == spec_u16_result(v@.subrange(from as int, to as int)),
        r matches Ok(x) ==> spec_parse_u16(v@.subrange(from as int, to as int)) == Some(x),
        r is Err ==> spec_parse_u16(v@.subrange(from as int, to as int)) is None,
{
    proof {
        lemma_int_result_literal(v@.subrange(from as int, to as int), false, 65535, 9);
        lemma_unsigned_result_nonneg(v@.subrange(from as int, to as int), 65535);
        lemma_unsigned_literal_nonneg(v@.subrange(from as int, to as int));
    }
    match int_in_range(v, from, to, false, 65535, 9) {
        Ok(x) => Ok(x as u16),
        Err(e) => Err(e),
    }
}

/// `str::parse::<i32>`: the integer that `s` denotes, or the kind of error
/// std reports.
pub fn parse_i32(s: &str) -> (r: Result<i32, IntParseError>)
    ensures
        r == spec_i32_result(s@),
        r matches Ok(x) ==> spec_parse_i32(s@) == Some(x),
        r is Err ==> spec_parse_i32(s@) is None,
{
    let v = chars_of(s);
    assert(v@.subrange(0, v.len() as int) =~= s@);
    parse_i32_in(&v, 0, v.len())
}

/// `str::parse::<u32>`: the integer that `s` denotes, or the kind of error
/// std reports.
pub fn parse_u32(s: &str) -> (r: Result<u32, IntParseError>)
    ensures
        r == spec_u32_result(s@),
        r matches Ok(x) ==> spec_parse_u32(s@) == Some(x),
        r is Err ==> spec_parse_u32(s@) is None,
{
    let v = chars_of(s);
    assert(v@.subrange(0, v.len() as int) =~= s@);
    parse_u32_in(&v, 0, v.len())
}

/// `str::parse::<u16>`: the integer that `s` denotes, or the kind of error
/// std reports.
pub fn parse_u16(s: &str) -> (r: Result<u16, IntParseError>)
    ensures
        r == spec_u16_result(s@),
        r matches Ok(x) ==> spec_parse_u16(s@) == Some(x),
        r is Err ==> spec_parse_u16(s@) is None,
{
    let v = chars_of(s);
    assert(v@.subrange(0, v.len() as int) =~= s@);
    parse_u16_in(&v, 0, v.len())
}

/// The characters of `decimal(n)`.
pub fn decimal_chars(n: u64) -> (v: Vec<char>)
    ensures
        v@ == decimal(n as nat),
    decreases n,
{
    let mut v = if n >= 10 {
        decimal_chars(n / 10)
    } else {
        Vec::new()
    };
    let d = (n % 10) as u8;
    let c = (48u8 + d) as char;
    assert(c == digit_char((n % 10) as int));
    v.push(c);
    proof {
        if n < 10 {
            assert(v@ =~= seq![digit_char(n as int)]);
        }
    }
    v
}

/// The magnitude of an `i64`.
fn magnitude(i: i64) -> (m: u64)
    ensures
        m as int == if i < 0 { -i } else { i as int },
{
    if i < 0 {
        ((-(i + 1)) as u64) + 1
    } else {
        i as u64
    }
}

/// Appends `{}` of a non-negative integer.
pub fn push_decimal(out: &mut String, n: u64)
    ensures
        final(out)@ == old(out)@ + decimal(n as nat),
{
    let v = decimal_chars(n);
    push_range(out, &v, 0, v.len());
    assert(v@.subrange(0, v.len() as int) =~= v@);
}

/// Appends `{}` of a signed integer.
pub fn push_signed_decimal(out: &mut String, i: i64)
    ensures
        final(out)@ == old(out)@ + signed_decimal(i as int),
{
    if i < 0 {
        push_char(out, '-');
    }
    push_decimal(out, magnitude(i));
    proof {
        if i < 0 {
            assert(final(out)@ =~= old(out)@ + (seq!['-'] + decimal((-i) as nat)));
        }
    }
}

/// Appends `{:0w}` of a signed integer: the sign, zeros up to a total width of
/// at least `w`, then the digits.
pub fn push_zero_padded(out: &mut String, i: i64, w: usize)
    ensures
        final(out)@ == old(out)@ + zero_padded(i as int, w as nat),
{
    let digits = decimal_chars(magnitude(i));
    let sign_len: usize = if i < 0 { 1 } else { 0 };
    if i < 0 {
        push_char(out, '-');
    }
    let ghost before_fill = out@;
    let mut fill: usize = 0;
    if w > sign_len && w - sign_len > digits.len() {
        fill = w - sign_len - digits.len();
    }
    let mut k: usize = 0;
    while k < fill
        invariant
            k <= fill,
            out@ == before_fill + zeros(k as nat),
        decreases fill - k,
    {
        push_char(out, '0');
        assert(zeros((k + 1) as nat) =~= zeros(k as nat).push('0'));
        k = k + 1;
    }
    push_range(out, &digits, 0, digits.len());
    proof {
        assert(digits@.subrange(0, digits.len() as int) =~= digits@);
        let sign: Seq<char> = if i < 0 { seq!['-'] } else { seq![] };
        assert(before_fill =~= old(out)@ + sign);
        assert(final(out)@ =~= old(out)@ + zero_padded(i as int, w as nat));
    }
}

} // verus!
