//! Small shared helpers.

use vstd::prelude::*;
use vstd::string::StringExecFns;
use crate::text::{
    ascii_lower, ascii_word, begins, begins_with, chars_of, contains_str, digit_char, has,
    is_ascii_word, lower, push_digit, slice_string, trim_of, trim_str, trimmed, trimmed_of,
};

verus! {

/// How the url crate writes the address it reads in `text`, if it reads one.
pub uninterp spec fn url_written(text: Seq<char>) -> Option<Seq<char>>;

/// `Url::parse` and `Url::as_str` of the url crate. The result depends on the
/// text alone.
#[verifier::external_body]
pub(crate) fn read_url(text: &str) -> (r: Option<String>)
    ensures
        crate::text::opt_view(r) == url_written(text@),
{
    url::Url::parse(text).ok().map(|u| u.as_str().to_string())
}

/// What is handed to the parser for something typed in a URL bar.
pub open spec fn address_typed(s: Seq<char>) -> Seq<char> {
    if has(s, "://"@) {
        s
    } else if begins(s, "localhost"@) || begins(s, "127.0.0.1"@) {
        "http://"@ + s
    } else {
        "https://"@ + s
    }
}

pub fn complete_address(s: &str) -> (r: String)
    ensures
        r@ == address_typed(s@),
{
    if contains_str(s, "://") {
        s.to_owned()
    } else if begins_with(s, "localhost") || begins_with(s, "127.0.0.1") {
        let mut out = "http://".to_owned();
        out.append(s);
        out
    } else {
        let mut out = "https://".to_owned();
        out.append(s);
        out
    }
}

/// The address that something typed in a URL bar means. What is not an address
/// means the blank page.
pub open spec fn normalized(input: Seq<char>) -> Seq<char> {
    if trimmed(input).len() == 0 {
        "about:blank"@
    } else {
        match url_written(address_typed(trimmed(input))) {
            Some(u) => u,
            None => "about:blank"@,
        }
    }
}

/// Accept what a person types in a URL bar. A bare host becomes https, because
/// that is what a dev URL almost always is now; an explicit scheme is left
/// alone so `http://localhost:5173` still works. What is not an address becomes
/// the blank page.
pub fn normalize_url(input: &str) -> (r: String)
    ensures
        r@ == normalized(input@),
{
    let s = trim_str(input);
    if s.as_str().is_empty() {
        return "about:blank".to_owned();
    }
    match read_url(complete_address(s.as_str()).as_str()) {
        Some(u) => u,
        None => "about:blank".to_owned(),
    }
}

/// Whether a year has a leap day.
pub open spec fn is_leap(y: int) -> bool {
    (y % 4 == 0 && y % 100 != 0) || y % 400 == 0
}

pub open spec fn month_length(y: int, m: int) -> int {
    if m == 2 {
        if is_leap(y) {
            29
        } else {
            28
        }
    } else if m == 4 || m == 6 || m == 9 || m == 11 {
        30
    } else {
        31
    }
}

/// How many leap days fall before the first of January of year `y`.
pub open spec fn leap_days_before(y: int) -> int {
    (y - 1) / 4 - (y - 1) / 100 + (y - 1) / 400
}

/// How many days of a year go before its month `m`.
pub open spec fn days_before_month(y: int, m: int) -> int
    decreases m,
{
    if m <= 1 {
        0
    } else {
        days_before_month(y, m - 1) + month_length(y, m - 1)
    }
}

/// How many days a date is after the first of January 1970.
pub open spec fn days_after_epoch(y: int, m: int, d: int) -> int {
    365 * (y - 1970) + leap_days_before(y) - leap_days_before(1970) + days_before_month(y, m) + d
        - 1
}

pub open spec fn is_date(y: int, m: int, d: int) -> bool {
    1 <= m <= 12 && 1 <= d <= month_length(y, m)
}

/// The year of an era of four hundred, counted from March, that day `doe` of
/// it falls in.
spec fn year_of_era(doe: int) -> int {
    (doe - doe / 1460 + doe / 36_524 - doe / 146_096) / 365
}

spec fn days_before_year(yoe: int) -> int {
    365 * yoe + yoe / 4 - yoe / 100
}

proof fn lemma_year_of_era(doe: int)
    requires
        0 <= doe <= 146_096,
    ensures
        0 <= year_of_era(doe) <= 399,
        days_before_year(year_of_era(doe)) <= doe,
        doe <= days_before_year(year_of_era(doe)) + 365,
        doe == days_before_year(year_of_era(doe)) + 365 ==> is_leap(year_of_era(doe) + 1),
{
    let y = year_of_era(doe);
    let a = doe / 1460;
    let b = doe / 36_524;
    let c = doe / 146_096;
    let x = doe - a + b - c;
    assert(1460 * a <= doe < 1460 * a + 1460);
    assert(36_524 * b <= doe < 36_524 * b + 36_524);
    assert(0 <= b <= 4);
    assert(0 <= c <= 1);
    assert(365 * y <= x < 365 * y + 365);
}

proof fn lemma_days_before_month(y: int)
    ensures
        days_before_month(y, 1) == 0,
        days_before_month(y, 2) == 31,
        days_before_month(y, 3) == 59 + if is_leap(y) {
            1int
        } else {
            0
        },
        forall|m: int|
            3 <= m <= 12 ==> #[trigger] days_before_month(y, m) == days_before_month(y, 3) + (153
                * (m - 3) + 2) / 5,
{
    reveal_with_fuel(days_before_month, 13);
    assert forall|m: int| 3 <= m <= 12 implies #[trigger] days_before_month(y, m)
        == days_before_month(y, 3) + (153 * (m - 3) + 2) / 5 by {
        assert(m == 3 || m == 4 || m == 5 || m == 6 || m == 7 || m == 8 || m == 9 || m == 10 || m
            == 11 || m == 12);
    }
}

/// Dividing goes up by one exactly at the multiples.
proof fn lemma_div_step(y: int, c: int)
    requires
        c > 0,
    ensures
        y / c == (y - 1) / c + if y % c == 0 {
            1int
        } else {
            0
        },
{
    let q = y / c;
    vstd::arithmetic::div_mod::lemma_fundamental_div_mod(y, c);
    vstd::arithmetic::div_mod::lemma_mod_bound(y, c);
    if y % c == 0 {
        assert(c * (q - 1) == c * q - c) by (nonlinear_arith);
        assert((q - 1) * c == c * (q - 1)) by (nonlinear_arith);
        vstd::arithmetic::div_mod::lemma_fundamental_div_mod_converse(y - 1, c, q - 1, c - 1);
    } else {
        assert(q * c == c * q) by (nonlinear_arith);
        vstd::arithmetic::div_mod::lemma_fundamental_div_mod_converse(y - 1, c, q, y % c - 1);
    }
}

proof fn lemma_leap_step(y: int)
    ensures
        leap_days_before(y + 1) == leap_days_before(y) + if is_leap(y) {
            1int
        } else {
            0
        },
{
    lemma_div_step(y, 4);
    lemma_div_step(y, 100);
    lemma_div_step(y, 400);
    vstd::arithmetic::div_mod::lemma_fundamental_div_mod(y, 100);
    vstd::arithmetic::div_mod::lemma_fundamental_div_mod(y, 400);
    if y % 100 == 0 {
        vstd::arithmetic::div_mod::lemma_fundamental_div_mod_converse(y, 4, 25 * (y / 100), 0);
    }
    if y % 400 == 0 {
        vstd::arithmetic::div_mod::lemma_fundamental_div_mod_converse(y, 100, 4 * (y / 400), 0);
    }
}

/// Four hundred years are a whole number of leap cycles.
proof fn lemma_leap_cycle(e: int, yoe: int)
    requires
        0 <= yoe <= 399,
    ensures
        leap_days_before(yoe + 400 * e + 1) == yoe / 4 - yoe / 100 + 97 * e,
        is_leap(yoe + 400 * e + 1) == is_leap(yoe + 1),
{
    vstd::arithmetic::div_mod::lemma_mod_multiples_vanish(100 * e, yoe + 1, 4);
    vstd::arithmetic::div_mod::lemma_mod_multiples_vanish(4 * e, yoe + 1, 100);
    vstd::arithmetic::div_mod::lemma_mod_multiples_vanish(e, yoe + 1, 400);
    vstd::arithmetic::div_mod::lemma_fundamental_div_mod_converse(
        yoe + 400 * e,
        4,
        yoe / 4 + 100 * e,
        yoe % 4,
    );
    vstd::arithmetic::div_mod::lemma_fundamental_div_mod_converse(
        yoe + 400 * e,
        100,
        yoe / 100 + 4 * e,
        yoe % 100,
    );
    vstd::arithmetic::div_mod::lemma_fundamental_div_mod_converse(yoe + 400 * e, 400, e, yoe);
}

/// The month of a year that starts in March which its day `doy` falls in,
/// counted from zero, and the day of that month, counted from one.
spec fn march_month(doy: int) -> int {
    (5 * doy + 2) / 153
}

spec fn march_day(doy: int) -> int {
    doy - (153 * march_month(doy) + 2) / 5 + 1
}

proof fn lemma_march(doy: int)
    requires
        0 <= doy <= 365,
    ensures
        0 <= march_month(doy) <= 11,
        1 <= march_day(doy) <= 31,
        march_month(doy) == 1 || march_month(doy) == 3 || march_month(doy) == 6 || march_month(doy)
            == 8 ==> march_day(doy) <= 30,
        march_month(doy) == 11 ==> march_day(doy) <= 29,
        march_month(doy) == 11 && march_day(doy) == 29 ==> doy == 365,
{
}

proof fn lemma_civil(e: int, yoe: int, doy: int)
    requires
        0 <= yoe <= 399,
        0 <= doy <= 365,
        doy == 365 ==> is_leap(yoe + 1),
    ensures
        ({
            let mp = march_month(doy);
            let m = if mp < 10 {
                mp + 3
            } else {
                mp - 9
            };
            let y = yoe + 400 * e + if m <= 2 {
                1int
            } else {
                0
            };
            &&& is_date(y, m, march_day(doy))
            &&& days_after_epoch(y, m, march_day(doy)) == 146_097 * e + days_before_year(yoe) + doy
                - 719_468
        }),
{
    lemma_leap_cycle(e, yoe);
    lemma_march(doy);
    let y0 = yoe + 400 * e;
    lemma_leap_step(y0);
    lemma_days_before_month(y0);
    lemma_days_before_month(y0 + 1);
    assert(leap_days_before(1970) == 477);
    let mp = march_month(doy);
    if mp < 10 {
        let m = mp + 3;
        assert(days_before_month(y0, m) == days_before_month(y0, 3) + (153 * mp + 2) / 5);
    } else if mp == 10 {
        assert((153 * mp + 2) / 5 == 306);
    } else {
        assert((153 * mp + 2) / 5 == 337);
    }
}

/// The date a number of days after the first of January 1970.
///
/// This is Howard Hinnant's conversion, which counts years from March so that
/// the leap day comes last. It avoids pulling in a date crate for the two
/// timestamps the app writes.
pub fn civil_from_days(z: i64) -> (r: (i64, u32, u32))
    requires
        i64::MIN + 146_096 <= z + 719_468 <= i64::MAX,
    ensures
        is_date(r.0 as int, r.1 as int, r.2 as int),
        days_after_epoch(r.0 as int, r.1 as int, r.2 as int) == z,
{
    let z1: i64 = z + 719_468;
    let era: i64 = if z1 >= 0 {
        z1 / 146_097
    } else {
        -((-(z1 + 1)) / 146_097) - 1
    };
    let doe: i64 = z1 - era * 146_097;
    assert(0 <= doe <= 146_096);
    proof {
        lemma_year_of_era(doe as int);
    }
    let yoe: i64 = (doe - doe / 1460 + doe / 36_524 - doe / 146_096) / 365;
    assert(yoe == year_of_era(doe as int));
    let y: i64 = yoe + era * 400;
    let doy: i64 = doe - (365 * yoe + yoe / 4 - yoe / 100);
    let mp: i64 = (5 * doy + 2) / 153;
    let d: i64 = doy - (153 * mp + 2) / 5 + 1;
    let m: i64 = if mp < 10 {
        mp + 3
    } else {
        mp - 9
    };
    let year: i64 = if m <= 2 {
        y + 1
    } else {
        y
    };
    proof {
        lemma_civil(era as int, yoe as int, doy as int);
    }
    (year, m as u32, d as u32)
}

/// A number in two digits.
pub open spec fn two_digits(n: int) -> Seq<char> {
    seq![digit_char(n / 10), digit_char(n % 10)]
}

/// A year in at least four digits.
pub open spec fn year_digits(y: int) -> Seq<char> {
    if y < 10_000 {
        seq![
            digit_char(y / 1000),
            digit_char(y / 100 % 10),
            digit_char(y / 10 % 10),
            digit_char(y % 10),
        ]
    } else {
        crate::text::decimal(y as nat)
    }
}

fn push_two(out: &mut String, n: u64)
    requires
        n < 100,
    ensures
        final(out)@ == old(out)@ + two_digits(n as int),
{
    let ghost before = out@;
    push_digit(out, n / 10);
    push_digit(out, n % 10);
    assert(out@ =~= before + two_digits(n as int));
}

/// The date `date` at `rest` seconds into the day, in RFC 3339 and UTC.
pub open spec fn iso_text(date: (int, int, int), rest: int) -> Seq<char> {
    year_digits(date.0) + "-"@ + two_digits(date.1) + "-"@ + two_digits(date.2) + "T"@ + two_digits(
        rest / 3600,
    ) + ":"@ + two_digits(rest % 3600 / 60) + ":"@ + two_digits(rest % 60) + "Z"@
}

/// RFC 3339 in UTC, which is what goes in the config and in `breakpoints.md`.
pub fn format_iso(secs: u64) -> (r: String)
    ensures
        exists|y: int, m: int, d: int|
            #![trigger is_date(y, m, d)]
            is_date(y, m, d) && days_after_epoch(y, m, d) == secs / 86_400 && r@ == iso_text(
                (y, m, d),
                (secs % 86_400) as int,
            ),
{
    let days: i64 = (secs / 86_400) as i64;
    let rem: u64 = secs % 86_400;
    let (y, m, d) = civil_from_days(days);
    proof {
        lemma_years_are_positive(y as int, m as int, d as int);
    }
    let mut out = String::new();
    let year: u64 = y as u64;
    let ghost yd = year_digits(y as int);
    if year < 10_000 {
        push_digit(&mut out, year / 1000);
        push_digit(&mut out, year / 100 % 10);
        push_digit(&mut out, year / 10 % 10);
        push_digit(&mut out, year % 10);
        assert(out@ =~= yd);
    } else {
        out = crate::text::decimal_string(year);
    }
    out.append("-");
    push_two(&mut out, m as u64);
    out.append("-");
    push_two(&mut out, d as u64);
    out.append("T");
    push_two(&mut out, rem / 3600);
    out.append(":");
    push_two(&mut out, (rem % 3600) / 60);
    out.append(":");
    push_two(&mut out, rem % 60);
    out.append("Z");
    assert(is_date(y as int, m as int, d as int));
    assert(out@ == iso_text((y as int, m as int, d as int), rem as int));
    out
}

proof fn lemma_years_are_positive(y: int, m: int, d: int)
    requires
        is_date(y, m, d),
        days_after_epoch(y, m, d) >= 0,
    ensures
        y >= 1970,
{
    lemma_days_before_month(y);
    if y < 1970 {
        assert(days_before_month(y, m) + d <= 366) by {
            assert(m == 1 || m == 2 || m == 3 || m == 4 || m == 5 || m == 6 || m == 7 || m == 8 || m
                == 9 || m == 10 || m == 11 || m == 12);
        }
        assert(days_before_month(y, m) + d <= 365 + if is_leap(y) {
            1int
        } else {
            0
        }) by {
            assert(m == 1 || m == 2 || m == 3 || m == 4 || m == 5 || m == 6 || m == 7 || m == 8 || m
                == 9 || m == 10 || m == 11 || m == 12);
        }
        assert(leap_days_before(y + 1) == leap_days_before(y) + if is_leap(y) {
            1int
        } else {
            0
        });
        assert(leap_days_before(y + 1) <= leap_days_before(1970));
        assert(false);
    }
}

/// Two different dates are different numbers of days away, so a timestamp
/// names one moment.
pub proof fn dates_do_not_collide(y1: int, m1: int, d1: int, y2: int, m2: int, d2: int)
    requires
        is_date(y1, m1, d1),
        is_date(y2, m2, d2),
        days_after_epoch(y1, m1, d1) == days_after_epoch(y2, m2, d2),
    ensures
        y1 == y2 && m1 == m2 && d1 == d2,
{
    lemma_days_before_month(y1);
    lemma_days_before_month(y2);
    lemma_year_span(y1, m1, d1);
    lemma_year_span(y2, m2, d2);
    if y1 < y2 {
        lemma_leap_days_grow(y1 + 1, y2);
    }
    if y2 < y1 {
        lemma_leap_days_grow(y2 + 1, y1);
    }
    assert(m1 == 1 || m1 == 2 || m1 == 3 || m1 == 4 || m1 == 5 || m1 == 6 || m1 == 7 || m1 == 8
        || m1 == 9 || m1 == 10 || m1 == 11 || m1 == 12);
    assert(m2 == 1 || m2 == 2 || m2 == 3 || m2 == 4 || m2 == 5 || m2 == 6 || m2 == 7 || m2 == 8
        || m2 == 9 || m2 == 10 || m2 == 11 || m2 == 12);
}

proof fn lemma_year_span(y: int, m: int, d: int)
    requires
        is_date(y, m, d),
    ensures
        1 <= days_before_month(y, m) + d <= 365 + if is_leap(y) {
            1int
        } else {
            0
        },
        leap_days_before(y + 1) == leap_days_before(y) + if is_leap(y) {
            1int
        } else {
            0
        },
{
    lemma_leap_step(y);
    lemma_days_before_month(y);
    assert(m == 1 || m == 2 || m == 3 || m == 4 || m == 5 || m == 6 || m == 7 || m == 8 || m == 9
        || m == 10 || m == 11 || m == 12);
}

proof fn lemma_leap_days_grow(a: int, b: int)
    requires
        a <= b,
    ensures
        leap_days_before(a) <= leap_days_before(b),
    decreases b - a,
{
    if a < b {
        lemma_leap_days_grow(a, b - 1);
        lemma_leap_step(b - 1);
    }
}

/// The moment `now_ms` milliseconds after the epoch, in RFC 3339 and UTC.
pub fn now_iso(now_ms: u64) -> (r: String)
    ensures
        exists|y: int, m: int, d: int|
            #![trigger is_date(y, m, d)]
            is_date(y, m, d) && days_after_epoch(y, m, d) == now_ms / 86_400_000 && r@ == iso_text(
                (y, m, d),
                (now_ms / 1000 % 86_400) as int,
            ),
{
    assert(now_ms / 1000 / 86_400 == now_ms / 86_400_000);
    format_iso(now_ms / 1000)
}

/// Just the date, for the `generated:` line in `breakpoints.md`: the first ten
/// characters of the moment.
pub fn today_iso(now_ms: u64) -> (r: String)
    ensures
        exists|y: int, m: int, d: int|
            #![trigger is_date(y, m, d)]
            is_date(y, m, d) && days_after_epoch(y, m, d) == now_ms / 86_400_000 && r@ == iso_text(
                (y, m, d),
                (now_ms / 1000 % 86_400) as int,
            ).take(10),
{
    let whole = now_iso(now_ms);
    let chars = chars_of(whole.as_str());
    proof {
        let (y, m, d) = choose|y: int, m: int, d: int|
            #![trigger is_date(y, m, d)]
            is_date(y, m, d) && days_after_epoch(y, m, d) == now_ms / 86_400_000 && whole@
                == iso_text((y, m, d), (now_ms / 1000 % 86_400) as int);
        let rest = (now_ms / 1000 % 86_400) as int;
        reveal_strlit("-");
        reveal_strlit("T");
        reveal_strlit(":");
        assert(iso_text((y, m, d), rest).len() >= 10);
        assert(is_date(y, m, d));
    }
    slice_string(chars.as_slice(), 0, 10)
}

/// As long as years have four digits, the first ten characters of a moment are
/// its date and nothing else.
pub proof fn the_first_ten_characters_are_the_date(y: int, m: int, d: int, rest: int)
    requires
        y < 10_000,
    ensures
        iso_text((y, m, d), rest).take(10) == year_digits(y) + "-"@ + two_digits(m) + "-"@
            + two_digits(d),
{
    reveal_strlit("-");
    let date = year_digits(y) + "-"@ + two_digits(m) + "-"@ + two_digits(d);
    assert(date.len() == 10);
    assert(iso_text((y, m, d), rest).take(10) =~= date);
}

/// The bytes SHA-256 gives for `data`.
pub uninterp spec fn sha256_of(data: Seq<u8>) -> Seq<u8>;

/// `Sha256::digest` of the sha2 crate: thirty-two bytes that depend on the
/// data alone.
#[verifier::external_body]
fn sha256(data: &[u8]) -> (r: Vec<u8>)
    ensures
        r@ == sha256_of(data@),
        r@.len() == 32,
{
    <sha2::Sha256 as sha2::Digest>::digest(data).to_vec()
}

/// The digit a number below sixteen has in hexadecimal.
pub open spec fn hex_digit(n: int) -> char {
    if n < 10 {
        (n + 48) as char
    } else {
        (n + 87) as char
    }
}

/// Bytes written in hexadecimal, two digits each.
pub open spec fn hex(bytes: Seq<u8>) -> Seq<char>
    decreases bytes.len(),
{
    if bytes.len() == 0 {
        Seq::empty()
    } else {
        hex(bytes.drop_last()).push(hex_digit(bytes.last() as int / 16)).push(
            hex_digit(bytes.last() as int % 16),
        )
    }
}

/// Bytes in hexadecimal take two characters each.
pub proof fn hex_is_twice_as_long(bytes: Seq<u8>)
    ensures
        hex(bytes).len() == 2 * bytes.len(),
    decreases bytes.len(),
{
    if bytes.len() > 0 {
        hex_is_twice_as_long(bytes.drop_last());
    }
}

fn push_hex(out: &mut String, n: u8)
    requires
        n < 16,
    ensures
        final(out)@ == old(out)@.push(hex_digit(n as int)),
{
    let c: u8 = if n < 10 {
        n + 48
    } else {
        n + 87
    };
    out.push(c as char);
}

pub fn hex_string(bytes: &[u8]) -> (r: String)
    ensures
        r@ == hex(bytes@),
{
    let mut out = String::new();
    let mut i: usize = 0;
    assert(bytes@.take(0) =~= Seq::<u8>::empty());
    while i < bytes.len()
        invariant
            i <= bytes@.len(),
            out@ == hex(bytes@.take(i as int)),
        decreases bytes@.len() - i,
    {
        proof {
            assert(bytes@.take(i + 1).drop_last() =~= bytes@.take(i as int));
            assert(bytes@.take(i + 1).last() == bytes@[i as int]);
        }
        push_hex(&mut out, bytes[i] / 16);
        push_hex(&mut out, bytes[i] % 16);
        i += 1;
    }
    assert(bytes@.take(bytes@.len() as int) =~= bytes@);
    out
}

/// What is hashed for a list of texts: each of them, ended by a separator that
/// text does not hold, so that no two lists read the same.
pub open spec fn hashed_bytes(parts: Seq<Seq<char>>) -> Seq<u8>
    decreases parts.len(),
{
    if parts.len() == 0 {
        Seq::empty()
    } else {
        hashed_bytes(parts.drop_last()) + vstd::utf8::encode_utf8(parts.last()) + seq![0x1fu8]
    }
}

/// The bytes that are hashed for a list of texts.
pub fn bytes_to_hash(parts: &Vec<String>) -> (r: Vec<u8>)
    ensures
        r@ == hashed_bytes(crate::text::texts(parts@)),
{
    let ghost all = crate::text::texts(parts@);
    let mut out: Vec<u8> = Vec::new();
    let mut i: usize = 0;
    assert(all.take(0) =~= Seq::<Seq<char>>::empty());
    while i < parts.len()
        invariant
            i <= parts@.len(),
            all == crate::text::texts(parts@),
            out@ == hashed_bytes(all.take(i as int)),
        decreases parts@.len() - i,
    {
        let ghost before = out@;
        proof {
            assert(all.take(i + 1).drop_last() =~= all.take(i as int));
            assert(all.take(i + 1).last() == parts@[i as int]@);
        }
        let bytes = parts[i].as_str().as_bytes();
        let mut k: usize = 0;
        assert(out@ =~= before + bytes@.take(0));
        while k < bytes.len()
            invariant
                k <= bytes@.len(),
                out@ == before + bytes@.take(k as int),
            decreases bytes@.len() - k,
        {
            out.push(bytes[k]);
            assert(out@ =~= before + bytes@.take(k + 1));
            k += 1;
        }
        assert(bytes@.take(bytes@.len() as int) =~= bytes@);
        out.push(0x1f);
        assert(out@ =~= before + bytes@ + seq![0x1fu8]);
        i += 1;
    }
    assert(all.take(all.len() as int) =~= all);
    out
}

/// Eight hex characters of the hash of a list of texts.
pub open spec fn short_hash_of(parts: Seq<Seq<char>>) -> Seq<char> {
    hex(sha256_of(hashed_bytes(parts)).take(4))
}

/// Eight hex characters. Long enough to notice a change, short enough to read
/// in a Markdown comment.
pub fn short_hash(parts: &Vec<String>) -> (r: String)
    ensures
        r@ == short_hash_of(crate::text::texts(parts@)),
        r@.len() == 8,
{
    let bytes = bytes_to_hash(parts);
    let digest = sha256(bytes.as_slice());
    let head = vstd::slice::slice_subrange(digest.as_slice(), 0, 4);
    proof {
        hex_is_twice_as_long(head@);
        assert(head@ =~= digest@.take(4));
    }
    hex_string(head)
}

/// `RngCore::fill_bytes` of `rand::thread_rng`. Nothing is promised of the
/// bytes but how many there are. No vector holds more than `isize::MAX` of
/// them.
#[verifier::external_body]
fn random_bytes(n: usize) -> (r: Vec<u8>)
    requires
        n <= isize::MAX,
    ensures
        r@.len() == n,
{
    let mut buf = vec![0u8; n];
    rand::RngCore::fill_bytes(&mut rand::thread_rng(), &mut buf);
    buf
}

/// A character of a token.
pub open spec fn is_hex(c: char) -> bool {
    '0' <= c <= '9' || 'a' <= c <= 'f'
}

proof fn lemma_hex_chars(bytes: Seq<u8>)
    ensures
        forall|i: int| 0 <= i < hex(bytes).len() ==> is_hex(#[trigger] hex(bytes)[i]),
    decreases bytes.len(),
{
    if bytes.len() > 0 {
        lemma_hex_chars(bytes.drop_last());
        let before = hex(bytes.drop_last());
        assert forall|i: int| 0 <= i < hex(bytes).len() implies is_hex(
            #[trigger] hex(bytes)[i],
        ) by {
            if i < before.len() {
                assert(hex(bytes)[i] == before[i]);
            }
        }
    }
}

/// A URL-safe random string, used for the callback nonce and the bridge token:
/// two hex digits for each of `bytes` random bytes.
pub fn random_token(bytes: usize) -> (r: String)
    requires
        2 * bytes <= isize::MAX,
    ensures
        r@.len() == 2 * bytes,
        forall|i: int| 0 <= i < r@.len() ==> is_hex(#[trigger] r@[i]),
{
    let buf = random_bytes(bytes);
    proof {
        hex_is_twice_as_long(buf@);
        lemma_hex_chars(buf@);
    }
    hex_string(buf.as_slice())
}

/// An ASCII letter in lower case or a digit, and a dash for anything else.
pub open spec fn slug_char(c: char) -> char {
    if is_ascii_word(c) {
        ascii_lower(c)
    } else {
        '-'
    }
}

/// A text with each run of dashes made one.
pub open spec fn single_dashes(s: Seq<char>) -> Seq<char>
    decreases s.len(),
{
    if s.len() == 0 {
        s
    } else if s.last() == '-' && s.len() > 1 && s[s.len() - 2] == '-' {
        single_dashes(s.drop_last())
    } else {
        single_dashes(s.drop_last()).push(s.last())
    }
}

/// A folder name as something safe for a file name: its letters and digits in
/// lower case, and one dash for whatever stands between them.
pub open spec fn slug_of(input: Seq<char>) -> Seq<char> {
    let s = single_dashes(
        trimmed_of(input.map_values(|c: char| slug_char(c)), seq!['-']),
    );
    if s.len() == 0 {
        "project"@
    } else {
        s
    }
}

/// A folder name turned into something safe for a log filename.
pub fn slugify(input: &str) -> (r: String)
    ensures
        r@ == slug_of(input@),
{
    let chars = chars_of(input);
    let mut mapped: Vec<char> = Vec::new();
    let ghost m = input@.map_values(|c: char| slug_char(c));
    let mut i: usize = 0;
    while i < chars.len()
        invariant
            i <= chars@.len(),
            chars@ == input@,
            m == input@.map_values(|c: char| slug_char(c)),
            mapped@ =~= m.take(i as int),
        decreases chars@.len() - i,
    {
        let c = chars[i];
        mapped.push(
            if ascii_word(c) {
                lower(c)
            } else {
                '-'
            },
        );
        i += 1;
    }
    assert(mapped@ =~= m);
    let dash: [char; 1] = ['-'];
    assert(dash@ =~= seq!['-']);
    let s = trim_of(mapped.as_slice(), &dash);
    let mut out = String::new();
    let mut last_dash = false;
    i = 0;
    assert(s@.take(0) =~= Seq::<char>::empty());
    while i < s.len()
        invariant
            i <= s@.len(),
            last_dash == (i > 0 && s@[i - 1] == '-'),
            out@ == single_dashes(s@.take(i as int)),
        decreases s@.len() - i,
    {
        let c = s[i];
        proof {
            let t = s@.take(i + 1);
            assert(t.drop_last() =~= s@.take(i as int));
            assert(t.last() == c);
            if i > 0 {
                assert(t[t.len() - 2] == s@[i - 1]);
            }
        }
        if c == '-' {
            if !last_dash {
                out.push(c);
            }
            last_dash = true;
        } else {
            out.push(c);
            last_dash = false;
        }
        i += 1;
    }
    assert(s@.take(s@.len() as int) =~= s@);
    if out.as_str().is_empty() {
        "project".to_owned()
    } else {
        out
    }
}

proof fn lemma_single_dashes(s: Seq<char>)
    ensures
        s.len() > 0 ==> single_dashes(s).len() > 0 && single_dashes(s).last() == s.last()
            && single_dashes(s)[0] == s[0],
        forall|i: int|
            0 < i < single_dashes(s).len() ==> !(single_dashes(s)[i - 1] == '-' && (
            #[trigger] single_dashes(s)[i]) == '-'),
        forall|i: int| 0 <= i < single_dashes(s).len() ==> s.contains(#[trigger] single_dashes(s)[i]),
    decreases s.len(),
{
    if s.len() > 0 {
        let d = s.drop_last();
        lemma_single_dashes(d);
        let r = single_dashes(s);
        let before = single_dashes(d);
        assert forall|i: int| 0 <= i < r.len() implies s.contains(#[trigger] r[i]) by {
            if i < before.len() {
                assert(r[i] == before[i]);
                let k = choose|k: int| 0 <= k < d.len() && d[k] == before[i];
                assert(d.contains(before[i]));
                assert(s[k] == r[i]);
            } else {
                assert(s[s.len() - 1] == r[i]);
            }
        }
        if d.len() > 0 {
            assert(d.last() == s[s.len() - 2]);
        }
        assert forall|i: int| 0 < i < r.len() implies !(r[i - 1] == '-' && (#[trigger] r[i])
            == '-') by {
            if i < before.len() {
                assert(r[i] == before[i] && r[i - 1] == before[i - 1]);
            } else {
                assert(r[i - 1] == before.last());
            }
        }
    }
}

/// A slug is never empty, is made of lower case letters, digits and dashes, and
/// never has two dashes together.
pub proof fn a_slug_is_safe_for_a_file_name(input: Seq<char>)
    ensures
        slug_of(input).len() > 0,
        forall|i: int|
            0 <= i < slug_of(input).len() ==> {
                let c = #[trigger] slug_of(input)[i];
                '0' <= c <= '9' || 'a' <= c <= 'z' || c == '-'
            },
        forall|i: int|
            0 < i < slug_of(input).len() ==> !(slug_of(input)[i - 1] == '-' && (
            #[trigger] slug_of(input)[i]) == '-'),
{
    reveal_strlit("project");
    let m = input.map_values(|c: char| slug_char(c));
    let t = trimmed_of(m, seq!['-']);
    lemma_trimmed_within(m, |c: char| seq!['-'].contains(c));
    lemma_single_dashes(t);
    let s = single_dashes(t);
    if s.len() > 0 {
        assert forall|i: int| 0 <= i < s.len() implies {
            let c = #[trigger] s[i];
            '0' <= c <= '9' || 'a' <= c <= 'z' || c == '-'
        } by {
            assert(t.contains(s[i]));
            let k = choose|k: int| 0 <= k < t.len() && t[k] == s[i];
            assert(m.contains(t[k]));
            let j = choose|j: int| 0 <= j < m.len() && m[j] == t[k];
            assert(m[j] == slug_char(input[j]));
        }
    }
}

proof fn lemma_stripped_ends(s: Seq<char>, f: spec_fn(char) -> bool)
    ensures
        crate::text::strip_front(s, f).len() > 0 ==> !f(crate::text::strip_front(s, f)[0]),
        crate::text::strip_back(s, f).len() > 0 ==> !f(crate::text::strip_back(s, f).last())
            && crate::text::strip_back(s, f)[0] == s[0],
    decreases s.len(),
{
    if s.len() > 0 {
        lemma_stripped_ends(s.drop_first(), f);
        lemma_stripped_ends(s.drop_last(), f);
    }
}

proof fn lemma_single_already(s: Seq<char>)
    requires
        forall|i: int| 0 < i < s.len() ==> !(s[i - 1] == '-' && (#[trigger] s[i]) == '-'),
    ensures
        single_dashes(s) == s,
    decreases s.len(),
{
    if s.len() > 0 {
        let d = s.drop_last();
        assert forall|i: int| 0 < i < d.len() implies !(d[i - 1] == '-' && (#[trigger] d[i])
            == '-') by {
            assert(d[i] == s[i] && d[i - 1] == s[i - 1]);
        }
        lemma_single_already(d);
        assert(!(s.len() > 1 && s[s.len() - 2] == '-' && s[s.len() - 1] == '-'));
        assert(d.push(s.last()) =~= s);
    }
}

/// Slugging a slug changes nothing.
pub proof fn a_slug_is_its_own_slug(input: Seq<char>)
    ensures
        slug_of(slug_of(input)) == slug_of(input),
{
    reveal_strlit("project");
    a_slug_is_safe_for_a_file_name(input);
    let r = slug_of(input);
    let f = |c: char| seq!['-'].contains(c);
    let m = input.map_values(|c: char| slug_char(c));
    let t = trimmed_of(m, seq!['-']);
    lemma_stripped_ends(m, f);
    lemma_stripped_ends(crate::text::strip_front(m, f), f);
    lemma_single_dashes(t);
    assert(seq!['-'][0] == '-');
    assert(f('-'));
    assert(r[0] != '-' && r.last() != '-');
    assert(!f(r[0]) && !f(r.last()));
    assert(r.map_values(|c: char| slug_char(c)) =~= r) by {
        assert forall|i: int| 0 <= i < r.len() implies slug_char(#[trigger] r[i]) == r[i] by {}
    }
    assert(trimmed_of(r, seq!['-']) == r);
    lemma_single_already(r);
}

proof fn lemma_trimmed_within(s: Seq<char>, f: spec_fn(char) -> bool)
    ensures
        forall|i: int|
            0 <= i < crate::text::strip_back(crate::text::strip_front(s, f), f).len()
                ==> s.contains(
                #[trigger] crate::text::strip_back(crate::text::strip_front(s, f), f)[i],
            ),
{
    let a = crate::text::strip_front(s, f);
    lemma_front_within(s, f);
    lemma_back_within(a, f);
    let b = crate::text::strip_back(a, f);
    assert forall|i: int| 0 <= i < b.len() implies s.contains(#[trigger] b[i]) by {
        let k = choose|k: int| 0 <= k < a.len() && a[k] == b[i];
        assert(a.contains(b[i]));
        assert(s.contains(a[k]));
    }
}

proof fn lemma_front_within(s: Seq<char>, f: spec_fn(char) -> bool)
    ensures
        forall|i: int|
            0 <= i < crate::text::strip_front(s, f).len() ==> s.contains(
                #[trigger] crate::text::strip_front(s, f)[i],
            ),
    decreases s.len(),
{
    if s.len() > 0 && f(s[0]) {
        lemma_front_within(s.drop_first(), f);
        let r = crate::text::strip_front(s, f);
        assert(r == crate::text::strip_front(s.drop_first(), f));
        assert forall|i: int| 0 <= i < r.len() implies s.contains(#[trigger] r[i]) by {
            assert(s.drop_first().contains(crate::text::strip_front(s.drop_first(), f)[i]));
            assert(s.drop_first().contains(r[i]));
            let k = choose|k: int| 0 <= k < s.drop_first().len() && s.drop_first()[k] == r[i];
            assert(s[k + 1] == r[i]);
        }
    }
}

proof fn lemma_back_within(s: Seq<char>, f: spec_fn(char) -> bool)
    ensures
        forall|i: int|
            0 <= i < crate::text::strip_back(s, f).len() ==> s.contains(
                #[trigger] crate::text::strip_back(s, f)[i],
            ),
    decreases s.len(),
{
    if s.len() > 0 && f(s.last()) {
        lemma_back_within(s.drop_last(), f);
        let r = crate::text::strip_back(s, f);
        assert(r == crate::text::strip_back(s.drop_last(), f));
        assert forall|i: int| 0 <= i < r.len() implies s.contains(#[trigger] r[i]) by {
            assert(s.drop_last().contains(crate::text::strip_back(s.drop_last(), f)[i]));
            assert(s.drop_last().contains(r[i]));
            let k = choose|k: int| 0 <= k < s.drop_last().len() && s.drop_last()[k] == r[i];
            assert(s[k] == r[i]);
        }
    }
}

/// A text of lower case letters, digits and single dashes between them is its own
/// slug, and a capital becomes its small letter.
pub proof fn a_plain_name_is_its_slug(input: Seq<char>)
    requires
        input.len() > 0,
        forall|i: int|
            0 <= i < input.len() ==> {
                let c = #[trigger] input[i];
                '0' <= c <= '9' || 'a' <= c <= 'z' || 'A' <= c <= 'Z' || c == '-'
            },
        input[0] != '-',
        input.last() != '-',
        forall|i: int| 0 < i < input.len() ==> !(input[i - 1] == '-' && (#[trigger] input[i]) == '-'),
    ensures
        slug_of(input) == crate::text::lowered(input),
{
    let m = input.map_values(|c: char| slug_char(c));
    assert(m =~= crate::text::lowered(input));
    let f = |c: char| seq!['-'].contains(c);
    assert(m[0] == slug_char(input[0]) && m.last() == slug_char(input.last()));
    assert(!f(m[0]) && !f(m.last()));
    assert(trimmed_of(m, seq!['-']) == m);
    assert forall|i: int| 0 < i < m.len() implies !(m[i - 1] == '-' && (#[trigger] m[i]) == '-') by {
        assert(m[i] == slug_char(input[i]) && m[i - 1] == slug_char(input[i - 1]));
        assert(!(input[i - 1] == '-' && input[i] == '-'));
    }
    lemma_single_already(m);
}

/// A text with no letter or digit in it has no slug of its own.
pub proof fn a_name_of_signs_is_a_project(input: Seq<char>)
    requires
        forall|i: int| 0 <= i < input.len() ==> !crate::text::is_ascii_word(#[trigger] input[i]),
    ensures
        slug_of(input) == "project"@,
{
    let m = input.map_values(|c: char| slug_char(c));
    let f = |c: char| seq!['-'].contains(c);
    assert(seq!['-'][0] == '-');
    assert(f('-'));
    assert forall|i: int| 0 <= i < m.len() implies f(#[trigger] m[i]) by {
        assert(m[i] == slug_char(input[i]));
    }
    lemma_all_stripped(m, f);
    assert(crate::text::strip_front(m, f) =~= Seq::<char>::empty());
    assert(trimmed_of(m, seq!['-']).len() == 0);
}

proof fn lemma_all_stripped(s: Seq<char>, f: spec_fn(char) -> bool)
    requires
        forall|i: int| 0 <= i < s.len() ==> f(#[trigger] s[i]),
    ensures
        crate::text::strip_front(s, f).len() == 0,
    decreases s.len(),
{
    if s.len() > 0 {
        assert(f(s[0]));
        let d = s.drop_first();
        assert forall|i: int| 0 <= i < d.len() implies f(#[trigger] d[i]) by {
            assert(d[i] == s[i + 1]);
        }
        lemma_all_stripped(d, f);
    }
}

/// Each byte is two hexadecimal digits, the higher first.
pub proof fn a_byte_is_two_hex_digits(bytes: Seq<u8>, i: int)
    requires
        0 <= i < bytes.len(),
    ensures
        hex(bytes).len() == 2 * bytes.len(),
        hex(bytes)[2 * i] == hex_digit(bytes[i] as int / 16),
        hex(bytes)[2 * i + 1] == hex_digit(bytes[i] as int % 16),
        forall|n: int| 0 <= n < 10 ==> #[trigger] hex_digit(n) as u32 == '0' as u32 + n,
        forall|n: int| 10 <= n < 16 ==> #[trigger] hex_digit(n) as u32 == 'a' as u32 + n - 10,
    decreases bytes.len(),
{
    hex_is_twice_as_long(bytes);
    hex_is_twice_as_long(bytes.drop_last());
    if i < bytes.len() - 1 {
        a_byte_is_two_hex_digits(bytes.drop_last(), i);
    }
}

/// The days are counted one by one from the first of January 1970: a day, a
/// month of its own length, and a year of 365 days or, every fourth but not every
/// hundredth unless the four hundredth, of 366.
pub proof fn the_days_are_counted_one_by_one(y: int, m: int, d: int)
    requires
        1 <= m < 12,
        y >= 1970,
    ensures
        days_after_epoch(1970, 1, 1) == 0,
        days_after_epoch(y, m, d + 1) == days_after_epoch(y, m, d) + 1,
        days_after_epoch(y, m + 1, d) == days_after_epoch(y, m, d) + month_length(y, m),
        y % 4 != 0 ==> days_after_epoch(y + 1, 1, 1) == days_after_epoch(y, 1, 1) + 365,
        y % 4 == 0 && y % 100 != 0 ==> days_after_epoch(y + 1, 1, 1) == days_after_epoch(y, 1, 1)
            + 366,
        y % 100 == 0 && y % 400 != 0 ==> days_after_epoch(y + 1, 1, 1) == days_after_epoch(y, 1, 1)
            + 365,
        y % 400 == 0 ==> days_after_epoch(y + 1, 1, 1) == days_after_epoch(y, 1, 1) + 366,
        month_length(y, 1) == 31,
        month_length(y, 2) == if (y % 4 == 0 && y % 100 != 0) || y % 400 == 0 {
            29int
        } else {
            28
        },
        month_length(y, 3) == 31,
        month_length(y, 4) == 30,
        month_length(y, 5) == 31,
        month_length(y, 6) == 30,
        month_length(y, 7) == 31,
        month_length(y, 8) == 31,
        month_length(y, 9) == 30,
        month_length(y, 10) == 31,
        month_length(y, 11) == 30,
        month_length(y, 12) == 31,
{
    lemma_leap_step(y);
    vstd::arithmetic::div_mod::lemma_fundamental_div_mod(y, 100);
    vstd::arithmetic::div_mod::lemma_fundamental_div_mod(y, 400);
    if y % 100 == 0 {
        vstd::arithmetic::div_mod::lemma_fundamental_div_mod_converse(y, 4, 25 * (y / 100), 0);
    }
    if y % 400 == 0 {
        vstd::arithmetic::div_mod::lemma_fundamental_div_mod_converse(y, 100, 4 * (y / 400), 0);
    }
}

/// What was typed keeps the scheme it has; this machine is asked over http, and
/// anywhere else over https.
pub proof fn an_address_gets_a_scheme(s: Seq<char>)
    ensures
        has(s, "://"@) ==> address_typed(s) == s,
        has(s, "://"@) == false && (begins(s, "localhost"@) || begins(s, "127.0.0.1"@))
            ==> address_typed(s) == "http://"@ + s,
        has(s, "://"@) == false && begins(s, "localhost"@) == false && begins(s, "127.0.0.1"@)
            == false ==> address_typed(s) == "https://"@ + s,
{
}

/// Nothing typed, and what is no address, is a blank page; anything else is what
/// the address is written as.
pub proof fn what_is_no_address_is_a_blank_page(input: Seq<char>)
    ensures
        trimmed(input).len() == 0 ==> normalized(input) == "about:blank"@,
        trimmed(input).len() > 0 ==> (url_written(address_typed(trimmed(input))) matches Some(u)
            ==> normalized(input) == u),
        trimmed(input).len() > 0 && url_written(address_typed(trimmed(input))) is None
            ==> normalized(input) == "about:blank"@,
{
}

} // verus!
