//! Small helpers shared by the services: safe name components,
//! human-readable sizes, UTC timestamps and what a program run gives back.
use vstd::prelude::*;
use crate::text::{
    append_str, decimal, digit_char, from_utf8_lossy, is_blank, lossy_utf8, owned, push_char, push_decimal,
    trim,
};

verus! {

// ---------------------------------------------------------------------------
// Name components
// ---------------------------------------------------------------------------

/// The characters that a name component keeps: ASCII letters and digits, `-` and `_`.
pub open spec fn is_name_char(c: char) -> bool {
    ('a' <= c <= 'z') || ('A' <= c <= 'Z') || ('0' <= c <= '9') || c == '-' || c == '_'
}

/// `s` with every character that a name component does not keep replaced by `_`.
pub open spec fn sanitized(s: Seq<char>) -> Seq<char> {
    s.map_values(|c: char| if is_name_char(c) { c } else { '_' })
}

/// Makes a device serial or a port name usable as one file name component.
pub fn sanitize(s: &str) -> (res: String)
    ensures
        res@ == sanitized(s@),
{
    let v = crate::text::chars_of(s);
    let mut res = String::new();
    let mut i: usize = 0;
    while i < v.len()
        invariant
            i <= v.len(),
            v@ == s@,
            res@ == sanitized(v@.take(i as int)),
        decreases v.len() - i,
    {
        let c = v[i];
        let keep = ('a' <= c && c <= 'z') || ('A' <= c && c <= 'Z') || ('0' <= c && c <= '9') || c
            == '-' || c == '_';
        if keep {
            push_char(&mut res, c);
        } else {
            push_char(&mut res, '_');
        }
        assert(sanitized(v@.take(i + 1)) =~= sanitized(v@.take(i as int)).push(
            if is_name_char(c) {
                c
            } else {
                '_'
            },
        ));
        i += 1;
    }
    assert(v@.take(v.len() as int) =~= v@);
    res
}

/// A sanitized name holds only name characters: no path separator, no dot.
pub proof fn lemma_sanitized_is_plain(s: Seq<char>)
    ensures
        sanitized(s).len() == s.len(),
        forall|i: int| 0 <= i < s.len() ==> is_name_char(#[trigger] sanitized(s)[i]),
{
}

// ---------------------------------------------------------------------------
// Sizes
// ---------------------------------------------------------------------------

pub open spec fn kib() -> nat {
    1024
}

pub open spec fn mib() -> nat {
    1024 * 1024
}

pub open spec fn gib() -> nat {
    1024 * 1024 * 1024
}

/// `a / b` rounded to the nearest integer, ties to even (as float formatting rounds).
pub open spec fn round_half_even(a: nat, b: nat) -> nat {
    let q = a / b;
    let r = a % b;
    if 2 * r > b || (2 * r == b && q % 2 == 1) {
        q + 1
    } else {
        q
    }
}

/// `t` tenths written with one decimal place, such as `12.5`.
pub open spec fn tenths_text(t: nat) -> Seq<char> {
    decimal(t / 10) + seq!['.', digit_char(t % 10)]
}

/// A byte count for people: bytes below 1 KiB, else KB, MB or GB with one decimal.
pub open spec fn size_text(n: nat) -> Seq<char> {
    if n < kib() {
        decimal(n) + " B"@
    } else if n < mib() {
        tenths_text(round_half_even(n * 10, kib())) + " KB"@
    } else if n < gib() {
        tenths_text(round_half_even(n * 10, mib())) + " MB"@
    } else {
        tenths_text(round_half_even(n * 10, gib())) + " GB"@
    }
}

fn push_tenths(s: &mut String, n: u64, unit: u64)
    requires
        unit == 1024 || unit == 1024 * 1024 || unit == 1024 * 1024 * 1024,
    ensures
        final(s)@ == old(s)@ + tenths_text(round_half_even(n as nat * 10, unit as nat)),
{
    let a: u128 = n as u128 * 10;
    let q: u128 = a / unit as u128;
    let r: u128 = a % unit as u128;
    let t: u128 = if 2 * r > unit as u128 || (2 * r == unit as u128 && q % 2 == 1) {
        q + 1
    } else {
        q
    };
    assert(t == round_half_even(n as nat * 10, unit as nat));
    assert(t <= u64::MAX) by (nonlinear_arith)
        requires
            t <= q + 1,
            q == a / unit as u128,
            a == n as u128 * 10,
            unit >= 1024,
    ;
    let t64 = t as u64;
    push_decimal(s, t64 / 10);
    push_char(s, '.');
    push_char(s, crate::text::char_from_digit((t64 % 10) as u32));
    assert(final(s)@ =~= old(s)@ + tenths_text(t as nat));
}

/// A byte count for people, such as `512 B`, `1.5 KB` or `16.0 MB`.
pub fn fmt_size(n: u64) -> (res: String)
    ensures
        res@ == size_text(n as nat),
{
    let mut s = String::new();
    if n < 1024 {
        push_decimal(&mut s, n);
        append_str(&mut s, " B");
    } else if n < 1024 * 1024 {
        push_tenths(&mut s, n, 1024);
        append_str(&mut s, " KB");
    } else if n < 1024 * 1024 * 1024 {
        push_tenths(&mut s, n, 1024 * 1024);
        append_str(&mut s, " MB");
    } else {
        push_tenths(&mut s, n, 1024 * 1024 * 1024);
        append_str(&mut s, " GB");
    }
    s
}

// ---------------------------------------------------------------------------
// Calendar
// ---------------------------------------------------------------------------

pub open spec fn is_leap(y: int) -> bool {
    (y % 4 == 0 && y % 100 != 0) || y % 400 == 0
}

pub open spec fn year_len(y: int) -> nat {
    if is_leap(y) {
        366
    } else {
        365
    }
}

pub open spec fn month_len(y: int, m: int) -> nat {
    if m == 2 {
        if is_leap(y) {
            29
        } else {
            28
        }
    } else if m == 4 || m == 6 || m == 9 || m == 11 {
        30
    } else {
        31
    }
}

/// The year that day `n` (counted from 0 at the start of year `y`) falls in,
/// and the day's index within that year.
pub open spec fn year_and_day(y: int, n: nat) -> (int, nat)
    decreases n,
{
    if n < year_len(y) {
        (y, n)
    } else {
        year_and_day(y + 1, (n - year_len(y)) as nat)
    }
}

/// The month (from `m` on) that day `n` of the rest of year `y` falls in, and
/// the day's index within that month; December takes what is left.
pub open spec fn month_and_day(y: int, m: int, n: nat) -> (int, nat)
    decreases 12 - m,
{
    if m >= 12 || n < month_len(y, m) {
        (m, n)
    } else {
        month_and_day(y, m + 1, (n - month_len(y, m)) as nat)
    }
}

/// Year, month (1 to 12) and day of month (from 1) of day `days` after 1970-01-01.
pub open spec fn civil_date(days: nat) -> (int, int, int) {
    let (y, d) = year_and_day(1970, days);
    let (m, dd) = month_and_day(y, 1, d);
    (y, m, dd + 1int)
}

/// `n` in base 10, padded with zeros to at least `w` digits.
pub open spec fn padded(n: nat, w: nat) -> Seq<char> {
    let d = decimal(n);
    if d.len() < w {
        Seq::new((w - d.len()) as nat, |i: int| '0') + d
    } else {
        d
    }
}

/// The UTC time `secs` seconds after the Unix epoch as `YYYY-MM-DDTHH:MM:SSZ`.
pub open spec fn iso_text(secs: nat) -> Seq<char> {
    let (y, m, d) = civil_date(secs / 86400);
    let t = secs % 86400;
    padded(y as nat, 4) + seq!['-'] + padded(m as nat, 2) + seq!['-'] + padded(d as nat, 2)
        + seq!['T'] + padded(t / 3600, 2) + seq![':'] + padded((t % 3600) / 60, 2) + seq![':']
        + padded(t % 60, 2) + seq!['Z']
}

/// The UTC time `secs` seconds after the Unix epoch as `YYYYMMDD_HHMMSS`.
pub open spec fn compact_text(secs: nat) -> Seq<char> {
    let (y, m, d) = civil_date(secs / 86400);
    let t = secs % 86400;
    padded(y as nat, 4) + padded(m as nat, 2) + padded(d as nat, 2) + seq!['_'] + padded(
        t / 3600,
        2,
    ) + padded((t % 3600) / 60, 2) + padded(t % 60, 2)
}

pub proof fn lemma_decimal_len(n: nat)
    ensures
        n < 10 ==> decimal(n).len() == 1,
        n >= 10 ==> decimal(n).len() >= 2,
        n >= 100 ==> decimal(n).len() >= 3,
        n >= 1000 ==> decimal(n).len() >= 4,
    decreases n,
{
    if n >= 10 {
        lemma_decimal_len(n / 10);
    }
}

fn year_len_of(y: u64) -> (r: u64)
    ensures
        r == year_len(y as int),
{
    if (y % 4 == 0 && y % 100 != 0) || y % 400 == 0 {
        366
    } else {
        365
    }
}

fn month_len_of(y: u64, m: u64) -> (r: u64)
    ensures
        r == month_len(y as int, m as int),
{
    if m == 2 {
        if (y % 4 == 0 && y % 100 != 0) || y % 400 == 0 {
            29
        } else {
            28
        }
    } else if m == 4 || m == 6 || m == 9 || m == 11 {
        30
    } else {
        31
    }
}

/// Year, month and day of month of day `days` after 1970-01-01.
pub fn civil_from_days(days: u64) -> (r: (u64, u64, u64))
    requires
        days <= u64::MAX / 86400,
    ensures
        (r.0 as int, r.1 as int, r.2 as int) == civil_date(days as nat),
        1970 <= r.0,
        1 <= r.1 <= 12,
{
    let mut y: u64 = 1970;
    let mut n: u64 = days;
    while n >= year_len_of(y)
        invariant
            1970 <= y,
            days <= u64::MAX / 86400,
            y - 1970 <= days - n,
            n <= days,
            year_and_day(1970, days as nat) == year_and_day(y as int, n as nat),
        decreases n,
    {
        n = n - year_len_of(y);
        y = y + 1;
    }
    let mut m: u64 = 1;
    let ghost d0 = n;
    while m < 12 && n >= month_len_of(y, m)
        invariant
            1 <= m <= 12,
            n <= d0,
            month_and_day(y as int, 1, d0 as nat) == month_and_day(y as int, m as int, n as nat),
        decreases 12 - m,
    {
        n = n - month_len_of(y, m);
        m = m + 1;
    }
    (y, m, n + 1)
}

fn push_padded2(s: &mut String, n: u64)
    ensures
        final(s)@ == old(s)@ + padded(n as nat, 2),
{
    proof {
        lemma_decimal_len(n as nat);
    }
    if n < 10 {
        push_char(s, '0');
    }
    push_decimal(s, n);
    assert(final(s)@ =~= old(s)@ + padded(n as nat, 2));
}

fn push_year(s: &mut String, y: u64)
    requires
        y >= 1970,
    ensures
        final(s)@ == old(s)@ + padded(y as nat, 4),
{
    proof {
        lemma_decimal_len(y as nat);
    }
    push_decimal(s, y);
}

/// The UTC time `secs` seconds after the Unix epoch as `YYYY-MM-DDTHH:MM:SSZ`.
pub fn iso_from_secs(secs: u64) -> (res: String)
    ensures
        res@ == iso_text(secs as nat),
{
    let (y, m, d) = civil_from_days(secs / 86400);
    let t = secs % 86400;
    let mut s = String::new();
    push_year(&mut s, y);
    push_char(&mut s, '-');
    push_padded2(&mut s, m);
    push_char(&mut s, '-');
    push_padded2(&mut s, d);
    push_char(&mut s, 'T');
    push_padded2(&mut s, t / 3600);
    push_char(&mut s, ':');
    push_padded2(&mut s, (t % 3600) / 60);
    push_char(&mut s, ':');
    push_padded2(&mut s, t % 60);
    push_char(&mut s, 'Z');
    assert(s@ =~= iso_text(secs as nat));
    s
}

/// A change time for a listing: the ISO form when known, else empty.
pub open spec fn time_text(secs: Option<u64>) -> Seq<char> {
    match secs {
        Some(s) => iso_text(s as nat),
        None => Seq::empty(),
    }
}

pub fn time_string(secs: Option<u64>) -> (res: String)
    ensures
        res@ == time_text(secs),
{
    match secs {
        Some(s) => iso_from_secs(s),
        None => String::new(),
    }
}

/// The UTC time `secs` seconds after the Unix epoch as `YYYYMMDD_HHMMSS`.
pub fn compact_from_secs(secs: u64) -> (res: String)
    ensures
        res@ == compact_text(secs as nat),
{
    let (y, m, d) = civil_from_days(secs / 86400);
    let t = secs % 86400;
    let mut s = String::new();
    push_year(&mut s, y);
    push_padded2(&mut s, m);
    push_padded2(&mut s, d);
    push_char(&mut s, '_');
    push_padded2(&mut s, t / 3600);
    push_padded2(&mut s, (t % 3600) / 60);
    push_padded2(&mut s, t % 60);
    assert(s@ =~= compact_text(secs as nat));
    s
}

/// A reading of the system clock (`std::time::SystemTime`).
#[verifier::external_type_specification]
#[verifier::external_body]
pub struct ExSystemTime(std::time::SystemTime);

/// Why a clock reading lies before another (`std::time::SystemTimeError`).
#[verifier::external_type_specification]
#[verifier::external_body]
pub struct ExSystemTimeError(std::time::SystemTimeError);

/// `SystemTime::now`: the clock as it reads now. Nothing is stated of it.
#[verifier::external_body]
fn clock_now() -> std::time::SystemTime {
    std::time::SystemTime::now()
}

/// `SystemTime::duration_since(UNIX_EPOCH)`: how long after the Unix epoch
/// `t` lies, or an error when it lies before. Nothing is stated of which.
#[verifier::external_body]
fn since_epoch(t: &std::time::SystemTime) -> Result<core::time::Duration, std::time::SystemTimeError> {
    t.duration_since(std::time::UNIX_EPOCH)
}

/// `Duration::as_secs`: the whole seconds of a duration. A duration is
/// opaque here, so nothing is stated of the number.
#[verifier::external_body]
fn whole_secs(d: &core::time::Duration) -> u64 {
    d.as_secs()
}

/// The clock as whole seconds since the Unix epoch, 0 for a clock set before
/// the epoch. The result depends on the clock: nothing is stated of it.
pub(crate) fn unix_now() -> (secs: u64) {
    match since_epoch(&clock_now()) {
        Ok(d) => whole_secs(&d),
        Err(_) => 0,
    }
}

/// The current UTC time as `YYYY-MM-DDTHH:MM:SSZ`.
pub fn now_iso() -> (res: String)
    ensures
        exists|secs: u64| res@ == iso_text(secs as nat),
{
    let secs = unix_now();
    iso_from_secs(secs)
}

/// The current UTC time as `YYYYMMDD_HHMMSS`.
pub fn now_compact() -> (res: String)
    ensures
        exists|secs: u64| res@ == compact_text(secs as nat),
{
    let secs = unix_now();
    compact_from_secs(secs)
}

/// The days of year `y` from month `m` to December.
pub open spec fn rest_of_year(y: int, m: int) -> nat
    decreases 13 - m,
{
    if m > 12 || m < 1 {
        0
    } else {
        month_len(y, m) + rest_of_year(y, m + 1)
    }
}

proof fn lemma_month_and_day_valid(y: int, m: int, n: nat)
    requires
        1 <= m <= 12,
        n < rest_of_year(y, m),
    ensures
        m <= month_and_day(y, m, n).0 <= 12,
        month_and_day(y, m, n).1 < month_len(y, month_and_day(y, m, n).0),
    decreases 12 - m,
{
    if m < 12 && n >= month_len(y, m) {
        lemma_month_and_day_valid(y, m + 1, (n - month_len(y, m)) as nat);
    } else if m == 12 {
        assert(rest_of_year(y, 13) == 0);
    }
}

proof fn lemma_year_and_day_valid(y: int, n: nat)
    ensures
        year_and_day(y, n).1 < year_len(year_and_day(y, n).0),
    decreases n,
{
    if n >= year_len(y) {
        lemma_year_and_day_valid(y + 1, (n - year_len(y)) as nat);
    }
}

/// Every day count is a real calendar date: a month from 1 to 12 and a day
/// that the month has.
pub proof fn lemma_civil_date_valid(days: nat)
    ensures
        1 <= civil_date(days).1 <= 12,
        1 <= civil_date(days).2 <= month_len(civil_date(days).0, civil_date(days).1),
{
    let (y, d) = year_and_day(1970, days);
    lemma_year_and_day_valid(1970, days);
    assert(rest_of_year(y, 1) == year_len(y)) by {
        reveal_with_fuel(rest_of_year, 13);
    }
    lemma_month_and_day_valid(y, 1, d);
}

// ---------------------------------------------------------------------------
// Program runs
// ---------------------------------------------------------------------------

/// How a program run ended.
pub enum RunEnd {
    /// The program exited, successfully or not, having written these bytes
    /// to its output and to its error output.
    Exited { success: bool, stdout: Vec<u8>, stderr: Vec<u8> },
    /// The program ran past its time limit and was stopped.
    TimedOut,
}

/// The message for a program stopped at its time limit of `secs` seconds.
pub open spec fn timeout_message(secs: u64) -> Seq<char> {
    "命令超时（"@ + decimal(secs as nat) + " 秒）"@
}

/// What a run gives back: the output of a program that succeeded; for one
/// that failed, its error output, or its output when the error output is
/// blank; for one stopped at its time limit of `timeout_secs`, a message
/// naming the limit. Output is decoded as `String::from_utf8_lossy` decodes.
pub fn run_outcome(end: RunEnd, timeout_secs: u64) -> (res: Result<String, String>)
    ensures
        match end {
            RunEnd::TimedOut => res matches Err(e) && e@ == timeout_message(timeout_secs),
            RunEnd::Exited { success, stdout, stderr } => if success {
                res matches Ok(o) && o@ == lossy_utf8(stdout@)
            } else if trim(lossy_utf8(stderr@)).len() == 0 {
                res matches Err(e) && e@ == lossy_utf8(stdout@)
            } else {
                res matches Err(e) && e@ == lossy_utf8(stderr@)
            },
        },
{
    match end {
        RunEnd::TimedOut => {
            let mut e = owned("命令超时（");
            push_decimal(&mut e, timeout_secs);
            append_str(&mut e, " 秒）");
            Err(e)
        },
        RunEnd::Exited { success, stdout, stderr } => {
            let out = from_utf8_lossy(stdout.as_slice());
            if success {
                return Ok(out);
            }
            let err = from_utf8_lossy(stderr.as_slice());
            if is_blank(err.as_str()) {
                Err(out)
            } else {
                Err(err)
            }
        },
    }
}

} // verus!
