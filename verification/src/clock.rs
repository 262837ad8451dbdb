use vstd::prelude::*;

verus! {

/// A wall-clock instant broken into local calendar fields.
///
/// The pipeline stamps every record with one of these, the formatter renders
/// it, and the split appender embeds it in snapshot file names.
#[derive(Clone, Copy, PartialEq, Eq, Structural, Debug)]
pub struct Timestamp {
    pub year: u32,
    pub month: u32,
    pub day: u32,
    pub hour: u32,
    pub minute: u32,
    pub second: u32,
    pub micros: u32,
}

impl Timestamp {
    /// Field ranges every timestamp the library handles satisfies.
    pub open spec fn wf(self) -> bool {
        &&& 1970 <= self.year <= 9999
        &&& 1 <= self.month <= 12
        &&& 1 <= self.day <= 31
        &&& self.hour < 24
        &&& self.minute < 60
        &&& self.second < 60
        &&& self.micros < 1000000
    }

    /// `wf` plus a day its month really has.
    pub open spec fn calendar_valid(self) -> bool {
        self.wf() && self.day <= days_in_month(self.year as int, self.month as int)
    }
}

/// Whether `y` is a leap year of the proleptic Gregorian calendar.
pub open spec fn is_leap_year(y: int) -> bool {
    y % 4 == 0 && (y % 100 != 0 || y % 400 == 0)
}

/// How many days the month `m` of year `y` has.
pub open spec fn days_in_month(y: int, m: int) -> int {
    if m == 2 {
        if is_leap_year(y) {
            29
        } else {
            28
        }
    } else if m == 4 || m == 6 || m == 9 || m == 11 {
        30
    } else {
        31
    }
}

/// Computes `days_in_month` executably.
pub fn month_days(y: u32, m: u32) -> (r: u32)
    ensures
        r == days_in_month(y as int, m as int),
{
    if m == 2 {
        if y % 4 == 0 && (y % 100 != 0 || y % 400 == 0) {
            29
        } else {
            28
        }
    } else if m == 4 || m == 6 || m == 9 || m == 11 {
        30
    } else {
        31
    }
}

/// Relies on chrono's `Local::now` and its `Datelike`/`Timelike` accessors:
/// month is 1 to 12, day 1 to 31, hour below 24, minute and second below 60,
/// and `timestamp_subsec_micros` stays below 2,000,000 (the excess marks a
/// leap second). The year accessor promises nothing.
#[verifier::external_body]
fn now_local_raw() -> (r: (i32, u32, u32, u32, u32, u32, u32))
    ensures
        1 <= r.1 <= 12,
        1 <= r.2 <= 31,
        r.3 < 24,
        r.4 < 60,
        r.5 < 60,
        r.6 < 2000000,
{
    let t = chrono::Local::now();
    (
        chrono::Datelike::year(&t),
        chrono::Datelike::month(&t),
        chrono::Datelike::day(&t),
        chrono::Timelike::hour(&t),
        chrono::Timelike::minute(&t),
        chrono::Timelike::second(&t),
        chrono::DateTime::timestamp_subsec_micros(&t),
    )
}

impl Timestamp {
    /// The current local wall-clock time, folded into `wf` ranges: a year
    /// outside 1970 to 9999 saturates, and a leap second counts as the last
    /// microsecond of its minute.
    pub fn now() -> (r: Timestamp)
        ensures
            r.wf(),
    {
        let (y, mo, d, h, mi, s, us) = now_local_raw();
        let year: u32 = if y < 1970 {
            1970
        } else if y > 9999 {
            9999
        } else {
            y as u32
        };
        let micros: u32 = if us >= 1000000 {
            999999
        } else {
            us
        };
        Timestamp { year, month: mo, day: d, hour: h, minute: mi, second: s, micros }
    }
}

/// The decimal digit character for `d` (0 to 9).
pub open spec fn digit_char(d: int) -> char {
    if d == 0 { '0' }
    else if d == 1 { '1' }
    else if d == 2 { '2' }
    else if d == 3 { '3' }
    else if d == 4 { '4' }
    else if d == 5 { '5' }
    else if d == 6 { '6' }
    else if d == 7 { '7' }
    else if d == 8 { '8' }
    else { '9' }
}

/// Whether `c` is a decimal digit character.
pub open spec fn is_digit(c: char) -> bool {
    c == '0' || c == '1' || c == '2' || c == '3' || c == '4' || c == '5'
        || c == '6' || c == '7' || c == '8' || c == '9'
}

/// The numeric value of a digit character.
pub open spec fn digit_val(c: char) -> int {
    if c == '0' { 0 }
    else if c == '1' { 1 }
    else if c == '2' { 2 }
    else if c == '3' { 3 }
    else if c == '4' { 4 }
    else if c == '5' { 5 }
    else if c == '6' { 6 }
    else if c == '7' { 7 }
    else if c == '8' { 8 }
    else { 9 }
}

/// `v` rendered in decimal, zero-padded to exactly `width` digits
/// (the low-order `width` digits of `v`).
pub open spec fn dec(v: int, width: nat) -> Seq<char>
    decreases width,
{
    if width == 0 {
        Seq::empty()
    } else {
        dec(v / 10, (width - 1) as nat).push(digit_char(v % 10))
    }
}

pub proof fn lemma_dec_len(v: int, width: nat)
    ensures
        dec(v, width).len() == width,
    decreases width,
{
    if width > 0 {
        lemma_dec_len(v / 10, (width - 1) as nat);
    }
}

pub proof fn lemma_dec_is_digits(v: int, width: nat)
    ensures
        forall|k: int| 0 <= k < width ==> is_digit(#[trigger] dec(v, width)[k]),
    decreases width,
{
    lemma_dec_len(v, width);
    if width > 0 {
        lemma_dec_is_digits(v / 10, (width - 1) as nat);
        lemma_dec_len(v / 10, (width - 1) as nat);
        let s = dec(v, width);
        assert forall|k: int| 0 <= k < width implies is_digit(s[k]) by {
            if k < width - 1 {
                assert(s[k] == dec(v / 10, (width - 1) as nat)[k]);
            } else {
                assert(s[k] == digit_char(v % 10));
            }
        }
    }
}

pub proof fn lemma_dec2_value(v: int)
    requires
        0 <= v < 100,
    ensures
        digit_val(dec(v, 2)[0]) * 10 + digit_val(dec(v, 2)[1]) == v,
{
    lemma_dec_len(v / 10, 1);
    assert(dec(v, 2)[0] == digit_char((v / 10) % 10));
    assert(dec(v, 2)[1] == digit_char(v % 10));
    vstd::arithmetic::div_mod::lemma_fundamental_div_mod(v, 10);
    assert(v / 10 < 10) by {
        vstd::arithmetic::div_mod::lemma_div_is_ordered(v, 99, 10);
    }
    assert((v / 10) % 10 == v / 10) by {
        vstd::arithmetic::div_mod::lemma_small_mod((v / 10) as nat, 10);
    }
}

pub proof fn lemma_dec4_value(v: int)
    requires
        0 <= v < 10000,
    ensures
        digit_val(dec(v, 4)[0]) * 1000 + digit_val(dec(v, 4)[1]) * 100 + digit_val(dec(v, 4)[2])
            * 10 + digit_val(dec(v, 4)[3]) == v,
{
    lemma_dec_len(v / 10, 3);
    lemma_dec_len(v / 100, 2);
    lemma_dec_len(v / 1000, 1);
    vstd::arithmetic::div_mod::lemma_div_denominator(v, 10, 10);
    vstd::arithmetic::div_mod::lemma_div_denominator(v, 100, 10);
    assert(v / 10 / 10 == v / 100);
    assert(v / 100 / 10 == v / 1000);
    assert(dec(v, 4)[3] == digit_char(v % 10));
    assert(dec(v, 4)[2] == digit_char((v / 10) % 10));
    assert(dec(v, 4)[1] == digit_char((v / 100) % 10));
    assert(dec(v, 4)[0] == digit_char((v / 1000) % 10));
    vstd::arithmetic::div_mod::lemma_fundamental_div_mod(v, 10);
    vstd::arithmetic::div_mod::lemma_fundamental_div_mod(v / 10, 10);
    vstd::arithmetic::div_mod::lemma_fundamental_div_mod(v / 100, 10);
    assert(v / 1000 < 10) by {
        vstd::arithmetic::div_mod::lemma_div_is_ordered(v, 9999, 1000);
    }
    assert((v / 1000) % 10 == v / 1000) by {
        vstd::arithmetic::div_mod::lemma_small_mod((v / 1000) as nat, 10);
    }
}

/// Powers of ten, for reasoning about `dec` digit by digit.
pub open spec fn pow10(w: nat) -> int
    decreases w,
{
    if w == 0 {
        1
    } else {
        10 * pow10((w - 1) as nat)
    }
}

pub proof fn lemma_pow10_pos(w: nat)
    ensures
        pow10(w) >= 1,
    decreases w,
{
    if w > 0 {
        lemma_pow10_pos((w - 1) as nat);
    }
}

/// `dec` keeps only the low `w` digits, so reducing modulo `pow10(w)` does
/// not change it.
pub proof fn lemma_dec_mod(v: int, w: nat)
    requires
        v >= 0,
    ensures
        dec(v % pow10(w), w) == dec(v, w),
    decreases w,
{
    if w > 0 {
        let p = pow10((w - 1) as nat);
        lemma_pow10_pos((w - 1) as nat);
        let u = v % (10 * p);
        vstd::arithmetic::div_mod::lemma_breakdown(v, 10, p);
        assert(u == 10 * ((v / 10) % p) + v % 10);
        vstd::arithmetic::div_mod::lemma_div_multiples_vanish_fancy((v / 10) % p, v % 10, 10);
        assert(u / 10 == (v / 10) % p);
        vstd::arithmetic::div_mod::lemma_mod_multiples_vanish((v / 10) % p, v % 10, 10);
        assert(u % 10 == (v % 10) % 10);
        vstd::arithmetic::div_mod::lemma_small_mod((v % 10) as nat, 10);
        lemma_dec_mod(v / 10, (w - 1) as nat);
        assert(dec(u, w) == dec(u / 10, (w - 1) as nat).push(digit_char(u % 10)));
    }
}

/// Splitting the leading (most significant) digit off a `dec` rendering.
pub proof fn lemma_dec_front(v: int, w: nat)
    requires
        v >= 0,
        w >= 1,
    ensures
        dec(v, w) == seq![digit_char((v / pow10((w - 1) as nat)) % 10)] + dec(v, (w - 1) as nat),
    decreases w,
{
    if w == 1 {
        assert(v / 1 == v) by {
            vstd::arithmetic::div_mod::lemma_fundamental_div_mod(v, 1);
        }
        assert(dec(v / 10, 0) == Seq::<char>::empty());
        assert(dec(v, 1) == Seq::<char>::empty().push(digit_char(v % 10)));
        assert(dec(v, 1) =~= seq![digit_char(v % 10)] + dec(v, 0));
    } else {
        lemma_dec_front(v / 10, (w - 1) as nat);
        let p = pow10((w - 2) as nat);
        lemma_pow10_pos((w - 2) as nat);
        vstd::arithmetic::div_mod::lemma_div_denominator(v, 10, p);
        assert((v / 10) / p == v / (10 * p));
        assert(dec(v, w) =~= seq![digit_char((v / (10 * p)) % 10)] + dec(v, (w - 1) as nat));
    }
}

fn digit_str(d: u32) -> (r: &'static str)
    requires
        d < 10,
    ensures
        r@ == seq![digit_char(d as int)],
{
    let s = match d {
        0 => "0",
        1 => "1",
        2 => "2",
        3 => "3",
        4 => "4",
        5 => "5",
        6 => "6",
        7 => "7",
        8 => "8",
        _ => "9",
    };
    proof {
        reveal_strlit("0");
        reveal_strlit("1");
        reveal_strlit("2");
        reveal_strlit("3");
        reveal_strlit("4");
        reveal_strlit("5");
        reveal_strlit("6");
        reveal_strlit("7");
        reveal_strlit("8");
        reveal_strlit("9");
        assert(s@ =~= seq![digit_char(d as int)]);
    }
    s
}

/// Appends `v` in decimal to `out`, zero-padded to `width` digits.
pub fn push_dec(out: &mut String, v: u32, width: u32)
    ensures
        final(out)@ == old(out)@ + dec(v as int, width as nat),
    decreases width,
{
    if width == 0 {
        proof {
            assert(out@ =~= old(out)@ + dec(v as int, 0));
        }
    } else {
        push_dec(out, v / 10, width - 1);
        out.append(digit_str(v % 10));
        proof {
            assert(out@ =~= old(out)@ + dec(v as int, width as nat));
        }
    }
}

/// The timestamp as it is embedded in snapshot file names:
/// `YYYY_MM_DDTHH_MM_SS.ffffff`.
pub open spec fn file_stamp(ts: Timestamp) -> Seq<char> {
    dec(ts.year as int, 4) + seq!['_'] + dec(ts.month as int, 2) + seq!['_'] + dec(
        ts.day as int,
        2,
    ) + seq!['T'] + dec(ts.hour as int, 2) + seq!['_'] + dec(ts.minute as int, 2) + seq!['_'] + dec(
        ts.second as int,
        2,
    ) + seq!['.'] + dec(ts.micros as int, 6)
}

/// The timestamp as the default formatter renders it:
/// `YYYY-MM-DDTHH:MM:SS.ffffff`.
pub open spec fn iso_stamp(ts: Timestamp) -> Seq<char> {
    dec(ts.year as int, 4) + seq!['-'] + dec(ts.month as int, 2) + seq!['-'] + dec(
        ts.day as int,
        2,
    ) + seq!['T'] + dec(ts.hour as int, 2) + seq![':'] + dec(ts.minute as int, 2) + seq![':'] + dec(
        ts.second as int,
        2,
    ) + seq!['.'] + dec(ts.micros as int, 6)
}

/// Appends the file-name form of `ts` to `out`.
pub fn push_file_stamp(out: &mut String, ts: &Timestamp)
    ensures
        final(out)@ == old(out)@ + file_stamp(*ts),
{
    push_dec(out, ts.year, 4);
    out.append("_");
    push_dec(out, ts.month, 2);
    out.append("_");
    push_dec(out, ts.day, 2);
    out.append("T");
    push_dec(out, ts.hour, 2);
    out.append("_");
    push_dec(out, ts.minute, 2);
    out.append("_");
    push_dec(out, ts.second, 2);
    out.append(".");
    push_dec(out, ts.micros, 6);
    proof {
        reveal_strlit("_");
        reveal_strlit("T");
        reveal_strlit(".");
        assert(out@ =~= old(out)@ + file_stamp(*ts));
    }
}

/// Appends the formatter's rendering of `ts` to `out`.
pub fn push_iso_stamp(out: &mut String, ts: &Timestamp)
    ensures
        final(out)@ == old(out)@ + iso_stamp(*ts),
{
    push_dec(out, ts.year, 4);
    out.append("-");
    push_dec(out, ts.month, 2);
    out.append("-");
    push_dec(out, ts.day, 2);
    out.append("T");
    push_dec(out, ts.hour, 2);
    out.append(":");
    push_dec(out, ts.minute, 2);
    out.append(":");
    push_dec(out, ts.second, 2);
    out.append(".");
    push_dec(out, ts.micros, 6);
    proof {
        reveal_strlit("-");
        reveal_strlit("T");
        reveal_strlit(":");
        reveal_strlit(".");
        assert(out@ =~= old(out)@ + iso_stamp(*ts));
    }
}

/// Seconds of `ts` on a fixed linear clock (days are counted from the start
/// of the proleptic Gregorian era cycle, not from 1970). Only differences of
/// two of these values are meaningful, which is all retention needs.
pub open spec fn stamp_secs(ts: Timestamp) -> int {
    let y: int = if ts.month <= 2 { ts.year - 1 } else { ts.year as int };
    let era: int = y / 400;
    let yoe: int = y - era * 400;
    let mp: int = if ts.month > 2 { ts.month - 3 } else { ts.month + 9 };
    let doy: int = (153 * mp + 2) / 5 + ts.day - 1;
    let doe: int = yoe * 365 + yoe / 4 - yoe / 100 + doy;
    let days: int = era * 146097 + doe;
    days * 86400 + ts.hour * 3600 + ts.minute * 60 + ts.second
}

/// Computes `stamp_secs` executably.
pub fn stamp_seconds(ts: &Timestamp) -> (r: u64)
    requires
        ts.wf(),
    ensures
        r as int == stamp_secs(*ts),
{
    let y: u64 = if ts.month <= 2 { ts.year as u64 - 1 } else { ts.year as u64 };
    let era: u64 = y / 400;
    let yoe: u64 = y - era * 400;
    let mp: u64 = if ts.month > 2 { ts.month as u64 - 3 } else { ts.month as u64 + 9 };
    let doy: u64 = (153 * mp + 2) / 5 + ts.day as u64 - 1;
    let doe: u64 = yoe * 365 + yoe / 4 - yoe / 100 + doy;
    let days: u64 = era * 146097 + doe;
    days * 86400 + ts.hour as u64 * 3600 + ts.minute as u64 * 60 + ts.second as u64
}

/// Whether the instant `t` lies more than `d` seconds before `now`.
pub open spec fn is_older_than(t: Timestamp, now: Timestamp, d: int) -> bool {
    stamp_secs(now) - stamp_secs(t) > d
}

/// Executable form of `is_older_than` for a duration in whole seconds.
pub fn older_than(t: &Timestamp, now: &Timestamp, d: u64) -> (r: bool)
    requires
        t.wf(),
        now.wf(),
    ensures
        r == is_older_than(*t, *now, d as int),
{
    let ts = stamp_seconds(t);
    let ns = stamp_seconds(now);
    if ns > ts {
        ns - ts > d
    } else {
        false
    }
}

} // verus!
