use vstd::prelude::*;

verus! {

/// Days from 1970-01-01 to the given day of the proleptic Gregorian calendar.
pub open spec fn days_from_civil(y: int, m: int, d: int) -> int {
    let y2 = if m <= 2 { y - 1 } else { y };
    let era = y2 / 400;
    let yoe = y2 - era * 400;
    let mp = if m > 2 { m - 3 } else { m + 9 };
    let doy = (153 * mp + 2) / 5 + d - 1;
    let doe = yoe * 365 + yoe / 4 - yoe / 100 + doy;
    era * 146097 + doe - 719468
}

pub open spec fn is_leap_year(y: int) -> bool {
    (y % 4 == 0 && y % 100 != 0) || y % 400 == 0
}

pub open spec fn days_in_month(y: int, m: int) -> int {
    if m == 2 {
        if is_leap_year(y) { 29 } else { 28 }
    } else if m == 4 || m == 6 || m == 9 || m == 11 {
        30
    } else {
        31
    }
}

/// A calendar date and time of day that exists, in years 1 to 9999.
pub open spec fn valid_civil(y: int, m: int, d: int, h: int, mi: int, s: int) -> bool {
    &&& 1 <= y <= 9999
    &&& 1 <= m <= 12
    &&& 1 <= d <= days_in_month(y, m)
    &&& 0 <= h < 24
    &&& 0 <= mi < 60
    &&& 0 <= s < 60
}

/// Seconds since 1970-01-01 00:00:00 of a date and time of day, read as UTC.
pub open spec fn civil_seconds(y: int, m: int, d: int, h: int, mi: int, s: int) -> int {
    days_from_civil(y, m, d) * 86400 + h * 3600 + mi * 60 + s
}

/// Relies on chrono's `NaiveDate::from_ymd_opt`, `NaiveDate::and_hms_opt` and
/// `DateTime::timestamp`: a date and time that exists gives its seconds since
/// the Unix epoch, read as UTC.
#[verifier::external_body]
fn civil_timestamp(year: i32, month: u32, day: u32, hour: u32, minute: u32, second: u32) -> (r: Option<i64>)
    ensures
        valid_civil(year as int, month as int, day as int, hour as int, minute as int, second as int)
            ==> r == Some(civil_seconds(year as int, month as int, day as int, hour as int, minute as int, second as int) as i64),
{
    match chrono::NaiveDate::from_ymd_opt(year, month, day) {
        Some(d) => match d.and_hms_opt(hour, minute, second) {
            Some(dt) => Some(dt.and_utc().timestamp()),
            None => None,
        },
        None => None,
    }
}

/// The decimal digits of `n`.
pub open spec fn decimal(n: nat) -> Seq<char>
    decreases n,
{
    if n < 10 {
        seq![digit_char(n)]
    } else {
        decimal(n / 10).push(digit_char(n % 10))
    }
}

pub open spec fn digit_char(d: nat) -> char {
    if d == 0 { '0' } else if d == 1 { '1' } else if d == 2 { '2' } else if d == 3 { '3' } else if d == 4 {
        '4'
    } else if d == 5 { '5' } else if d == 6 { '6' } else if d == 7 { '7' } else if d == 8 { '8' } else { '9' }
}

/// The decimal digits of `n`, left-padded with zeros to `width`.
pub open spec fn padded(n: nat, width: nat) -> Seq<char> {
    let d = decimal(n);
    if d.len() >= width {
        d
    } else {
        Seq::new((width - d.len()) as nat, |i: int| '0') + d
    }
}

fn digit_str(d: u32) -> (r: &'static str)
    requires
        d < 10,
    ensures
        r@ == seq![digit_char(d as nat)],
{
    proof {
        reveal_strlit("0");
        reveal_strlit("1");
        reveal_strlit("2");
        reveal_strlit("3");
        reveal_strlit("4");
        reveal_strlit("5");
        reveal_strlit("6");
        reveal_strlit("7");
        reveal_strlit("8");
        reveal_strlit("9");
    }
    if d == 0 { "0" } else if d == 1 { "1" } else if d == 2 { "2" } else if d == 3 { "3" } else if d == 4 {
        "4"
    } else if d == 5 { "5" } else if d == 6 { "6" } else if d == 7 { "7" } else if d == 8 { "8" } else { "9" }
}

/// Appends the decimal digits of `n`.
fn push_decimal(s: &mut String, n: u32)
    ensures
        final(s)@ == old(s)@ + decimal(n as nat),
    decreases n,
{
    if n < 10 {
        s.append(digit_str(n));
    } else {
        push_decimal(s, n / 10);
        s.append(digit_str(n % 10));
        assert(decimal(n as nat) == decimal((n / 10) as nat).push(digit_char((n % 10) as nat)));
        assert(final(s)@ =~= old(s)@ + decimal(n as nat)) by {
            assert(decimal((n / 10) as nat).push(digit_char((n % 10) as nat)) =~= decimal((n / 10) as nat) + seq![digit_char((n % 10) as nat)]);
        }
    }
}

proof fn lemma_decimal_len(n: nat)
    ensures
        decimal(n).len() >= 1,
        n < 10 ==> decimal(n).len() == 1,
        10 <= n < 100 ==> decimal(n).len() == 2,
        100 <= n < 1000 ==> decimal(n).len() == 3,
        1000 <= n < 10000 ==> decimal(n).len() == 4,
    decreases n,
{
    if n >= 10 {
        lemma_decimal_len(n / 10);
    }
}

/// Appends `n` left-padded with zeros to `width` digits.
fn push_padded(s: &mut String, n: u32, width: usize)
    requires
        width <= 4,
        n < 10000,
    ensures
        final(s)@ == old(s)@ + padded(n as nat, width as nat),
{
    proof {
        lemma_decimal_len(n as nat);
        reveal_strlit("0");
    }
    let len: usize = if n < 10 { 1 } else if n < 100 { 2 } else if n < 1000 { 3 } else { 4 };
    let mut k: usize = len;
    let ghost start = s@;
    while k < width
        invariant
            len <= k,
            k <= width || len >= width,
            len >= width ==> k == len,
            len == decimal(n as nat).len(),
            s@ == start + Seq::new((k - len) as nat, |i: int| '0'),
        decreases width - k,
    {
        proof {
            reveal_strlit("0");
        }
        s.append("0");
        k += 1;
        assert(s@ =~= start + Seq::new((k - len) as nat, |i: int| '0'));
    }
    let ghost zeros = Seq::new((k - len) as nat, |i: int| '0');
    let ghost mid = s@;
    push_decimal(s, n);
    proof {
        assert(s@ == start + zeros + decimal(n as nat));
        if len >= width {
            assert(zeros =~= Seq::<char>::empty());
            assert(s@ =~= start + padded(n as nat, width as nat));
        } else {
            assert(k == width);
            assert(zeros =~= Seq::new((width - len) as nat, |i: int| '0'));
            assert(s@ =~= start + padded(n as nat, width as nat));
        }
    }
}

proof fn lemma_civil_bounds(y: int, m: int, d: int, h: int, mi: int, s: int)
    requires
        valid_civil(y, m, d, h, mi, s),
    ensures
        -1_000_000_000_000 < civil_seconds(y, m, d, h, mi, s) < 1_000_000_000_000,
{
    let y2 = if m <= 2 { y - 1 } else { y };
    let era = y2 / 400;
    assert(0 <= era <= 25) by (nonlinear_arith)
        requires
            0 <= y2 <= 9999,
            era == y2 / 400,
    ;
    let yoe = y2 - era * 400;
    assert(0 <= yoe < 400) by (nonlinear_arith)
        requires
            0 <= y2,
            era == y2 / 400,
            yoe == y2 - era * 400,
    ;
    let mp = if m > 2 { m - 3 } else { m + 9 };
    let doy = (153 * mp + 2) / 5 + d - 1;
    assert(0 <= doy <= 400) by (nonlinear_arith)
        requires
            0 <= mp <= 11,
            1 <= d <= 31,
            doy == (153 * mp + 2) / 5 + d - 1,
    ;
    let doe = yoe * 365 + yoe / 4 - yoe / 100 + doy;
    assert(0 <= doe <= 200000) by (nonlinear_arith)
        requires
            0 <= yoe < 400,
            0 <= doy <= 400,
            doe == yoe * 365 + yoe / 4 - yoe / 100 + doy,
    ;
    let days = era * 146097 + doe - 719468;
    assert(days == days_from_civil(y, m, d));
    assert(-1_000_000 <= days <= 5_000_000) by (nonlinear_arith)
        requires
            0 <= era <= 25,
            0 <= doe <= 200000,
            days == era * 146097 + doe - 719468,
    ;
    assert(-1_000_000_000_000 < days * 86400 + h * 3600 + mi * 60 + s < 1_000_000_000_000) by (nonlinear_arith)
        requires
            -1_000_000 <= days <= 5_000_000,
            0 <= h < 24,
            0 <= mi < 60,
            0 <= s < 60,
    ;
}

/// A calendar time with its Unix timestamp.
#[derive(Debug, Clone)]
pub struct CTime {
    pub year: i32,
    pub month: u32,
    pub day: u32,
    pub hour: u32,
    pub minute: u32,
    pub second: u32,
    /// A time of exactly midnight stands for the whole day: its timestamp is
    /// taken at 23:59 of that day.
    pub auto: bool,
    pub ts: i64,
}

impl CTime {
    /// The timestamp a time gets: at 23:59 of its day when `auto` and it is
    /// midnight, else at its own time.
    pub open spec fn spec_ts(year: int, month: int, day: int, hour: int, minute: int, second: int, auto: bool) -> int {
        if hour == 0 && minute == 0 && auto {
            civil_seconds(year, month, day, 23, 59, second)
        } else {
            civil_seconds(year, month, day, hour, minute, second)
        }
    }

    pub fn new(year: i32, month: u32, day: u32, hour: u32, minute: u32, second: u32, auto: bool) -> (r: Self)
        requires
            valid_civil(year as int, month as int, day as int, hour as int, minute as int, second as int),
        ensures
            r.year == year && r.month == month && r.day == day && r.hour == hour && r.minute == minute
                && r.second == second && r.auto == auto,
            r.ts as int == Self::spec_ts(year as int, month as int, day as int, hour as int, minute as int, second as int, auto),
    {
        let (h, mi) = if hour == 0 && minute == 0 && auto { (23u32, 59u32) } else { (hour, minute) };
        let ts = civil_timestamp(year, month, day, h, mi, second).unwrap();
        proof {
            lemma_civil_bounds(year as int, month as int, day as int, h as int, mi as int, second as int);
        }
        CTime { year, month, day, hour, minute, second, auto, ts }
    }
}

impl CTime {
    pub open spec fn spec_valid(&self) -> bool {
        valid_civil(self.year as int, self.month as int, self.day as int, self.hour as int, self.minute as int, self.second as int)
    }

    pub open spec fn spec_date(&self, sep: Seq<char>) -> Seq<char> {
        padded(self.year as nat, 4) + sep + padded(self.month as nat, 2) + sep + padded(self.day as nat, 2)
    }

    /// "YYYY/MM/DD", with " HH:MM" after it unless the time is midnight.
    pub fn to_string(&self) -> (r: String)
        requires
            self.spec_valid(),
        ensures
            r@ == (if self.hour == 0 && self.minute == 0 {
                self.spec_date("/"@)
            } else {
                self.spec_date("/"@) + " "@ + padded(self.hour as nat, 2) + ":"@ + padded(self.minute as nat, 2)
            }),
    {
        let mut s = self.to_date_str("/");
        if !(self.hour == 0 && self.minute == 0) {
            s.append(" ");
            push_padded(&mut s, self.hour, 2);
            s.append(":");
            push_padded(&mut s, self.minute, 2);
        }
        s
    }

    /// The date as year, month and day joined by `splt`.
    pub fn to_date_str(&self, splt: &str) -> (r: String)
        requires
            self.spec_valid(),
        ensures
            r@ == self.spec_date(splt@),
    {
        let mut s = String::new();
        push_padded(&mut s, self.year as u32, 4);
        s.append(splt);
        push_padded(&mut s, self.month, 2);
        s.append(splt);
        push_padded(&mut s, self.day, 2);
        assert(s@ =~= self.spec_date(splt@));
        s
    }

    /// Midnight of the same day.
    pub fn to_date(&self) -> (r: Self)
        requires
            self.spec_valid(),
        ensures
            r.year == self.year && r.month == self.month && r.day == self.day,
            r.hour == 0 && r.minute == 0 && r.second == 0 && !r.auto,
            r.ts as int == civil_seconds(self.year as int, self.month as int, self.day as int, 0, 0, 0),
    {
        CTime::new(self.year, self.month, self.day, 0, 0, 0, false)
    }
}

} // verus!
