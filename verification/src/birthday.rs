//! Birthday bookkeeping: the stored form of a birthday, the day after it,
//! when the next one starts, and the replies of the birthday commands.
use chrono::{Datelike, Timelike};
use vstd::prelude::*;
use vstd::string::StringExecFns;
use crate::text::{all_digits, chars_of, decimal, digits_value, parse_u64, push_decimal, push_str, signed_decimal, spec_parse_u64};

verus! {

/// The number of days of each month, January first (February has 28).
pub open spec fn spec_month_days(index: int) -> int {
    if index == 1 {
        28
    } else if index == 3 || index == 5 || index == 8 || index == 10 {
        30
    } else {
        31
    }
}

/// The number of days of the month at `index`, January being 0.
pub fn month_to_days(index: usize) -> (r: i64)
    requires
        index < 12,
    ensures
        r == spec_month_days(index as int),
{
    if index == 1 {
        28
    } else if index == 3 || index == 5 || index == 8 || index == 10 {
        30
    } else {
        31
    }
}

/// The English name of each month, January first.
pub open spec fn spec_month_name(index: int) -> Seq<char> {
    if index == 0 { "January"@ }
    else if index == 1 { "February"@ }
    else if index == 2 { "March"@ }
    else if index == 3 { "April"@ }
    else if index == 4 { "May"@ }
    else if index == 5 { "June"@ }
    else if index == 6 { "July"@ }
    else if index == 7 { "August"@ }
    else if index == 8 { "September"@ }
    else if index == 9 { "October"@ }
    else if index == 10 { "November"@ }
    else { "December"@ }
}

/// The name of the month at `index`, January being 0.
pub fn month_to_name(index: usize) -> (r: &'static str)
    requires
        index < 12,
    ensures
        r@ == spec_month_name(index as int),
{
    if index == 0 { "January" }
    else if index == 1 { "February" }
    else if index == 2 { "March" }
    else if index == 3 { "April" }
    else if index == 4 { "May" }
    else if index == 5 { "June" }
    else if index == 6 { "July" }
    else if index == 7 { "August" }
    else if index == 8 { "September" }
    else if index == 9 { "October" }
    else if index == 10 { "November" }
    else { "December" }
}

/// A birthday's start in UTC, as stored: month, day and hour.
#[derive(Clone, Copy, Debug, PartialEq, Eq, Structural)]
pub struct BirthdayDateTime {
    pub month: u32,
    pub day: u32,
    pub hour: u32,
}

/// A number written with at least two digits, as `{:02}` writes it.
pub open spec fn two_digits(n: nat) -> Seq<char> {
    if n < 10 {
        seq!['0'] + decimal(n)
    } else {
        decimal(n)
    }
}

/// The day after a stored birthday, going by the table of month lengths
/// with the month it is looked up at being the stored month as an index
/// (so January goes by February's length); past the last day the month
/// goes on, December to January.
pub open spec fn spec_one_day_ahead(b: BirthdayDateTime) -> BirthdayDateTime {
    let day = ((b.day + 1) % (spec_month_days(b.month as int) + 1)) as u32;
    if day == 0 {
        let month = ((b.month + 1) % 13) as u32;
        BirthdayDateTime { month: if month == 0 { 1 } else { month }, day: 1, hour: b.hour }
    } else {
        BirthdayDateTime { month: b.month, day, hour: b.hour }
    }
}

/// The first `-` of `s` from position `k` on; the length of `s` where
/// there is none.
pub open spec fn first_dash_from(s: Seq<char>, k: int) -> int
    decreases s.len() - k,
{
    if k < 0 || k >= s.len() {
        s.len() as int
    } else if s[k] == '-' {
        k
    } else {
        first_dash_from(s, k + 1)
    }
}

/// The three numbers of a stored birthday, `MONTH-DAY-HOUR`, each one or
/// more decimal digits.
pub open spec fn sql_parts(s: Seq<char>) -> Option<(Seq<char>, Seq<char>, Seq<char>)> {
    let i = first_dash_from(s, 0);
    if i >= s.len() {
        None
    } else {
        let rest = s.skip(i + 1);
        let j = first_dash_from(rest, 0);
        if j >= rest.len() {
            None
        } else {
            let a = s.take(i);
            let b = rest.take(j);
            let c = rest.skip(j + 1);
            if a.len() > 0 && b.len() > 0 && c.len() > 0 && all_digits(a) && all_digits(b) && all_digits(c) {
                Some((a, b, c))
            } else {
                None
            }
        }
    }
}

/// Whether the numbers of a stored birthday, where it has the right form,
/// fit in a `u32`.
pub open spec fn sql_parts_fit(s: Seq<char>) -> bool {
    sql_parts(s) matches Some(p) ==> digits_value(p.0) <= u32::MAX && digits_value(p.1) <= u32::MAX
        && digits_value(p.2) <= u32::MAX
}

fn find_dash(cs: &[char]) -> (r: usize)
    ensures
        r == first_dash_from(cs@, 0),
{
    let mut k: usize = 0;
    while k < cs.len()
        invariant
            k <= cs@.len(),
            first_dash_from(cs@, 0) == first_dash_from(cs@, k as int),
        decreases cs@.len() - k,
    {
        if cs[k] == '-' {
            return k;
        }
        k = k + 1;
    }
    k
}

fn parse_u32_digits(cs: &[char]) -> (r: u32)
    requires
        cs@.len() > 0,
        all_digits(cs@),
        digits_value(cs@) <= u32::MAX,
    ensures
        r == digits_value(cs@),
{
    assert(cs@[0] != '+');
    proof {
        crate::text::lemma_digits_value_nonneg(cs@);
    }
    match parse_u64(cs) {
        Some(v) => v as u32,
        None => 0,
    }
}

impl BirthdayDateTime {
    pub fn new(month: u32, day: u32, hour: u32) -> (r: BirthdayDateTime)
        ensures
            r == (BirthdayDateTime { month, day, hour }),
    {
        BirthdayDateTime { month, day, hour }
    }

    /// The day after this birthday (see [`spec_one_day_ahead`]).
    pub fn one_day_ahead(&self) -> (r: BirthdayDateTime)
        requires
            self.month < 12,
            self.day < u32::MAX,
        ensures
            r == spec_one_day_ahead(*self),
    {
        let mut day = (self.day + 1) % (month_to_days(self.month as usize) as u32 + 1);
        let mut month = self.month;
        if day == 0 {
            month = (self.month + 1) % 13;
            if month == 0 {
                month = 1;
            }
            day = 1;
        }
        BirthdayDateTime::new(month, day, self.hour)
    }

    /// The stored form, `MM-DD-HH`.
    pub fn to_sql(&self) -> (r: String)
        ensures
            r@ == two_digits(self.month as nat) + "-"@ + two_digits(self.day as nat) + "-"@ + two_digits(
                self.hour as nat,
            ),
    {
        let mut s = String::new();
        push_two_digits(&mut s, self.month);
        push_str(&mut s, "-");
        push_two_digits(&mut s, self.day);
        push_str(&mut s, "-");
        push_two_digits(&mut s, self.hour);
        proof {
            assert(Seq::<char>::empty() + two_digits(self.month as nat) =~= two_digits(self.month as nat));
        }
        s
    }

    /// Reads the stored form back: `None` where the text is not three
    /// groups of digits joined by `-`.
    pub fn column_result(value: &str) -> (r: Option<BirthdayDateTime>)
        requires
            sql_parts_fit(value@),
        ensures
            r == (match sql_parts(value@) {
                Some(p) => Some(
                    BirthdayDateTime {
                        month: digits_value(p.0) as u32,
                        day: digits_value(p.1) as u32,
                        hour: digits_value(p.2) as u32,
                    },
                ),
                None => None,
            }),
    {
        let cs = chars_of(value);
        let i = find_dash(cs.as_slice());
        if i >= cs.len() {
            return None;
        }
        let (a, after) = cs.as_slice().split_at(i);
        let rest = after.split_at(1).1;
        assert(rest@ =~= cs@.skip(i + 1));
        assert(a@ =~= cs@.take(i as int));
        let j = find_dash(rest);
        if j >= rest.len() {
            return None;
        }
        let (b, after2) = rest.split_at(j);
        let c = after2.split_at(1).1;
        assert(b@ =~= rest@.take(j as int));
        assert(c@ =~= rest@.skip(j + 1));
        if a.len() == 0 || b.len() == 0 || c.len() == 0 {
            return None;
        }
        if !crate::text::all_ascii_digits(a) || !crate::text::all_ascii_digits(b) || !crate::text::all_ascii_digits(c) {
            return None;
        }
        let month = parse_u32_digits(a);
        let day = parse_u32_digits(b);
        let hour = parse_u32_digits(c);
        Some(BirthdayDateTime { month, day, hour })
    }
}

/// Appends `n` with at least two digits.
fn push_two_digits(s: &mut String, n: u32)
    ensures
        final(s)@ == old(s)@ + two_digits(n as nat),
{
    if n < 10 {
        push_str(s, "0");
        push_decimal(s, n as u64);
        proof {
            assert(old(s)@ + "0"@ + decimal(n as nat) =~= old(s)@ + (seq!['0'] + decimal(n as nat))) by {
                reveal_strlit("0");
            }
        }
    } else {
        push_decimal(s, n as u64);
    }
}

} // verus!

verus! {

/// Whether `year` is a leap year of the proleptic Gregorian calendar.
pub open spec fn is_leap_year(year: int) -> bool {
    (year % 4 == 0 && year % 100 != 0) || year % 400 == 0
}

/// The number of days of a month of a year.
pub open spec fn days_in_month(year: int, month: int) -> int {
    if month == 2 && is_leap_year(year) {
        29
    } else {
        spec_month_days(month - 1)
    }
}

/// Whether a day of a month of a year exists.
pub open spec fn valid_date(year: int, month: int, day: int) -> bool {
    1 <= month <= 12 && 1 <= day <= days_in_month(year, month)
}

/// The current time in UTC, by its fields.
#[derive(Clone, Copy, Debug, PartialEq, Eq, Structural)]
pub struct UtcTime {
    pub year: i32,
    pub month: u32,
    pub day: u32,
    pub hour: u32,
    pub minute: u32,
    pub second: u32,
    pub nanosecond: u32,
}

/// Whether a birthday starting this year at the stored hour starts before
/// `now`.
pub open spec fn starts_before_now(b: BirthdayDateTime, now: UtcTime) -> bool {
    b.month < now.month || (b.month == now.month && (b.day < now.day || (b.day == now.day && (b.hour
        < now.hour || (b.hour == now.hour && (now.minute > 0 || now.second > 0 || now.nanosecond > 0))))))
}

/// The year of the next start of a birthday: this year, or the next one
/// where this year's start has passed.
pub open spec fn next_birthday_year(b: BirthdayDateTime, now: UtcTime) -> int {
    if starts_before_now(b, now) {
        now.year + 1
    } else {
        now.year as int
    }
}

/// Whether the next start of a stored birthday can be written as a date:
/// the stored day exists in the year it falls in.
pub open spec fn next_birthday_exists(b: BirthdayDateTime, now: UtcTime) -> bool {
    &&& valid_date(now.year as int, b.month as int, b.day as int)
    &&& b.hour < 24
    &&& now.year < i32::MAX
    &&& valid_date(next_birthday_year(b, now), b.month as int, b.day as int)
}

/// What the birthday lookup answers.
#[derive(Debug)]
pub enum BirthdayLookup {
    /// The next start of the birthday, with the text shown before it.
    NextBirthday { year: i32, month: u32, day: u32, hour: u32, footer: String },
    /// No birthday is stored; the text says so.
    NotFound(String),
}

/// When the next birthday of a user starts, or that none is stored.
pub fn get_birthday(user_id: u64, birthday: Option<BirthdayDateTime>, now: UtcTime) -> (r: BirthdayLookup)
    requires
        birthday matches Some(b) ==> next_birthday_exists(b, now),
    ensures
        match birthday {
            Some(b) => r matches BirthdayLookup::NextBirthday { year, month, day, hour, footer } && year
                == next_birthday_year(b, now) && month == b.month && day == b.day && hour == b.hour && footer@
                == decimal(user_id as nat) + "'s next birthday will start at "@,
            None => r matches BirthdayLookup::NotFound(m) && m@ == "No birthday found from the user "@ + decimal(
                user_id as nat,
            ),
        },
{
    match birthday {
        Some(b) => {
            let before = b.month < now.month || (b.month == now.month && (b.day < now.day || (b.day == now.day && (
            b.hour < now.hour || (b.hour == now.hour && (now.minute > 0 || now.second > 0 || now.nanosecond
                > 0))))));
            let year = if before { now.year + 1 } else { now.year };
            let mut footer = String::new();
            push_decimal(&mut footer, user_id);
            push_str(&mut footer, "'s next birthday will start at ");
            proof {
                assert(Seq::<char>::empty() + decimal(user_id as nat) =~= decimal(user_id as nat));
            }
            BirthdayLookup::NextBirthday { year, month: b.month, day: b.day, hour: b.hour, footer }
        },
        None => {
            let mut m = String::from_str("No birthday found from the user ");
            push_decimal(&mut m, user_id);
            BirthdayLookup::NotFound(m)
        },
    }
}

/// What removing a birthday answers: whether the birthday role has to be
/// looked up (the user was having their birthday, so a row of the ongoing
/// birthdays went too), and the reply.
#[derive(Debug)]
pub struct BirthdayRemoval {
    pub look_up_role: bool,
    pub message: String,
}

/// What removing the birthday of a user answers, given how many rows the
/// removal changed.
pub fn remove_birthday(user_id: u64, rows_changed: usize) -> (r: BirthdayRemoval)
    ensures
        r.look_up_role == (rows_changed > 1),
        r.message@ == (if rows_changed > 0 {
            decimal(user_id as nat) + "'s birthday was removed."@
        } else {
            "No birthday was found for "@ + decimal(user_id as nat) + "."@
        }),
{
    let message = if rows_changed > 0 {
        let mut m = String::new();
        push_decimal(&mut m, user_id);
        push_str(&mut m, "'s birthday was removed.");
        assert(Seq::<char>::empty() + decimal(user_id as nat) =~= decimal(user_id as nat));
        m
    } else {
        let mut m = String::from_str("No birthday was found for ");
        push_decimal(&mut m, user_id);
        push_str(&mut m, ".");
        m
    };
    BirthdayRemoval { look_up_role: rows_changed > 1, message }
}

/// The reply after a birthday was saved, depending on whether the server
/// has a birthday role.
pub fn birthday_saved_message(user_id: u64, has_role: bool) -> (r: String)
    ensures
        r@ == decimal(user_id as nat) + (if has_role {
            "'s birthday has been saved."@
        } else {
            "'s birthday has been saved, but this server doesn't have a birthday role. Please ask a staff member to set one."@
        }),
{
    let mut m = String::new();
    push_decimal(&mut m, user_id);
    if has_role {
        push_str(&mut m, "'s birthday has been saved.");
    } else {
        push_str(
            &mut m,
            "'s birthday has been saved, but this server doesn't have a birthday role. Please ask a staff member to set one.",
        );
    }
    assert(Seq::<char>::empty() + decimal(user_id as nat) =~= decimal(user_id as nat));
    m
}

/// A time zone offset as shown: a `+` before a positive offset or zero.
pub open spec fn time_zone_text(time_zone: i64) -> Seq<char> {
    if time_zone >= 0 {
        seq!['+'] + signed_decimal(time_zone as int)
    } else {
        signed_decimal(time_zone as int)
    }
}

/// The question asked before a birthday is saved: for a moderator setting
/// someone's birthday, or for a user setting their own.
pub fn birthday_set_message(
    is_privileged: bool,
    target_id: u64,
    month: u32,
    day: u32,
    time_zone: i64,
    prefix: &str,
) -> (r: String)
    requires
        1 <= month <= 12,
    ensures
        r@ == (if is_privileged {
            decimal(target_id as nat) + "'s birthday will be set as ``"@ + spec_month_name(month - 1) + " "@
                + decimal(day as nat) + "``. They will get the birthday role for 24 hours starting at 0:00 UTC"@
                + time_zone_text(time_zone)
                + " of that day. Are you sure this is what you want? Type ``"@ + prefix@
                + "birthdayconfirm`` to confirm this. This will expire in 30 seconds."@
        } else {
            "Your birthday will be set as ``"@ + spec_month_name(month - 1) + " "@ + decimal(day as nat)
                + "``. You will get the birthday role for 24 hours starting at 0:00 UTC"@ + time_zone_text(time_zone)
                + " of that day. Are you sure this is what you want? You won't be able to change this again unless a moderator does it for you. Type ``"@
                + prefix@ + "birthdayconfirm`` to confirm this. This will expire in 30 seconds."@
        }),
{
    let mut tz = String::new();
    if time_zone >= 0 {
        push_str(&mut tz, "+");
    }
    crate::text::push_signed_decimal(&mut tz, time_zone);
    proof {
        if time_zone >= 0 {
            assert(Seq::<char>::empty() + "+"@ + signed_decimal(time_zone as int) =~= seq!['+'] + signed_decimal(time_zone as int)) by {
                reveal_strlit("+");
            }
        } else {
            assert(Seq::<char>::empty() + signed_decimal(time_zone as int) =~= signed_decimal(time_zone as int));
        }
    }
    let month_name = month_to_name((month - 1) as usize);
    let mut m = String::new();
    if is_privileged {
        push_decimal(&mut m, target_id);
        push_str(&mut m, "'s birthday will be set as ``");
    } else {
        push_str(&mut m, "Your birthday will be set as ``");
    }
    push_str(&mut m, month_name);
    push_str(&mut m, " ");
    push_decimal(&mut m, day as u64);
    if is_privileged {
        push_str(&mut m, "``. They will get the birthday role for 24 hours starting at 0:00 UTC");
    } else {
        push_str(&mut m, "``. You will get the birthday role for 24 hours starting at 0:00 UTC");
    }
    push_str(&mut m, tz.as_str());
    if is_privileged {
        push_str(&mut m, " of that day. Are you sure this is what you want? Type ``");
    } else {
        push_str(
            &mut m,
            " of that day. Are you sure this is what you want? You won't be able to change this again unless a moderator does it for you. Type ``",
        );
    }
    push_str(&mut m, prefix);
    push_str(&mut m, "birthdayconfirm`` to confirm this. This will expire in 30 seconds.");
    proof {
        if is_privileged {
            assert(Seq::<char>::empty() + decimal(target_id as nat) =~= decimal(target_id as nat));
        } else {
            assert(Seq::<char>::empty() + "Your birthday will be set as ``"@ =~= "Your birthday will be set as ``"@);
        }
    }
    m
}

/// An hour of a day of the proleptic Gregorian calendar.
#[derive(Clone, Copy, Debug, PartialEq, Eq, Structural)]
pub struct CalendarHour {
    pub year: i32,
    pub month: u32,
    pub day: u32,
    pub hour: u32,
}

/// Whether a calendar hour names an hour of a day that exists.
pub open spec fn valid_calendar_hour(c: CalendarHour) -> bool {
    valid_date(c.year as int, c.month as int, c.day as int) && c.hour < 24
}

/// The days from the first day of year 1 to the first day of `year`.
pub open spec fn days_before_year(year: int) -> int {
    let y = year - 1;
    365 * y + y / 4 - y / 100 + y / 400
}

/// The days from the first day of `year` to the first day of `month`.
pub open spec fn days_before_month(year: int, month: int) -> int
    decreases month,
{
    if month <= 1 {
        0
    } else {
        days_before_month(year, month - 1) + days_in_month(year, month - 1)
    }
}

/// The hours from the start of the first day of year 1 to the start of an
/// hour of a day.
pub open spec fn hour_number(c: CalendarHour) -> int {
    (days_before_year(c.year as int) + days_before_month(c.year as int, c.month as int) + c.day - 1) * 24
        + c.hour
}

/// Whether a calendar hour lies within the years this library moves hours in.
pub open spec fn in_moving_range(c: CalendarHour) -> bool {
    -100_000 <= c.year <= 100_000
}

/// Moves a calendar hour by a number of hours (`chrono`: `NaiveDateTime`
/// plus `TimeDelta::hours`): the hour that many hours later, or earlier
/// where the number is negative.
#[verifier::external_body]
fn shift_hours(at: CalendarHour, hours: i64) -> (r: CalendarHour)
    requires
        valid_calendar_hour(at),
        in_moving_range(at),
        -1_000_000_000 <= hours <= 1_000_000_000,
    ensures
        valid_calendar_hour(r),
        hour_number(r) == hour_number(at) + hours,
{
    let start = chrono::NaiveDate::from_ymd_opt(at.year, at.month, at.day).unwrap().and_hms_opt(at.hour, 0, 0).unwrap();
    let moved = start + chrono::Duration::hours(hours);
    CalendarHour { year: moved.year(), month: moved.month(), day: moved.day(), hour: moved.hour() }
}

impl CalendarHour {
    /// The stored form of the hour: its month, day and hour.
    pub fn to_birthday_date_time(&self) -> (r: BirthdayDateTime)
        ensures
            r == (BirthdayDateTime { month: self.month, day: self.day, hour: self.hour }),
    {
        BirthdayDateTime::new(self.month, self.day, self.hour)
    }
}

/// The statement that saves a birthday: for a privileged user it replaces a
/// saved birthday, for anyone else it keeps the saved one.
pub fn birthday_insert_statement(is_privileged: bool) -> (r: &'static str)
    ensures
        r@ == (if is_privileged {
            "INSERT OR REPLACE INTO bday VALUES (?, ?, ?);"@
        } else {
            "INSERT OR IGNORE INTO bday VALUES (?, ?, ?);"@
        }),
{
    if is_privileged {
        "INSERT OR REPLACE INTO bday VALUES (?, ?, ?);"
    } else {
        "INSERT OR IGNORE INTO bday VALUES (?, ?, ?);"
    }
}

/// When a birthday given in a time zone starts in UTC: midnight of that day
/// of 2021 in the zone, which is `time_zone` hours before midnight in UTC.
pub fn birthday_start(month: u32, day: u32, time_zone: i64) -> (r: CalendarHour)
    requires
        valid_date(2021, month as int, day as int),
        -1_000_000_000 <= time_zone <= 1_000_000_000,
    ensures
        valid_calendar_hour(r),
        hour_number(r) == hour_number(CalendarHour { year: 2021, month, day, hour: 0 }) - time_zone,
{
    shift_hours(CalendarHour { year: 2021, month, day, hour: 0 }, -time_zone)
}

/// Whether a time comes after the start of a calendar hour.
pub open spec fn later_than(t: UtcTime, c: CalendarHour) -> bool {
    t.year > c.year || (t.year == c.year && (t.month > c.month || (t.month == c.month && (t.day > c.day || (
    t.day == c.day && (t.hour > c.hour || (t.hour == c.hour && (t.minute > 0 || t.second > 0 || t.nanosecond
        > 0))))))))
}

/// Whether a time comes before the start of a calendar hour.
pub open spec fn earlier_than(t: UtcTime, c: CalendarHour) -> bool {
    t.year < c.year || (t.year == c.year && (t.month < c.month || (t.month == c.month && (t.day < c.day || (
    t.day == c.day && t.hour < c.hour)))))
}

fn is_later_than(t: UtcTime, c: CalendarHour) -> (r: bool)
    ensures
        r == later_than(t, c),
{
    t.year > c.year || (t.year == c.year && (t.month > c.month || (t.month == c.month && (t.day > c.day || (
    t.day == c.day && (t.hour > c.hour || (t.hour == c.hour && (t.minute > 0 || t.second > 0 || t.nanosecond
        > 0))))))))
}

fn is_earlier_than(t: UtcTime, c: CalendarHour) -> (r: bool)
    ensures
        r == earlier_than(t, c),
{
    t.year < c.year || (t.year == c.year && (t.month < c.month || (t.month == c.month && (t.day < c.day || (
    t.day == c.day && t.hour < c.hour)))))
}

/// What follows saving a birthday.
#[derive(Debug)]
pub struct BirthdayAdded {
    /// The reply.
    pub message: String,
    /// When the birthday ends: a day after it starts.
    pub ends: CalendarHour,
    /// Where the birthday is going on now and the server has a birthday
    /// role: the stored end of the ongoing birthday, and the role to give.
    pub ongoing: Option<(BirthdayDateTime, u64)>,
}

/// What follows saving the birthday of a user that starts at `start`, given
/// how many rows saving changed, the birthday role of the server, and the
/// time now: nothing changed only where an unprivileged user had saved a
/// birthday already.
pub fn birthday_added(user_id: u64, rows_changed: usize, role_id: Option<u64>, start: CalendarHour, now: UtcTime) -> (r: BirthdayAdded)
    requires
        valid_calendar_hour(start),
        in_moving_range(start),
    ensures
        valid_calendar_hour(r.ends),
        hour_number(r.ends) == hour_number(start) + 24,
        r.message@ == (if rows_changed == 0 {
            "You already set your birthday. Please ask a mod to override it if you need to."@
        } else {
            decimal(user_id as nat) + (if role_id is Some {
                "'s birthday has been saved."@
            } else {
                "'s birthday has been saved, but this server doesn't have a birthday role. Please ask a staff member to set one."@
            })
        }),
        r.ongoing == (if rows_changed > 0 && role_id is Some && later_than(now, start) && earlier_than(now, r.ends) {
            Some((BirthdayDateTime { month: r.ends.month, day: r.ends.day, hour: r.ends.hour }, role_id->0))
        } else {
            None
        }),
{
    let ends = shift_hours(start, 24);
    if rows_changed == 0 {
        let message = String::from_str("You already set your birthday. Please ask a mod to override it if you need to.");
        return BirthdayAdded { message, ends, ongoing: None };
    }
    let message = birthday_saved_message(user_id, role_id.is_some());
    let ongoing = match role_id {
        Some(role) => if is_later_than(now, start) && is_earlier_than(now, ends) {
            Some((ends.to_birthday_date_time(), role))
        } else {
            None
        },
        None => None,
    };
    BirthdayAdded { message, ends, ongoing }
}

/// Whether one stored time comes before another: by month, then day, then
/// hour, the order of their stored text.
pub open spec fn stored_before(a: BirthdayDateTime, b: BirthdayDateTime) -> bool {
    a.month < b.month || (a.month == b.month && (a.day < b.day || (a.day == b.day && a.hour < b.hour)))
}

fn is_stored_before(a: BirthdayDateTime, b: BirthdayDateTime) -> (r: bool)
    ensures
        r == stored_before(a, b),
{
    a.month < b.month || (a.month == b.month && (a.day < b.day || (a.day == b.day && a.hour < b.hour)))
}

/// The stored times that decide which birthday roles are given and taken,
/// looking an hour ahead of now.
#[derive(Clone, Copy, Debug)]
pub struct RoleUpdateWindow {
    /// An hour from now.
    pub current: CalendarHour,
    /// Twenty-five hours before `current`.
    pub earliest: CalendarHour,
    /// Whether both lie in one year: `current` is not on the first of
    /// January.
    pub same_year: bool,
}

impl RoleUpdateWindow {
    /// The window for the hour `now` is in.
    pub fn new(now: UtcTime) -> (r: RoleUpdateWindow)
        requires
            valid_date(now.year as int, now.month as int, now.day as int),
            now.hour < 24,
            -99_999 <= now.year <= 99_999,
        ensures
            valid_calendar_hour(r.current),
            valid_calendar_hour(r.earliest),
            hour_number(r.current) == hour_number(
                CalendarHour { year: now.year, month: now.month, day: now.day, hour: now.hour },
            ) + 1,
            hour_number(r.earliest) == hour_number(r.current) - 25,
            r.same_year == within_one_year_spec(r.current.month, r.current.day),
    {
        let at = CalendarHour { year: now.year, month: now.month, day: now.day, hour: now.hour };
        let current = shift_hours(at, 1);
        proof {
            lemma_moved_year(at, current, 1);
        }
        let earliest = shift_hours(current, -25);
        RoleUpdateWindow { current, earliest, same_year: within_one_year(current.month, current.day) }
    }

    /// Whether a stored birthday starts within the day before `current`:
    /// between `earliest` and `current`, or, across the turn of a year,
    /// after `earliest` or before `current`.
    pub fn starts_within(&self, b: BirthdayDateTime) -> (r: bool)
        ensures
            r == (if self.same_year {
                stored_before(b, self.current.to_stored()) && stored_before(self.earliest.to_stored(), b)
            } else {
                stored_before(b, self.current.to_stored()) || stored_before(self.earliest.to_stored(), b)
            }),
    {
        let current = self.current.to_birthday_date_time();
        let earliest = self.earliest.to_birthday_date_time();
        if self.same_year {
            is_stored_before(b, current) && is_stored_before(earliest, b)
        } else {
            is_stored_before(b, current) || is_stored_before(earliest, b)
        }
    }

    /// Whether an ongoing birthday that ends at `over` is over: it ends
    /// before `current`.
    pub fn has_ended(&self, over: BirthdayDateTime) -> (r: bool)
        ensures
            r == stored_before(over, self.current.to_stored()),
    {
        is_stored_before(over, self.current.to_birthday_date_time())
    }
}

impl CalendarHour {
    /// The stored form of the hour, in specifications.
    pub open spec fn to_stored(self) -> BirthdayDateTime {
        BirthdayDateTime { month: self.month, day: self.day, hour: self.hour }
    }
}

/// Whether a day is any but the first of January.
pub open spec fn within_one_year_spec(month: u32, day: u32) -> bool {
    month != 1 || day != 1
}

proof fn lemma_year_length(y: int)
    ensures
        days_before_year(y + 1) - days_before_year(y) == (if is_leap_year(y) { 366int } else { 365int }),
{
    let x = y - 1;
    assert(y / 4 - x / 4 == (if y % 4 == 0 { 1int } else { 0int }));
    assert(y / 100 - x / 100 == (if y % 100 == 0 { 1int } else { 0int }));
    assert(y / 400 - x / 400 == (if y % 400 == 0 { 1int } else { 0int }));
}

proof fn lemma_days_before_year_grow(y: int, z: int)
    requires
        y <= z,
    ensures
        days_before_year(z) - days_before_year(y) >= 365 * (z - y),
    decreases z - y,
{
    if y < z {
        lemma_days_before_year_grow(y, z - 1);
        lemma_year_length(z - 1);
    }
}

proof fn lemma_days_before_month_bounds(y: int, m: int)
    requires
        1 <= m <= 12,
    ensures
        0 <= days_before_month(y, m),
        days_before_month(y, m) + days_in_month(y, m) <= (if is_leap_year(y) { 366int } else { 365int }),
{
    reveal_with_fuel(days_before_month, 13);
}

proof fn lemma_hour_number_in_year(c: CalendarHour)
    requires
        valid_calendar_hour(c),
    ensures
        days_before_year(c.year as int) * 24 <= hour_number(c) < days_before_year(c.year + 1) * 24,
{
    lemma_days_before_month_bounds(c.year as int, c.month as int);
    lemma_year_length(c.year as int);
}

proof fn lemma_moved_year(a: CalendarHour, b: CalendarHour, hours: int)
    requires
        valid_calendar_hour(a),
        valid_calendar_hour(b),
        hour_number(b) == hour_number(a) + hours,
        0 <= hours <= 24,
        -99_999 <= a.year <= 99_999,
    ensures
        in_moving_range(b),
{
    lemma_hour_number_in_year(a);
    lemma_hour_number_in_year(b);
    if b.year > a.year + 1 {
        lemma_days_before_year_grow(a.year + 1, b.year as int);
        lemma_year_length(a.year as int);
    }
    if b.year < a.year {
        lemma_days_before_year_grow(b.year + 1, a.year as int);
    }
}

/// Whether the birthdays starting in the day before `(month, day)` can be
/// found between two stored times of the same year: every day but the first
/// of January.
pub fn within_one_year(month: u32, day: u32) -> (r: bool)
    ensures
        r == (month != 1 || day != 1),
{
    month != 1 || day != 1
}

} // verus!

verus! {

/// A number written with two digits is made of digits and reads back.
pub proof fn lemma_two_digits(n: nat)
    ensures
        all_digits(two_digits(n)),
        two_digits(n).len() >= 1,
        digits_value(two_digits(n)) == n,
{
    crate::text::lemma_decimal_roundtrip(n);
    if n < 10 {
        crate::text::lemma_leading_zero_value(decimal(n));
        let t = seq!['0'] + decimal(n);
        assert forall|i: int| 0 <= i < t.len() implies crate::text::is_digit(#[trigger] t[i]) by {
            if i > 0 {
                assert(t[i] == decimal(n)[i - 1]);
            }
        }
    }
}

proof fn lemma_first_dash(a: Seq<char>, rest: Seq<char>, k: int)
    requires
        all_digits(a),
        0 <= k <= a.len(),
    ensures
        first_dash_from(a + seq!['-'] + rest, k) == a.len(),
    decreases a.len() - k,
{
    let s = a + seq!['-'] + rest;
    if k < a.len() {
        assert(s[k] == a[k]);
        assert(crate::text::is_digit(a[k]));
        lemma_first_dash(a, rest, k + 1);
    } else {
        assert(s[k] == '-');
    }
}

/// What is stored for a birthday reads back as that birthday: the stored
/// text has the form that [`BirthdayDateTime::column_result`] reads, and
/// its three numbers are the month, the day and the hour.
pub proof fn lemma_sql_roundtrip(b: BirthdayDateTime)
    ensures
        ({
            let text = two_digits(b.month as nat) + "-"@ + two_digits(b.day as nat) + "-"@ + two_digits(b.hour as nat);
            &&& sql_parts_fit(text)
            &&& sql_parts(text) matches Some(p) && digits_value(p.0) == b.month && digits_value(p.1) == b.day
                && digits_value(p.2) == b.hour
        }),
{
    reveal_strlit("-");
    let m = two_digits(b.month as nat);
    let d = two_digits(b.day as nat);
    let h = two_digits(b.hour as nat);
    lemma_two_digits(b.month as nat);
    lemma_two_digits(b.day as nat);
    lemma_two_digits(b.hour as nat);
    let text = m + "-"@ + d + "-"@ + h;
    let tail = d + seq!['-'] + h;
    assert(text =~= m + seq!['-'] + tail);
    lemma_first_dash(m, tail, 0);
    let i = m.len() as int;
    let rest = text.skip(i + 1);
    assert(rest =~= tail);
    lemma_first_dash(d, h, 0);
    let j = d.len() as int;
    assert(text.take(i) =~= m);
    assert(rest.take(j) =~= d);
    assert(rest.skip(j + 1) =~= h);
    assert(sql_parts(text) == Some((m, d, h)));
}

} // verus!

verus! {

/// The day after a birthday is a day of a month from January to
/// December.
pub proof fn lemma_one_day_ahead_in_year(b: BirthdayDateTime)
    requires
        1 <= b.month < 12,
    ensures
        1 <= spec_one_day_ahead(b).month <= 12,
        spec_one_day_ahead(b).day >= 1,
        spec_one_day_ahead(b).hour == b.hour,
{
}

} // verus!

verus! {

broadcast use vstd::std_specs::hash::group_hash_axioms;

/// A birthday waiting to be confirmed.
#[derive(Clone, Copy, Debug, PartialEq, Eq, Structural)]
pub struct PendingBirthday {
    pub user_id: u64,
    pub month: u32,
    pub day: u32,
    pub time_zone: i64,
    pub is_privileged: bool,
}

/// The birthdays waiting to be confirmed, by the user who asked.
pub struct BirthdayConfirmations {
    pending: std::collections::HashMap<u64, PendingBirthday>,
}

/// The reply where a birthday is confirmed that nobody asked to set.
pub open spec fn set_first_message(prefix: Seq<char>) -> Seq<char> {
    "Set your birthday first with "@ + prefix + "setmybirthday if you're setting your own birthday or with "@
        + prefix + "setuserbirthday if you're setting someone else's birthday."@
}

impl BirthdayConfirmations {
    /// The birthday each user asked to set.
    pub closed spec fn pending(&self) -> Map<u64, PendingBirthday> {
        self.pending@
    }

    /// Nothing waits.
    pub fn new() -> (r: Self)
        ensures
            r.pending() == Map::<u64, PendingBirthday>::empty(),
    {
        BirthdayConfirmations { pending: std::collections::HashMap::new() }
    }

    /// A user asks to set a birthday: it waits in place of any they asked
    /// before; whether one was replaced (its expiry is to be cancelled).
    pub fn ask(&mut self, author_id: u64, info: PendingBirthday) -> (replaced: bool)
        ensures
            final(self).pending() == old(self).pending().insert(author_id, info),
            replaced == old(self).pending().contains_key(author_id),
    {
        self.pending.insert(author_id, info).is_some()
    }

    /// The request of a user expires: it no longer waits, and the reply
    /// says so.
    pub fn expire(&mut self, author_id: u64) -> (r: &'static str)
        ensures
            final(self).pending() == old(self).pending().remove(author_id),
            r@ == "Add birthday request expired."@,
    {
        self.pending.remove(&author_id);
        "Add birthday request expired."
    }

    /// A user confirms: the birthday they asked to set, which stays until
    /// they ask again or it expires; else the reply telling them to set one
    /// first.
    pub fn confirm(&self, author_id: u64, prefix: &str) -> (r: Result<PendingBirthday, String>)
        ensures
            match r {
                Ok(info) => self.pending().contains_key(author_id) && info == self.pending()[author_id],
                Err(m) => !self.pending().contains_key(author_id) && m@ == set_first_message(prefix@),
            },
    {
        match self.pending.get(&author_id) {
            Some(info) => Ok(*info),
            None => {
                let mut m = String::from_str("Set your birthday first with ");
                push_str(&mut m, prefix);
                push_str(&mut m, "setmybirthday if you're setting your own birthday or with ");
                push_str(&mut m, prefix);
                push_str(&mut m, "setuserbirthday if you're setting someone else's birthday.");
                Err(m)
            },
        }
    }
}

/// What the birthday role commands answer.
#[derive(Clone, Copy, Debug, PartialEq, Eq, Structural)]
pub enum BirthdayRoleReply {
    RoleSet,
    /// The role the server has.
    Current(u64),
    /// The server has no birthday role.
    NoRole,
    Removed,
}

impl BirthdayRoleReply {
    /// The text of the reply.
    pub fn text(&self) -> (r: String)
        ensures
            r@ == match *self {
                BirthdayRoleReply::RoleSet => "The server's birthday role has been set."@,
                BirthdayRoleReply::Current(id) => "The server's current birthday role is "@ + decimal(id as nat),
                BirthdayRoleReply::NoRole => "This server has no birthday role currently."@,
                BirthdayRoleReply::Removed => "The server's birthday role has been removed."@,
            },
    {
        match self {
            BirthdayRoleReply::RoleSet => String::from_str("The server's birthday role has been set."),
            BirthdayRoleReply::Current(id) => {
                let mut m = String::from_str("The server's current birthday role is ");
                push_decimal(&mut m, *id);
                m
            },
            BirthdayRoleReply::NoRole => String::from_str("This server has no birthday role currently."),
            BirthdayRoleReply::Removed => String::from_str("The server's birthday role has been removed."),
        }
    }
}

} // verus!

verus! {

/// Where a time falls within its year, as one number that orders times as
/// the calendar does (months of at most 31 days, leap seconds included).
pub open spec fn instant_in_year(month: int, day: int, hour: int, minute: int, second: int, nanosecond: int) -> int {
    nanosecond + second * 2_000_000_000 + minute * 120_000_000_000 + hour * 7_200_000_000_000 + day
        * 172_800_000_000_000 + month * 5_529_600_000_000_000
}

/// The next birthday starts this year exactly where this year's start, on
/// the hour, is not before now, and otherwise next year: the first of the
/// two years in which it has not yet passed.
pub proof fn lemma_next_birthday_not_passed(b: BirthdayDateTime, now: UtcTime)
    requires
        1 <= b.day <= 31,
        b.hour < 24,
        1 <= now.day <= 31,
        now.hour < 24,
        now.minute < 60,
        now.second < 60,
        now.nanosecond < 2_000_000_000,
    ensures
        next_birthday_year(b, now) == now.year || next_birthday_year(b, now) == now.year + 1,
        next_birthday_year(b, now) == now.year <==> instant_in_year(
            b.month as int,
            b.day as int,
            b.hour as int,
            0,
            0,
            0,
        ) >= instant_in_year(
            now.month as int,
            now.day as int,
            now.hour as int,
            now.minute as int,
            now.second as int,
            now.nanosecond as int,
        ),
{
}

} // verus!
