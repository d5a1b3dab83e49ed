use burdbot::birthday::{
    birthday_added, birthday_insert_statement, birthday_saved_message, birthday_set_message, birthday_start,
    get_birthday, month_to_days, month_to_name, remove_birthday, within_one_year, BirthdayDateTime,
    BirthdayConfirmations, BirthdayLookup, BirthdayRoleReply, CalendarHour, PendingBirthday, RoleUpdateWindow, UtcTime,
};

fn now(year: i32, month: u32, day: u32, hour: u32, minute: u32) -> UtcTime {
    UtcTime { year, month, day, hour, minute, second: 0, nanosecond: 0 }
}

#[test]
fn stored_form() {
    let b = BirthdayDateTime::new(6, 5, 3);
    assert_eq!(b.to_sql(), "06-05-03");
    assert_eq!(BirthdayDateTime::new(12, 31, 23).to_sql(), "12-31-23");
    assert_eq!(BirthdayDateTime::column_result("06-05-03"), Some(b));
    assert_eq!(BirthdayDateTime::column_result("6-5-3"), Some(b));
    assert_eq!(BirthdayDateTime::column_result(&BirthdayDateTime::new(10, 16, 7).to_sql()), Some(BirthdayDateTime::new(10, 16, 7)));
    assert_eq!(BirthdayDateTime::column_result("06-05"), None);
    assert_eq!(BirthdayDateTime::column_result("06--05"), None);
    assert_eq!(BirthdayDateTime::column_result("a-b-c"), None);
    assert_eq!(BirthdayDateTime::column_result("06-05-03-"), None);
}

#[test]
fn day_after() {
    assert_eq!(BirthdayDateTime::new(1, 28, 5).one_day_ahead(), BirthdayDateTime::new(2, 1, 5));
    assert_eq!(BirthdayDateTime::new(1, 27, 5).one_day_ahead(), BirthdayDateTime::new(1, 28, 5));
    assert_eq!(BirthdayDateTime::new(3, 30, 0).one_day_ahead(), BirthdayDateTime::new(4, 1, 0));
    assert_eq!(BirthdayDateTime::new(11, 30, 9).one_day_ahead(), BirthdayDateTime::new(11, 31, 9));
    assert_eq!(BirthdayDateTime::new(11, 31, 9).one_day_ahead(), BirthdayDateTime::new(12, 1, 9));
}

#[test]
fn month_tables() {
    assert_eq!(month_to_days(1), 28);
    assert_eq!(month_to_days(8), 30);
    assert_eq!(month_to_days(11), 31);
    assert_eq!(month_to_name(0), "January");
    assert_eq!(month_to_name(11), "December");
}

#[test]
fn next_birthday() {
    let b = BirthdayDateTime::new(6, 10, 12);
    match get_birthday(42, Some(b), now(2024, 6, 10, 12, 0)) {
        BirthdayLookup::NextBirthday { year, month, day, hour, footer } => {
            assert_eq!((year, month, day, hour), (2024, 6, 10, 12));
            assert_eq!(footer, "42's next birthday will start at ");
        },
        _ => panic!("expected a birthday"),
    }
    match get_birthday(42, Some(b), now(2024, 6, 10, 12, 1)) {
        BirthdayLookup::NextBirthday { year, .. } => assert_eq!(year, 2025),
        _ => panic!("expected a birthday"),
    }
    match get_birthday(42, Some(BirthdayDateTime::new(2, 29, 0)), now(2024, 1, 1, 0, 0)) {
        BirthdayLookup::NextBirthday { year, .. } => assert_eq!(year, 2024),
        _ => panic!("expected a birthday"),
    }
    match get_birthday(7, None, now(2024, 1, 1, 0, 0)) {
        BirthdayLookup::NotFound(m) => assert_eq!(m, "No birthday found from the user 7"),
        _ => panic!("expected no birthday"),
    }
}

#[test]
fn removal_and_saving() {
    let r = remove_birthday(5, 2);
    assert!(r.look_up_role);
    assert_eq!(r.message, "5's birthday was removed.");
    let r = remove_birthday(5, 1);
    assert!(!r.look_up_role);
    assert_eq!(r.message, "5's birthday was removed.");
    let r = remove_birthday(5, 0);
    assert!(!r.look_up_role);
    assert_eq!(r.message, "No birthday was found for 5.");
    assert_eq!(birthday_saved_message(9, true), "9's birthday has been saved.");
    assert_eq!(
        birthday_saved_message(9, false),
        "9's birthday has been saved, but this server doesn't have a birthday role. Please ask a staff member to set one."
    );
    assert!(within_one_year(6, 15));
    assert!(!within_one_year(1, 1));
}

#[test]
fn confirmation_question() {
    assert_eq!(
        birthday_set_message(true, 367538590520967181, 10, 6, -7, "-"),
        "367538590520967181's birthday will be set as ``October 6``. They will get the birthday role for 24 hours starting at 0:00 UTC-7 of that day. Are you sure this is what you want? Type ``-birthdayconfirm`` to confirm this. This will expire in 30 seconds."
    );
    assert_eq!(
        birthday_set_message(false, 1, 1, 31, 0, "!"),
        "Your birthday will be set as ``January 31``. You will get the birthday role for 24 hours starting at 0:00 UTC+0 of that day. Are you sure this is what you want? You won't be able to change this again unless a moderator does it for you. Type ``!birthdayconfirm`` to confirm this. This will expire in 30 seconds."
    );
}

fn hour(year: i32, month: u32, day: u32, hour: u32) -> CalendarHour {
    CalendarHour { year, month, day, hour }
}

#[test]
fn privileged_users_replace_saved_birthdays() {
    assert_eq!(birthday_insert_statement(true), "INSERT OR REPLACE INTO bday VALUES (?, ?, ?);");
    assert_eq!(birthday_insert_statement(false), "INSERT OR IGNORE INTO bday VALUES (?, ?, ?);");
}

#[test]
fn birthdays_start_at_midnight_of_their_time_zone() {
    assert_eq!(birthday_start(10, 6, -7), hour(2021, 10, 6, 7));
    assert_eq!(birthday_start(10, 6, 7), hour(2021, 10, 5, 17));
    assert_eq!(birthday_start(1, 1, 5), hour(2020, 12, 31, 19));
    assert_eq!(birthday_start(3, 1, 14), hour(2021, 2, 28, 10));
    assert_eq!(birthday_start(12, 31, -11), hour(2021, 12, 31, 11));
    assert_eq!(birthday_start(6, 15, 0), hour(2021, 6, 15, 0));
}

#[test]
fn saving_twice_without_privilege_is_refused() {
    let added = birthday_added(7, 0, Some(9), hour(2021, 10, 6, 7), now(2021, 10, 6, 12, 0));
    assert_eq!(
        added.message,
        "You already set your birthday. Please ask a mod to override it if you need to."
    );
    assert!(added.ongoing.is_none());
}

#[test]
fn an_ongoing_birthday_gets_the_role_at_once() {
    let start = hour(2021, 10, 6, 7);
    let added = birthday_added(7, 1, Some(9), start, now(2021, 10, 6, 12, 0));
    assert_eq!(added.message, "7's birthday has been saved.");
    assert_eq!(added.ends, hour(2021, 10, 7, 7));
    let (row, role) = added.ongoing.unwrap();
    assert_eq!((row.month, row.day, row.hour, role), (10, 7, 7, 9));

    // not yet, or no longer, going on
    assert!(birthday_added(7, 1, Some(9), start, now(2021, 10, 6, 7, 0)).ongoing.is_none());
    assert!(birthday_added(7, 1, Some(9), start, now(2021, 10, 7, 7, 0)).ongoing.is_none());
    assert!(birthday_added(7, 1, Some(9), start, now(2021, 10, 7, 6, 59)).ongoing.is_some());
    // no birthday role on the server
    let added = birthday_added(7, 1, None, start, now(2021, 10, 6, 12, 0));
    assert!(added.ongoing.is_none());
    assert_eq!(
        added.message,
        "7's birthday has been saved, but this server doesn't have a birthday role. Please ask a staff member to set one."
    );
    // the end of a year
    assert_eq!(birthday_added(7, 1, None, hour(2020, 12, 31, 19), now(2021, 1, 1, 0, 0)).ends, hour(2021, 1, 1, 19));
}

#[test]
fn birthday_roles_look_an_hour_ahead() {
    let w = RoleUpdateWindow::new(now(2021, 6, 17, 10, 30));
    assert_eq!(w.current, hour(2021, 6, 17, 11));
    assert_eq!(w.earliest, hour(2021, 6, 16, 10));
    assert!(w.same_year);
    assert!(w.starts_within(BirthdayDateTime::new(6, 17, 4)));
    assert!(w.starts_within(BirthdayDateTime::new(6, 16, 11)));
    assert!(!w.starts_within(BirthdayDateTime::new(6, 16, 10)));
    assert!(!w.starts_within(BirthdayDateTime::new(6, 17, 11)));
    assert!(!w.starts_within(BirthdayDateTime::new(6, 15, 4)));
    assert!(w.has_ended(BirthdayDateTime::new(6, 17, 10)));
    assert!(!w.has_ended(BirthdayDateTime::new(6, 17, 11)));
}

#[test]
fn birthday_roles_across_the_turn_of_the_year() {
    let w = RoleUpdateWindow::new(now(2020, 12, 31, 23, 10));
    assert_eq!(w.current, hour(2021, 1, 1, 0));
    assert_eq!(w.earliest, hour(2020, 12, 30, 23));
    assert!(!w.same_year);
    assert!(w.starts_within(BirthdayDateTime::new(12, 31, 5)));
    assert!(!w.starts_within(BirthdayDateTime::new(1, 1, 0)));
    assert!(!w.starts_within(BirthdayDateTime::new(6, 1, 1)));
    assert!(!w.has_ended(BirthdayDateTime::new(1, 1, 0)));
}

#[test]
fn birthdays_wait_for_confirmation() {
    let mut waiting = BirthdayConfirmations::new();
    let info = PendingBirthday { user_id: 7, month: 10, day: 6, time_zone: -7, is_privileged: false };
    assert_eq!(
        waiting.confirm(7, "-").unwrap_err(),
        "Set your birthday first with -setmybirthday if you're setting your own birthday or with -setuserbirthday if you're setting someone else's birthday."
    );
    assert!(!waiting.ask(7, info));
    assert_eq!(waiting.confirm(7, "-"), Ok(info));
    // confirming leaves it waiting
    assert_eq!(waiting.confirm(7, "-"), Ok(info));
    let again = PendingBirthday { day: 7, ..info };
    assert!(waiting.ask(7, again));
    assert_eq!(waiting.confirm(7, "-"), Ok(again));
    assert_eq!(waiting.expire(7), "Add birthday request expired.");
    assert!(waiting.confirm(7, "-").is_err());
}

#[test]
fn birthday_role_replies() {
    assert_eq!(BirthdayRoleReply::RoleSet.text(), "The server's birthday role has been set.");
    assert_eq!(BirthdayRoleReply::Current(728359316498808895).text(), "The server's current birthday role is 728359316498808895");
    assert_eq!(BirthdayRoleReply::NoRole.text(), "This server has no birthday role currently.");
    assert_eq!(BirthdayRoleReply::Removed.text(), "The server's birthday role has been removed.");
}
