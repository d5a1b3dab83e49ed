use burdbot::argument_parser::{
    bad_option_choices, bad_option_title, member_id_argument, role_id_argument, bounded_arg_reply, check_within_range, member_not_found_message,
    not_enough_arguments, parse_bounded_arg, parse_role_mention, parse_user_mention, role_not_found_message,
    ArgumentConversionError, ArgumentOutOfBoundsError, ArgumentParseError, BadOptionError, ConversionType,
    NotEnoughArgumentsError, NumberRead, read_number,
};

#[test]
fn error_messages() {
    let bad = BadOptionError::new(2, "🇫🇷".to_string(), "🇦🇷 🇲🇽 ".to_string());
    assert_eq!(
        bad.message(),
        "Invalid choice in argument #2. Choices are 🇦🇷 🇲🇽 . The argument provided was 🇫🇷"
    );
    assert_eq!(
        NotEnoughArgumentsError::new(3, 1).message(),
        "Not enough arguments provided. At least 3 arg(s) is/are needed. 1 was/were provided."
    );
    assert_eq!(
        ArgumentOutOfBoundsError::new(-11, 14, -12, 3).message(),
        "Argument #3 is out of bounds. The range (inclusive) for this argument is -11 to 14. The number provided was -12."
    );
}

#[test]
fn conversion_names_and_from() {
    assert_eq!(ConversionType::Number.name(), "Number");
    assert_eq!(ConversionType::NonSelfMember.name(), "NonSelfMember");
    let e: ArgumentParseError = NotEnoughArgumentsError::new(1, 0).into();
    assert!(matches!(e, ArgumentParseError::NotEnoughArguments(NotEnoughArgumentsError { min_args: 1, args_provided: 0 })));
    let e: ArgumentParseError = ArgumentConversionError::new(1, "x".to_string(), ConversionType::Role).into();
    assert!(matches!(e, ArgumentParseError::ArgumentConversionError(ArgumentConversionError { arg_pos: 1, conversion_type: ConversionType::Role, .. })));
}

#[test]
fn reply_texts() {
    assert_eq!(
        not_enough_arguments(0, 1),
        "Invalid number of arguments provided. 1 argument is needed. 0 arguments were provided."
    );
    assert_eq!(
        not_enough_arguments(1, 3),
        "Invalid number of arguments provided. 3 arguments are needed. 1 argument was provided."
    );
    assert_eq!(
        check_within_range("13", 1, 1, 12),
        "Invalid argument #1 provided. The range should be within 1 and 12 (inclusive). The argument given was 13."
    );
    assert_eq!(member_not_found_message(1), "Invalid argument #1. Could not find any user with that ID or tag.");
    assert_eq!(role_not_found_message(2), "Invalid argument #2. Could not find any role with that ID.");
    assert_eq!(bad_option_title(2), "Invalid argument #2. Not one of the possible options.");
    assert_eq!(bad_option_choices(&vec!["a".to_string(), "b".to_string()]), "a b ");
    assert_eq!(bad_option_choices(&vec![]), "");
}

#[test]
fn bounded_argument_decisions() {
    assert!(matches!(parse_bounded_arg(NumberRead::Number(5), 1, 3, 1, 12), Ok(5)));
    assert!(matches!(
        parse_bounded_arg(NumberRead::Number(13), 1, 3, 1, 12),
        Err(ArgumentParseError::OutOfBounds(ArgumentOutOfBoundsError { lower: 1, upper: 12, arg: 13, arg_pos: 1 }))
    ));
    assert!(matches!(
        parse_bounded_arg(NumberRead::EndOfArguments, 2, 3, 1, 31),
        Err(ArgumentParseError::NotEnoughArguments(NotEnoughArgumentsError { min_args: 3, args_provided: 1 }))
    ));
    match parse_bounded_arg(NumberRead::NotANumber("abc".to_string()), 3, 3, -11, 14) {
        Err(ArgumentParseError::ArgumentConversionError(e)) => {
            assert_eq!(e.arg_pos, 3);
            assert_eq!(e.arg, "abc");
            assert_eq!(e.conversion_type, ConversionType::Number);
        },
        _ => panic!("expected a conversion error"),
    }
    assert_eq!(bounded_arg_reply(&NumberRead::Number(5), 1, 3, 1, 12), None);
    assert_eq!(
        bounded_arg_reply(&NumberRead::Number(-12), 3, 3, -11, 14).unwrap(),
        "Invalid argument #3 provided. The range should be within -11 and 14 (inclusive). The argument given was -12."
    );
    assert_eq!(
        bounded_arg_reply(&NumberRead::EndOfArguments, 2, 3, 1, 31).unwrap(),
        "Invalid number of arguments provided. 3 arguments are needed. 1 argument was provided."
    );
    assert_eq!(
        bounded_arg_reply(&NumberRead::NotANumber("x".to_string()), 1, 3, 1, 12).unwrap(),
        "Invalid argument #1 provided. The range should be within 1 and 12 (inclusive). The argument given was x."
    );
}

#[test]
fn mentions() {
    assert_eq!(parse_user_mention("<@367538590520967181>"), Some(367538590520967181));
    assert_eq!(parse_user_mention("<@!367538590520967181>"), Some(367538590520967181));
    assert_eq!(parse_user_mention("<@&367538590520967181>"), None);
    assert_eq!(parse_user_mention("<@1234567890123456>"), None);
    assert_eq!(parse_user_mention("<@36753859052096718a>"), None);
    assert_eq!(parse_user_mention(" <@367538590520967181>"), None);
    assert_eq!(parse_user_mention("<@367538590520967181"), None);
    assert_eq!(parse_user_mention("<@00000000000000000001>"), Some(1));
    assert_eq!(parse_role_mention("<@&728359316498808895>"), Some(728359316498808895));
    assert_eq!(parse_role_mention("<@728359316498808895>"), None);
}

#[test]
fn members_and_roles_are_named_by_id_or_mention() {
    assert_eq!(member_id_argument("367538590520967181"), Some(367538590520967181));
    assert_eq!(member_id_argument("+12"), Some(12));
    assert_eq!(member_id_argument("<@367538590520967181>"), Some(367538590520967181));
    assert_eq!(member_id_argument("<@!367538590520967181>"), Some(367538590520967181));
    assert_eq!(member_id_argument("<@&367538590520967181>"), None);
    assert_eq!(member_id_argument("DELIBURD#7741"), None);
    assert_eq!(role_id_argument("878223433899577364"), Some(878223433899577364));
    assert_eq!(role_id_argument("<@&878223433899577364>"), Some(878223433899577364));
    assert_eq!(role_id_argument("<@878223433899577364>"), None);
    assert_eq!(role_id_argument("-5"), None);
}

#[test]
fn reading_numbers_as_i64_parsing_does() {
    assert!(matches!(read_number(None), NumberRead::EndOfArguments));
    assert!(matches!(read_number(Some("42")), NumberRead::Number(42)));
    assert!(matches!(read_number(Some("+7")), NumberRead::Number(7)));
    assert!(matches!(read_number(Some("-15")), NumberRead::Number(-15)));
    assert!(matches!(read_number(Some("-0")), NumberRead::Number(0)));
    assert!(matches!(read_number(Some("9223372036854775807")), NumberRead::Number(i64::MAX)));
    assert!(matches!(read_number(Some("-9223372036854775808")), NumberRead::Number(i64::MIN)));
    for bad in ["9223372036854775808", "-9223372036854775809", "-", "+", "", "-+3", "+-3", "1.5", " 4", "abc", "٣"] {
        match read_number(Some(bad)) {
            NumberRead::NotANumber(s) => assert_eq!(s, bad),
            _ => panic!("{bad} is no number"),
        }
        assert!(bad.parse::<i64>().is_err());
    }
}
