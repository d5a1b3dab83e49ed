//! Parsing of command arguments: the errors a bad argument gives, the
//! decisions taken on a numeric argument, mention parsing, and the replies
//! sent for bad arguments.
use vstd::prelude::*;
use vstd::string::StringExecFns;
use crate::text::{
    all_digits, chars_of, decimal, digits_value, i64_to_string, parse_i64, parse_u64, push_decimal,
    push_signed_decimal, push_str, signed_decimal, spec_parse_i64, spec_parse_u64,
};

verus! {

/// A bad choice among the options of an argument.
#[derive(Debug, Clone)]
pub struct BadOptionError {
    pub arg_pos: usize,
    pub provided_choice: String,
    pub choices: String,
}

impl BadOptionError {
    pub fn new(arg_pos: usize, provided_choice: String, choices: String) -> (r: Self)
        ensures
            r.arg_pos == arg_pos,
            r.provided_choice == provided_choice,
            r.choices == choices,
    {
        Self { arg_pos, provided_choice, choices }
    }

    /// What the error says.
    pub fn message(&self) -> (r: String)
        ensures
            r@ == "Invalid choice in argument #"@ + decimal(self.arg_pos as nat) + ". Choices are "@
                + self.choices@ + ". The argument provided was "@ + self.provided_choice@,
    {
        let mut s = String::from_str("Invalid choice in argument #");
        push_decimal(&mut s, self.arg_pos as u64);
        push_str(&mut s, ". Choices are ");
        push_str(&mut s, self.choices.as_str());
        push_str(&mut s, ". The argument provided was ");
        push_str(&mut s, self.provided_choice.as_str());
        s
    }
}

/// Fewer arguments than a command needs.
#[derive(Debug, Copy, Clone, PartialEq, Eq, Structural)]
pub struct NotEnoughArgumentsError {
    pub min_args: usize,
    pub args_provided: usize,
}

impl NotEnoughArgumentsError {
    pub fn new(min_args: usize, args_provided: usize) -> (r: Self)
        ensures
            r.min_args == min_args,
            r.args_provided == args_provided,
    {
        Self { min_args, args_provided }
    }

    /// What the error says.
    pub fn message(&self) -> (r: String)
        ensures
            r@ == "Not enough arguments provided. At least "@ + decimal(self.min_args as nat)
                + " arg(s) is/are needed. "@ + decimal(self.args_provided as nat) + " was/were provided."@,
    {
        let mut s = String::from_str("Not enough arguments provided. At least ");
        push_decimal(&mut s, self.min_args as u64);
        push_str(&mut s, " arg(s) is/are needed. ");
        push_decimal(&mut s, self.args_provided as u64);
        push_str(&mut s, " was/were provided.");
        s
    }
}

/// A number outside the inclusive range of its argument.
#[derive(Debug, Copy, Clone, PartialEq, Eq, Structural)]
pub struct ArgumentOutOfBoundsError {
    pub lower: i64,
    pub upper: i64,
    pub arg: i64,
    pub arg_pos: usize,
}

impl ArgumentOutOfBoundsError {
    pub fn new(lower: i64, upper: i64, arg: i64, arg_pos: usize) -> (r: Self)
        ensures
            r.lower == lower,
            r.upper == upper,
            r.arg == arg,
            r.arg_pos == arg_pos,
    {
        Self { lower, upper, arg, arg_pos }
    }

    /// What the error says.
    pub fn message(&self) -> (r: String)
        ensures
            r@ == "Argument #"@ + decimal(self.arg_pos as nat)
                + " is out of bounds. The range (inclusive) for this argument is "@ + signed_decimal(
                self.lower as int,
            ) + " to "@ + signed_decimal(self.upper as int) + ". The number provided was "@ + signed_decimal(
                self.arg as int,
            ) + "."@,
    {
        let mut s = String::from_str("Argument #");
        push_decimal(&mut s, self.arg_pos as u64);
        push_str(&mut s, " is out of bounds. The range (inclusive) for this argument is ");
        push_signed_decimal(&mut s, self.lower);
        push_str(&mut s, " to ");
        push_signed_decimal(&mut s, self.upper);
        push_str(&mut s, ". The number provided was ");
        push_signed_decimal(&mut s, self.arg);
        push_str(&mut s, ".");
        s
    }
}

/// What an argument should have been converted to.
#[derive(Debug, Copy, Clone, PartialEq, Eq, Structural)]
pub enum ConversionType {
    Number,
    Member,
    Role,
    NonSelfMember,
}

impl ConversionType {
    /// The name of the conversion.
    pub fn name(&self) -> (r: &'static str)
        ensures
            r@ == match self {
                ConversionType::Number => "Number"@,
                ConversionType::Member => "Member"@,
                ConversionType::Role => "Role"@,
                ConversionType::NonSelfMember => "NonSelfMember"@,
            },
    {
        match self {
            ConversionType::Number => "Number",
            ConversionType::Member => "Member",
            ConversionType::Role => "Role",
            ConversionType::NonSelfMember => "NonSelfMember",
        }
    }
}

/// An argument that could not be converted.
#[derive(Debug, Clone)]
pub struct ArgumentConversionError {
    pub arg_pos: usize,
    pub arg: String,
    pub conversion_type: ConversionType,
}

impl ArgumentConversionError {
    pub fn new(arg_pos: usize, arg: String, conversion_type: ConversionType) -> (r: Self)
        ensures
            r.arg_pos == arg_pos,
            r.arg == arg,
            r.conversion_type == conversion_type,
    {
        Self { arg_pos, arg, conversion_type }
    }
}

/// Why an argument could not be parsed.
#[derive(Debug)]
pub enum ArgumentParseError {
    OutOfBounds(ArgumentOutOfBoundsError),
    NotEnoughArguments(NotEnoughArgumentsError),
    ArgumentConversionError(ArgumentConversionError),
    BadOption(BadOptionError),
}

impl From<ArgumentOutOfBoundsError> for ArgumentParseError {
    fn from(e: ArgumentOutOfBoundsError) -> (r: Self) {
        ArgumentParseError::OutOfBounds(e)
    }
}

impl vstd::std_specs::convert::FromSpecImpl<ArgumentOutOfBoundsError> for ArgumentParseError {
    open spec fn obeys_from_spec() -> bool {
        true
    }

    open spec fn from_spec(e: ArgumentOutOfBoundsError) -> Self {
        ArgumentParseError::OutOfBounds(e)
    }
}

impl From<NotEnoughArgumentsError> for ArgumentParseError {
    fn from(e: NotEnoughArgumentsError) -> (r: Self) {
        ArgumentParseError::NotEnoughArguments(e)
    }
}

impl vstd::std_specs::convert::FromSpecImpl<NotEnoughArgumentsError> for ArgumentParseError {
    open spec fn obeys_from_spec() -> bool {
        true
    }

    open spec fn from_spec(e: NotEnoughArgumentsError) -> Self {
        ArgumentParseError::NotEnoughArguments(e)
    }
}

impl From<ArgumentConversionError> for ArgumentParseError {
    fn from(e: ArgumentConversionError) -> (r: Self) {
        ArgumentParseError::ArgumentConversionError(e)
    }
}

impl vstd::std_specs::convert::FromSpecImpl<ArgumentConversionError> for ArgumentParseError {
    open spec fn obeys_from_spec() -> bool {
        true
    }

    open spec fn from_spec(e: ArgumentConversionError) -> Self {
        ArgumentParseError::ArgumentConversionError(e)
    }
}

impl From<BadOptionError> for ArgumentParseError {
    fn from(e: BadOptionError) -> (r: Self) {
        ArgumentParseError::BadOption(e)
    }
}

impl vstd::std_specs::convert::FromSpecImpl<BadOptionError> for ArgumentParseError {
    open spec fn obeys_from_spec() -> bool {
        true
    }

    open spec fn from_spec(e: BadOptionError) -> Self {
        ArgumentParseError::BadOption(e)
    }
}

/// The reply sent when fewer arguments were given than needed.
pub fn not_enough_arguments(arg_count: usize, args_needed: usize) -> (r: String)
    ensures
        r@ == "Invalid number of arguments provided. "@ + decimal(args_needed as nat) + " argument"@ + (if args_needed
            == 1 {
            " is"@
        } else {
            "s are"@
        }) + " needed. "@ + decimal(arg_count as nat) + " argument"@ + (if arg_count == 1 {
            " was"@
        } else {
            "s were"@
        }) + " provided."@,
{
    let mut s = String::from_str("Invalid number of arguments provided. ");
    push_decimal(&mut s, args_needed as u64);
    push_str(&mut s, " argument");
    push_str(&mut s, if args_needed == 1 { " is" } else { "s are" });
    push_str(&mut s, " needed. ");
    push_decimal(&mut s, arg_count as u64);
    push_str(&mut s, " argument");
    push_str(&mut s, if arg_count == 1 { " was" } else { "s were" });
    push_str(&mut s, " provided.");
    s
}

/// The reply sent when an argument is not a number within its range.
pub fn check_within_range(arg: &str, arg_pos: usize, start: i64, end: i64) -> (r: String)
    ensures
        r@ == "Invalid argument #"@ + decimal(arg_pos as nat) + " provided. The range should be within "@
            + signed_decimal(start as int) + " and "@ + signed_decimal(end as int)
            + " (inclusive). The argument given was "@ + arg@ + "."@,
{
    let mut s = String::from_str("Invalid argument #");
    push_decimal(&mut s, arg_pos as u64);
    push_str(&mut s, " provided. The range should be within ");
    push_signed_decimal(&mut s, start);
    push_str(&mut s, " and ");
    push_signed_decimal(&mut s, end);
    push_str(&mut s, " (inclusive). The argument given was ");
    push_str(&mut s, arg);
    push_str(&mut s, ".");
    s
}

/// What reading the next argument as a number gave.
#[derive(Debug, Clone)]
pub enum NumberRead {
    /// The argument is this number.
    Number(i64),
    /// There are no arguments left.
    EndOfArguments,
    /// The argument, which is not a number.
    NotANumber(String),
}

/// Whether `read` can be decided on at argument position `arg_pos`: the
/// count of arguments given before it is one less than its position.
pub open spec fn bounded_read_ok(read: NumberRead, arg_pos: usize) -> bool {
    read is EndOfArguments ==> arg_pos >= 1
}

/// Reads the next argument, where there is one, as a number the way
/// `str::parse::<i64>` does.
pub fn read_number(arg: Option<&str>) -> (r: NumberRead)
    ensures
        match arg {
            None => r == NumberRead::EndOfArguments,
            Some(a) => match spec_parse_i64(a@) {
                Some(n) => r == NumberRead::Number(n),
                None => r matches NumberRead::NotANumber(t) && t@ == a@,
            },
        },
{
    match arg {
        None => NumberRead::EndOfArguments,
        Some(a) => match parse_i64(a) {
            Some(n) => NumberRead::Number(n),
            None => NumberRead::NotANumber(a.to_string()),
        },
    }
}

/// The decision on a numeric argument at position `arg_pos` of a command
/// that needs `args_needed` arguments, bounded by `start` and `end`
/// inclusive.
pub fn parse_bounded_arg(read: NumberRead, arg_pos: usize, args_needed: usize, start: i64, end: i64) -> (r: Result<
    i64,
    ArgumentParseError,
>)
    requires
        bounded_read_ok(read, arg_pos),
    ensures
        match read {
            NumberRead::Number(n) => if n < start || n > end {
                r == Err::<i64, ArgumentParseError>(
                    ArgumentParseError::OutOfBounds(ArgumentOutOfBoundsError { lower: start, upper: end, arg: n, arg_pos }),
                )
            } else {
                r == Ok::<i64, ArgumentParseError>(n)
            },
            NumberRead::EndOfArguments => r == Err::<i64, ArgumentParseError>(
                ArgumentParseError::NotEnoughArguments(
                    NotEnoughArgumentsError { min_args: args_needed, args_provided: (arg_pos - 1) as usize },
                ),
            ),
            NumberRead::NotANumber(s) => r == Err::<i64, ArgumentParseError>(
                ArgumentParseError::ArgumentConversionError(
                    ArgumentConversionError { arg_pos, arg: s, conversion_type: ConversionType::Number },
                ),
            ),
        },
{
    match read {
        NumberRead::Number(n) => {
            if n < start || n > end {
                Err(ArgumentParseError::OutOfBounds(ArgumentOutOfBoundsError::new(start, end, n, arg_pos)))
            } else {
                Ok(n)
            }
        },
        NumberRead::EndOfArguments => Err(
            ArgumentParseError::NotEnoughArguments(NotEnoughArgumentsError::new(args_needed, arg_pos - 1)),
        ),
        NumberRead::NotANumber(s) => Err(
            ArgumentParseError::ArgumentConversionError(
                ArgumentConversionError::new(arg_pos, s, ConversionType::Number),
            ),
        ),
    }
}

/// The reply sent for a numeric argument: none where it is in range.
pub fn bounded_arg_reply(read: &NumberRead, arg_pos: usize, args_needed: usize, start: i64, end: i64) -> (r: Option<
    String,
>)
    requires
        bounded_read_ok(*read, arg_pos),
    ensures
        match *read {
            NumberRead::Number(n) => if n < start || n > end {
                r matches Some(m) && m@ == "Invalid argument #"@ + decimal(arg_pos as nat)
                    + " provided. The range should be within "@ + signed_decimal(start as int) + " and "@
                    + signed_decimal(end as int) + " (inclusive). The argument given was "@ + signed_decimal(
                    n as int,
                ) + "."@
            } else {
                r is None
            },
            NumberRead::EndOfArguments => r matches Some(m) && m@ == not_enough_arguments_text(
                (arg_pos - 1) as nat,
                args_needed as nat,
            ),
            NumberRead::NotANumber(s) => r matches Some(m) && m@ == "Invalid argument #"@ + decimal(arg_pos as nat)
                + " provided. The range should be within "@ + signed_decimal(start as int) + " and "@
                + signed_decimal(end as int) + " (inclusive). The argument given was "@ + s@ + "."@,
        },
{
    match read {
        NumberRead::Number(n) => {
            if *n < start || *n > end {
                let text = i64_to_string(*n);
                Some(check_within_range(text.as_str(), arg_pos, start, end))
            } else {
                None
            }
        },
        NumberRead::EndOfArguments => Some(not_enough_arguments(arg_pos - 1, args_needed)),
        NumberRead::NotANumber(s) => Some(check_within_range(s.as_str(), arg_pos, start, end)),
    }
}

/// The reply for too few arguments, as [`not_enough_arguments`] builds it.
pub open spec fn not_enough_arguments_text(arg_count: nat, args_needed: nat) -> Seq<char> {
    "Invalid number of arguments provided. "@ + decimal(args_needed) + " argument"@ + (if args_needed == 1 {
        " is"@
    } else {
        "s are"@
    }) + " needed. "@ + decimal(arg_count) + " argument"@ + (if arg_count == 1 {
        " was"@
    } else {
        "s were"@
    }) + " provided."@
}

/// The ID written in a mention: `<` and `@`, then `prefix`, then at least
/// 17 decimal digits, then `>`.
pub open spec fn mention_digits(s: Seq<char>, prefix: Seq<char>) -> Option<Seq<char>> {
    if s.len() >= 3 && s[0] == '<' && s[1] == '@' && s.last() == '>' {
        let inner = s.subrange(2, s.len() - 1);
        if inner.len() >= prefix.len() && inner.take(prefix.len() as int) == prefix {
            let digits = inner.skip(prefix.len() as int);
            if digits.len() >= 17 && all_digits(digits) {
                Some(digits)
            } else {
                None
            }
        } else {
            None
        }
    } else {
        None
    }
}

/// The digits of a user mention, written `<@ID>` or `<@!ID>`.
pub open spec fn user_mention_digits(s: Seq<char>) -> Option<Seq<char>> {
    match mention_digits(s, seq!['!']) {
        Some(d) => Some(d),
        None => mention_digits(s, seq![]),
    }
}

/// The digits of a role mention, written `<@&ID>`.
pub open spec fn role_mention_digits(s: Seq<char>) -> Option<Seq<char>> {
    mention_digits(s, seq!['&'])
}

/// Whether the digits of a mention, where there are any, fit in a `u64`.
pub open spec fn mention_fits(digits: Option<Seq<char>>) -> bool {
    digits matches Some(d) ==> digits_value(d) <= u64::MAX
}

/// The ID that the digits of a mention write.
pub open spec fn mention_id(digits: Option<Seq<char>>) -> Option<u64> {
    match digits {
        Some(d) => Some(digits_value(d) as u64),
        None => None,
    }
}

/// Reads the mention that `cs` writes with the given prefix after `<@`.
fn parse_mention(cs: &Vec<char>, prefix: Option<char>) -> (r: Option<u64>)
    requires
        mention_fits(mention_digits(cs@, if prefix is Some { seq![prefix->0] } else { seq![] })),
    ensures
        r == mention_id(mention_digits(cs@, if prefix is Some { seq![prefix->0] } else { seq![] })),
{
    let ghost p: Seq<char> = if prefix is Some { seq![prefix->0] } else { seq![] };
    let n = cs.len();
    if n < 3 || cs[0] != '<' || cs[1] != '@' || cs[n - 1] != '>' {
        return None;
    }
    let ghost inner = cs@.subrange(2, n - 1);
    let mut start: usize = 2;
    match prefix {
        Some(c) => {
            if n - 1 < 3 || cs[2] != c {
                proof {
                    if inner.len() >= 1 {
                        assert(inner.take(1)[0] == cs@[2]);
                    }
                }
                return None;
            }
            start = 3;
            assert(inner.take(1) =~= p);
        },
        None => {
            assert(inner.take(0) =~= p);
        },
    }
    let rest = cs.as_slice().split_at(start).1;
    let digits = rest.split_at(n - 1 - start).0;
    assert(digits@ =~= inner.skip(p.len() as int));
    if digits.len() < 17 {
        return None;
    }
    if !crate::text::all_ascii_digits(digits) {
        return None;
    }
    assert(all_digits(digits@));
    assert(digits@[0] != '+');
    parse_u64(digits)
}

/// Reads a user mention, `<@ID>` or `<@!ID>`, to its ID.
pub fn parse_user_mention(arg: &str) -> (r: Option<u64>)
    requires
        mention_fits(user_mention_digits(arg@)),
    ensures
        r == mention_id(user_mention_digits(arg@)),
{
    let cs = chars_of(arg);
    assert(seq!['!'] =~= (if Some('!') is Some { seq![Some('!')->0] } else { seq![] }));
    match parse_mention(&cs, Some('!')) {
        Some(id) => Some(id),
        None => {
            assert(Seq::<char>::empty() =~= (if None::<char> is Some { seq![None::<char>->0] } else { seq![] }));
            parse_mention(&cs, None)
        },
    }
}

/// Reads a role mention, `<@&ID>`, to its ID.
pub fn parse_role_mention(arg: &str) -> (r: Option<u64>)
    requires
        mention_fits(role_mention_digits(arg@)),
    ensures
        r == mention_id(role_mention_digits(arg@)),
{
    let cs = chars_of(arg);
    assert(seq!['&'] =~= (if Some('&') is Some { seq![Some('&')->0] } else { seq![] }));
    parse_mention(&cs, Some('&'))
}

/// The ID an argument names a member by: the argument as a number, else
/// as a user mention.
pub fn member_id_argument(arg: &str) -> (r: Option<u64>)
    requires
        mention_fits(user_mention_digits(arg@)),
    ensures
        r == (match spec_parse_u64(arg@) {
            Some(n) => Some(n),
            None => mention_id(user_mention_digits(arg@)),
        }),
{
    let cs = chars_of(arg);
    match parse_u64(cs.as_slice()) {
        Some(n) => Some(n),
        None => parse_user_mention(arg),
    }
}

/// The ID an argument names a role by: the argument as a number, else as a
/// role mention.
pub fn role_id_argument(arg: &str) -> (r: Option<u64>)
    requires
        mention_fits(role_mention_digits(arg@)),
    ensures
        r == (match spec_parse_u64(arg@) {
            Some(n) => Some(n),
            None => mention_id(role_mention_digits(arg@)),
        }),
{
    let cs = chars_of(arg);
    match parse_u64(cs.as_slice()) {
        Some(n) => Some(n),
        None => parse_role_mention(arg),
    }
}

/// The reply sent when no member was found for an argument.
pub fn member_not_found_message(arg_pos: usize) -> (r: String)
    ensures
        r@ == "Invalid argument #"@ + decimal(arg_pos as nat) + ". Could not find any user with that ID or tag."@,
{
    let mut s = String::from_str("Invalid argument #");
    push_decimal(&mut s, arg_pos as u64);
    push_str(&mut s, ". Could not find any user with that ID or tag.");
    s
}

/// The reply sent when no role was found for an argument.
pub fn role_not_found_message(arg_pos: usize) -> (r: String)
    ensures
        r@ == "Invalid argument #"@ + decimal(arg_pos as nat) + ". Could not find any role with that ID."@,
{
    let mut s = String::from_str("Invalid argument #");
    push_decimal(&mut s, arg_pos as u64);
    push_str(&mut s, ". Could not find any role with that ID.");
    s
}

/// The title of the reply sent when an argument is not one of its options.
pub fn bad_option_title(arg_pos: usize) -> (r: String)
    ensures
        r@ == "Invalid argument #"@ + decimal(arg_pos as nat) + ". Not one of the possible options."@,
{
    let mut s = String::from_str("Invalid argument #");
    push_decimal(&mut s, arg_pos as u64);
    push_str(&mut s, ". Not one of the possible options.");
    s
}

/// The options of an argument, each followed by a space.
pub open spec fn choices_text(choices: Seq<String>) -> Seq<char>
    decreases choices.len(),
{
    if choices.len() == 0 {
        seq![]
    } else {
        choices_text(choices.drop_last()) + choices.last()@ + " "@
    }
}

/// The options of an argument as listed in the reply and in the error.
pub fn bad_option_choices(choices: &Vec<String>) -> (r: String)
    ensures
        r@ == choices_text(choices@),
{
    let mut s = String::new();
    let mut i: usize = 0;
    while i < choices.len()
        invariant
            i <= choices@.len(),
            s@ == choices_text(choices@.take(i as int)),
        decreases choices@.len() - i,
    {
        push_str(&mut s, choices[i].as_str());
        push_str(&mut s, " ");
        proof {
            assert(choices@.take(i + 1).drop_last() =~= choices@.take(i as int));
        }
        i = i + 1;
    }
    proof {
        assert(choices@.take(i as int) =~= choices@);
    }
    s
}

} // verus!

verus! {

/// A mention written for an ID of at least 17 digits reads back as that
/// ID: `<@ID>` and `<@!ID>` as a user mention, `<@&ID>` as a role mention.
pub proof fn lemma_mention_roundtrip(id: u64)
    requires
        id >= 10_000_000_000_000_000u64,
    ensures
        mention_id(user_mention_digits(seq!['<', '@'] + decimal(id as nat) + seq!['>'])) == Some(id),
        mention_id(user_mention_digits(seq!['<', '@', '!'] + decimal(id as nat) + seq!['>'])) == Some(id),
        mention_id(role_mention_digits(seq!['<', '@', '&'] + decimal(id as nat) + seq!['>'])) == Some(id),
        mention_fits(user_mention_digits(seq!['<', '@'] + decimal(id as nat) + seq!['>'])),
        mention_fits(user_mention_digits(seq!['<', '@', '!'] + decimal(id as nat) + seq!['>'])),
        mention_fits(role_mention_digits(seq!['<', '@', '&'] + decimal(id as nat) + seq!['>'])),
{
    let d = decimal(id as nat);
    crate::text::lemma_decimal_roundtrip(id as nat);
    reveal_with_fuel(crate::text::pow10_nat, 17);
    crate::text::lemma_decimal_len(id as nat, 16);
    assert(crate::text::is_digit(d[0]));
    let s1 = seq!['<', '@'] + d + seq!['>'];
    assert(s1.subrange(2, s1.len() - 1) =~= d);
    assert(d.take(0) =~= Seq::<char>::empty());
    assert(d.skip(0) =~= d);
    assert(d.take(1)[0] != '!');
    assert(d.take(1) != seq!['!']);
    assert(mention_digits(s1, seq!['!']) is None);
    assert(mention_digits(s1, seq![]) == Some(d));
    let s2 = seq!['<', '@', '!'] + d + seq!['>'];
    let inner2 = s2.subrange(2, s2.len() - 1);
    assert(inner2 =~= seq!['!'] + d);
    assert(inner2.take(1) =~= seq!['!']);
    assert(inner2.skip(1) =~= d);
    assert(mention_digits(s2, seq!['!']) == Some(d));
    let s3 = seq!['<', '@', '&'] + d + seq!['>'];
    let inner3 = s3.subrange(2, s3.len() - 1);
    assert(inner3 =~= seq!['&'] + d);
    assert(inner3.take(1) =~= seq!['&']);
    assert(inner3.skip(1) =~= d);
    assert(mention_digits(s3, seq!['&']) == Some(d));
}

} // verus!
