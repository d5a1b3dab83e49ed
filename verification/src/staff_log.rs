//! Staff logs: numbered notes that staff keep on a member, each with a link
//! to the message that logged it and to the message that last edited it,
//! shown in an embed coloured after the member's ID.
use vstd::prelude::*;
use vstd::string::StringExecFns;
use crate::moderation::{field_view, fields_view, EmbedField};
use crate::text::{all_digits, chars_of, decimal, digits_value, is_digit, parse_u64, push_decimal, push_str, spec_parse_u64};

verus! {

/// The first millisecond of 2015 in Unix time, where Discord IDs count from.
pub const DISCORD_EPOCH_MS: u64 = 1420070400000;

/// A text without the slashes it ends with.
pub open spec fn without_trailing_slashes(s: Seq<char>) -> Seq<char>
    decreases s.len(),
{
    if s.len() > 0 && s.last() == '/' {
        without_trailing_slashes(s.drop_last())
    } else {
        s
    }
}

/// How many digits a text ends with.
pub open spec fn trailing_digit_count(s: Seq<char>) -> nat
    decreases s.len(),
{
    if s.len() > 0 && is_digit(s.last()) {
        trailing_digit_count(s.drop_last()) + 1
    } else {
        0
    }
}

/// The digits a message link ends with, before any trailing slashes: the
/// message ID.
pub open spec fn link_message_digits(link: Seq<char>) -> Seq<char> {
    let body = without_trailing_slashes(link);
    body.skip(body.len() - trailing_digit_count(body))
}

proof fn lemma_trailing_digits(s: Seq<char>)
    ensures
        trailing_digit_count(s) <= s.len(),
        all_digits(s.skip(s.len() - trailing_digit_count(s))),
    decreases s.len(),
{
    if s.len() > 0 && is_digit(s.last()) {
        lemma_trailing_digits(s.drop_last());
        let k = trailing_digit_count(s.drop_last());
        let d = s.drop_last().skip(s.len() - 1 - k);
        assert(s.skip(s.len() - trailing_digit_count(s)) =~= d.push(s.last()));
        assert forall|i: int| 0 <= i < d.len() + 1 implies is_digit(#[trigger] d.push(s.last())[i]) by {
            if i < d.len() {
                assert(d.push(s.last())[i] == d[i]);
            }
        }
    } else {
        assert(s.skip(s.len() as int) =~= Seq::<char>::empty());
    }
}

/// The ID of the message a message link leads to: the digits it ends with,
/// before any slashes. Links are plain ASCII.
pub fn message_id_from_link(link: &str) -> (r: u64)
    requires
        vstd::utf8::is_ascii_chars(link@),
        link_message_digits(link@).len() > 0,
        digits_value(link_message_digits(link@)) <= u64::MAX,
    ensures
        r == digits_value(link_message_digits(link@)),
{
    let cs = chars_of(link);
    let mut end: usize = cs.len();
    assert(cs@.take(cs@.len() as int) =~= cs@);
    while end > 0 && cs[end - 1] == '/'
        invariant
            end <= cs@.len(),
            without_trailing_slashes(cs@.take(end as int)) == without_trailing_slashes(cs@),
        decreases end,
    {
        assert(cs@.take(end as int).drop_last() =~= cs@.take(end - 1));
        end = end - 1;
    }
    let ghost body = cs@.take(end as int);
    assert(without_trailing_slashes(body) == body);
    let mut start: usize = end;
    assert(body.take(end as int) =~= body);
    while start > 0 && '0' <= cs[start - 1] && cs[start - 1] <= '9'
        invariant
            start <= end <= cs@.len(),
            body == cs@.take(end as int),
            trailing_digit_count(body) == trailing_digit_count(body.take(start as int)) + (end - start),
        decreases start,
    {
        assert(body.take(start as int).drop_last() =~= body.take(start - 1));
        start = start - 1;
    }
    assert(trailing_digit_count(body.take(start as int)) == 0);
    proof {
        lemma_trailing_digits(body);
    }
    let digits = vstd::slice::slice_subrange(cs.as_slice(), start, end);
    assert(digits@ =~= link_message_digits(link@));
    assert(all_digits(digits@));
    assert(is_digit(digits@[0]));
    assert(digits@[0] != '+');
    proof {
        crate::text::lemma_digits_value_nonneg(digits@);
    }
    match parse_u64(digits) {
        Some(n) => n,
        None => 0,
    }
}

/// When a Discord ID was made, in whole seconds of Unix time.
pub open spec fn spec_snowflake_seconds(id: u64) -> int {
    (((id as int) / 0x400000) + DISCORD_EPOCH_MS) / 1000
}

/// When a Discord ID was made, in whole seconds of Unix time: its top 42
/// bits count milliseconds from the Discord epoch.
pub fn snowflake_seconds(id: u64) -> (r: i64)
    ensures
        r == spec_snowflake_seconds(id),
{
    assert((id >> 22) == id / 0x400000) by (bit_vector);
    assert(id / 0x400000 <= 0x3ff_ffff_ffff);
    (((id >> 22) + DISCORD_EPOCH_MS) / 1000) as i64
}

/// The colour of a member's staff log, from the bytes of their ID: red
/// from bytes 0, 7 and 4, green from 1, 6 and 3, blue from 2 and 5, each
/// joined by exclusive or.
pub open spec fn spec_id_color(id: u64) -> u32 {
    let b = |i: u64| ((id >> (8 * i)) & 0xff) as u8;
    let red = b(0) ^ b(7) ^ b(4);
    let green = b(1) ^ b(6) ^ b(3);
    let blue = b(2) ^ b(5);
    ((red as u32) << 16) | ((green as u32) << 8) | (blue as u32)
}

/// The colour of a member's staff log.
pub fn id_to_color(id: u64) -> (r: u32)
    ensures
        r == spec_id_color(id),
{
    let b0 = (id & 0xff) as u8;
    let b1 = ((id >> 8) & 0xff) as u8;
    let b2 = ((id >> 16) & 0xff) as u8;
    let b3 = ((id >> 24) & 0xff) as u8;
    let b4 = ((id >> 32) & 0xff) as u8;
    let b5 = ((id >> 40) & 0xff) as u8;
    let b6 = ((id >> 48) & 0xff) as u8;
    let b7 = ((id >> 56) & 0xff) as u8;
    let red = b0 ^ b7 ^ b4;
    let green = b1 ^ b6 ^ b3;
    let blue = b2 ^ b5;
    assert(id == id >> (8 * 0u64)) by (bit_vector);
    (((red as u32) << 16) | ((green as u32) << 8)) | (blue as u32)
}

/// An entry of a staff log.
#[derive(Debug, Clone)]
pub struct StaffLogEntry {
    /// Its number, from 1.
    pub entry_id: i64,
    pub original_link: String,
    pub last_edited_link: Option<String>,
    pub reason: String,
}

/// Whether the links of an entry lead to messages.
pub open spec fn entry_links_readable(e: StaffLogEntry) -> bool {
    &&& vstd::utf8::is_ascii_chars(e.original_link@)
    &&& link_message_digits(e.original_link@).len() > 0
    &&& digits_value(link_message_digits(e.original_link@)) <= u64::MAX
    &&& (e.last_edited_link matches Some(l) ==> {
        &&& vstd::utf8::is_ascii_chars(l@)
        &&& link_message_digits(l@).len() > 0
        &&& digits_value(link_message_digits(l@)) <= u64::MAX
    })
}

/// When the message a link leads to was sent, in seconds of Unix time.
pub open spec fn link_seconds(link: Seq<char>) -> int {
    spec_snowflake_seconds(digits_value(link_message_digits(link)) as u64)
}

/// How an entry shows: when it was logged and last edited, its reason, and
/// links to the messages that logged and edited it; entries after the first
/// start with their number.
pub open spec fn entry_text(e: StaffLogEntry, is_first: bool) -> Seq<char> {
    let edited = match e.last_edited_link {
        Some(l) => "**Last edited on**: <t:"@ + crate::text::signed_decimal(link_seconds(l@)) + ":f>\n"@,
        None => Seq::<char>::empty(),
    };
    let edit_link = match e.last_edited_link {
        Some(l) => "\n[See last edit]("@ + l@ + ")"@,
        None => Seq::<char>::empty(),
    };
    (if is_first {
        Seq::<char>::empty()
    } else {
        "**Log #"@ + crate::text::signed_decimal(e.entry_id as int) + "**:\n"@
    }) + "**Logged on**: <t:"@ + crate::text::signed_decimal(link_seconds(e.original_link@)) + ":f>\n"@ + edited
        + "**Reason**: "@ + e.reason@ + "\n[See original log]("@ + e.original_link@ + ")"@ + edit_link
}

impl StaffLogEntry {
    /// An entry with its number.
    pub fn new(entry_id: i64, original_link: String, last_edited_link: Option<String>, reason: String) -> (r: Self)
        ensures
            r.entry_id == entry_id,
            r.original_link == original_link,
            r.last_edited_link == last_edited_link,
            r.reason == reason,
    {
        StaffLogEntry { entry_id, original_link, last_edited_link, reason }
    }

    /// When the entry was logged, in seconds of Unix time.
    pub fn original_time(&self) -> (r: i64)
        requires
            entry_links_readable(*self),
        ensures
            r == link_seconds(self.original_link@),
    {
        snowflake_seconds(message_id_from_link(self.original_link.as_str()))
    }

    /// When the entry was last edited, in seconds of Unix time, if it was.
    pub fn edited_time(&self) -> (r: Option<i64>)
        requires
            entry_links_readable(*self),
        ensures
            r == (match self.last_edited_link {
                Some(l) => Some(link_seconds(l@) as i64),
                None => None::<i64>,
            }),
    {
        match &self.last_edited_link {
            Some(l) => Some(snowflake_seconds(message_id_from_link(l.as_str()))),
            None => None,
        }
    }

    /// How the entry shows in a staff log.
    pub fn format_field(&self, is_first: bool) -> (r: String)
        requires
            entry_links_readable(*self),
        ensures
            r@ == entry_text(*self, is_first),
    {
        let mut s = String::new();
        if !is_first {
            push_str(&mut s, "**Log #");
            crate::text::push_signed_decimal(&mut s, self.entry_id);
            push_str(&mut s, "**:\n");
        }
        push_str(&mut s, "**Logged on**: <t:");
        crate::text::push_signed_decimal(&mut s, self.original_time());
        push_str(&mut s, ":f>\n");
        match self.edited_time() {
            Some(t) => {
                push_str(&mut s, "**Last edited on**: <t:");
                crate::text::push_signed_decimal(&mut s, t);
                push_str(&mut s, ":f>\n");
            },
            None => {},
        }
        push_str(&mut s, "**Reason**: ");
        push_str(&mut s, self.reason.as_str());
        push_str(&mut s, "\n[See original log](");
        push_str(&mut s, self.original_link.as_str());
        push_str(&mut s, ")");
        match &self.last_edited_link {
            Some(l) => {
                push_str(&mut s, "\n[See last edit](");
                push_str(&mut s, l.as_str());
                push_str(&mut s, ")");
            },
            None => {},
        }
        assert(s@ =~= entry_text(*self, is_first));
        s
    }
}

/// The entries of a staff log as read, in order: each numbered by its
/// place, from 1.
pub fn number_entries(rows: Vec<(String, Option<String>, String)>) -> (r: Vec<StaffLogEntry>)
    requires
        rows@.len() < i64::MAX,
    ensures
        r@.len() == rows@.len(),
        forall|i: int|
            0 <= i < r@.len() ==> #[trigger] r@[i].entry_id == i + 1 && r@[i].original_link == rows@[i].0
                && r@[i].last_edited_link == rows@[i].1 && r@[i].reason == rows@[i].2,
{
    let mut r: Vec<StaffLogEntry> = Vec::new();
    let mut rows = rows;
    let ghost all = rows@;
    let n = rows.len();
    let mut i: usize = 0;
    while i < n
        invariant
            n == all.len(),
            n < i64::MAX,
            i <= n,
            rows@ == all.skip(i as int),
            r@.len() == i,
            forall|j: int|
                0 <= j < i ==> #[trigger] r@[j].entry_id == j + 1 && r@[j].original_link == all[j].0
                    && r@[j].last_edited_link == all[j].1 && r@[j].reason == all[j].2,
        decreases n - i,
    {
        let (original_link, last_edited_link, reason) = rows.remove(0);
        r.push(StaffLogEntry::new((i + 1) as i64, original_link, last_edited_link, reason));
        i = i + 1;
        assert(rows@ =~= all.skip(i as int));
    }
    r
}

/// A staff log as shown.
#[derive(Debug)]
pub struct StaffLogEmbed {
    pub title: &'static str,
    pub color: u32,
    /// The member: tag, display name and ID.
    pub author_name: String,
    /// Shown where the member has no entries.
    pub description: Option<&'static str>,
    pub fields: Vec<EmbedField>,
    /// Who asked for it.
    pub footer: String,
}

/// The name of the field of an entry: the first is headed `Log #1:`, the
/// others by an invisible separator.
pub open spec fn entry_field_name(is_first: bool) -> Seq<char> {
    if is_first {
        "\u{2063}Log #1:"@
    } else {
        "\u{2063}"@
    }
}

fn entry_field(entry: &StaffLogEntry, is_first: bool) -> (r: EmbedField)
    requires
        entry_links_readable(*entry),
    ensures
        field_view(r) == (entry_field_name(is_first), entry_text(*entry, is_first), false),
{
    let name = if is_first { String::from_str("\u{2063}Log #1:") } else { String::from_str("\u{2063}") };
    EmbedField { name, value: entry.format_field(is_first), inline: false }
}

/// The fields of a staff log's entries: the first as the first.
pub open spec fn entry_fields(entries: Seq<StaffLogEntry>) -> Seq<(Seq<char>, Seq<char>, bool)> {
    Seq::new(entries.len(), |i: int| (entry_field_name(i == 0), entry_text(entries[i], i == 0), false))
}

/// The staff log of a member, shown to the staff member who asked, with
/// an entry being added where there is one: titled `Staff Log`, coloured
/// after the member's ID, naming the member and who asked, and listing the
/// entries, or saying there are none.
pub fn make_staff_log_embed(
    invoker_tag: &str,
    member_tag: &str,
    member_nickname: &str,
    member_id: u64,
    entries: &Vec<StaffLogEntry>,
    added: Option<&StaffLogEntry>,
) -> (r: StaffLogEmbed)
    requires
        forall|i: int| 0 <= i < entries@.len() ==> entry_links_readable(#[trigger] entries@[i]),
        added matches Some(e) ==> entry_links_readable(*e),
    ensures
        r.title@ == "Staff Log"@,
        r.color == spec_id_color(member_id),
        r.author_name@ == member_tag@ + " ("@ + member_nickname@ + ")\n"@ + decimal(member_id as nat),
        r.footer@ == "Requested by: "@ + invoker_tag@,
        r.description == (if entries@.len() == 0 { Some("This user has no logs.") } else { None::<&'static str> }),
        fields_view(r.fields@) == entry_fields(entries@) + (match added {
            Some(e) => seq![(entry_field_name(entries@.len() == 0), entry_text(*e, entries@.len() == 0), false)],
            None => Seq::<(Seq<char>, Seq<char>, bool)>::empty(),
        }),
{
    let mut author_name = String::from_str(member_tag);
    push_str(&mut author_name, " (");
    push_str(&mut author_name, member_nickname);
    push_str(&mut author_name, ")\n");
    push_decimal(&mut author_name, member_id);
    let mut footer = String::from_str("Requested by: ");
    push_str(&mut footer, invoker_tag);
    let mut fields: Vec<EmbedField> = Vec::new();
    for i in 0..entries.len()
        invariant
            forall|k: int| 0 <= k < entries@.len() ==> entry_links_readable(#[trigger] entries@[k]),
            fields_view(fields@) == entry_fields(entries@.take(i as int)),
    {
        let ghost before = fields_view(fields@);
        fields.push(entry_field(&entries[i], i == 0));
        assert(fields_view(fields@) =~= before.push(
            (entry_field_name(i == 0), entry_text(entries@[i as int], i == 0), false),
        ));
        assert(entry_fields(entries@.take(i + 1)) =~= entry_fields(entries@.take(i as int)).push(
            (entry_field_name(i == 0), entry_text(entries@[i as int], i == 0), false),
        ));
    }
    assert(entries@.take(entries@.len() as int) =~= entries@);
    let ghost listed = fields_view(fields@);
    match added {
        Some(e) => {
            fields.push(entry_field(e, entries.len() == 0));
        },
        None => {},
    }
    assert(fields_view(fields@) =~= listed + (match added {
        Some(e) => seq![(entry_field_name(entries@.len() == 0), entry_text(*e, entries@.len() == 0), false)],
        None => Seq::<(Seq<char>, Seq<char>, bool)>::empty(),
    }));
    let description = if entries.len() == 0 { Some("This user has no logs.") } else { None };
    StaffLogEmbed { title: "Staff Log", color: id_to_color(member_id), author_name, description, fields, footer }
}

/// The replies of the staff log commands.
#[derive(Debug, Clone, Copy, PartialEq, Eq, Structural)]
pub enum StaffLogReply {
    /// A staff member asked about their own log.
    OwnLog,
    /// An entry was asked for without a reason.
    NoReason,
    Added,
    Edited,
    Removed,
    /// The entry to edit or remove does not exist.
    EntryNotFound,
    /// Reading the log failed.
    Failed,
}

impl StaffLogReply {
    /// The text of the reply.
    pub fn text(&self) -> (r: &'static str)
        ensures
            r@ == match self {
                StaffLogReply::OwnLog => "You cannot read or modify your own staff log."@,
                StaffLogReply::NoReason => "You must specify a reason for the log."@,
                StaffLogReply::Added => "Added staff log."@,
                StaffLogReply::Edited => "Edited staff log."@,
                StaffLogReply::Removed => "Successfully removed entry from staff log."@,
                StaffLogReply::EntryNotFound => "Could not find the given log entry. Please verify that this log entry exists."@,
                StaffLogReply::Failed => "Something's gone wrong. <@367538590520967181> has been notified."@,
            },
    {
        match self {
            StaffLogReply::OwnLog => "You cannot read or modify your own staff log.",
            StaffLogReply::NoReason => "You must specify a reason for the log.",
            StaffLogReply::Added => "Added staff log.",
            StaffLogReply::Edited => "Edited staff log.",
            StaffLogReply::Removed => "Successfully removed entry from staff log.",
            StaffLogReply::EntryNotFound => "Could not find the given log entry. Please verify that this log entry exists.",
            StaffLogReply::Failed => "Something's gone wrong. <@367538590520967181> has been notified.",
        }
    }
}

/// The reply to editing or removing an entry, given how many rows the
/// change touched: done where one was, else the entry was not found.
pub fn entry_change_reply(removing: bool, rows_changed: usize) -> (r: StaffLogReply)
    ensures
        r == (if rows_changed == 0 {
            StaffLogReply::EntryNotFound
        } else if removing {
            StaffLogReply::Removed
        } else {
            StaffLogReply::Edited
        }),
{
    if rows_changed == 0 {
        StaffLogReply::EntryNotFound
    } else if removing {
        StaffLogReply::Removed
    } else {
        StaffLogReply::Edited
    }
}

/// The number of the entry being added to a log that has `log_count`
/// entries.
pub fn next_entry_id(log_count: usize) -> (r: i64)
    requires
        log_count < i64::MAX,
    ensures
        r == log_count + 1,
{
    (log_count as i64) + 1
}

} // verus!
