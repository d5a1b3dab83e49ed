use burdbot::staff_log::{
    entry_change_reply, id_to_color, make_staff_log_embed, message_id_from_link, next_entry_id, number_entries,
    snowflake_seconds, StaffLogEntry, StaffLogReply,
};

const LINK: &str = "https://discord.com/channels/243838819743432704/1386127080827392155/1386127084732289075";

#[test]
fn message_ids_and_times_from_links() {
    assert_eq!(message_id_from_link(LINK), 1386127084732289075);
    assert_eq!(message_id_from_link("https://discord.com/channels/1/2/345//"), 345);
    assert_eq!(snowflake_seconds(1386127084732289075), 1750548849);
    assert_eq!(snowflake_seconds(0), 1420070400);
}

#[test]
fn log_colours_come_from_the_id() {
    assert_eq!(id_to_color(367538590520967181), 7241858);
    assert_eq!(id_to_color(0), 0);
    assert_eq!(id_to_color(0x0102030405060708), ((8 ^ 1 ^ 4) << 16) | ((7 ^ 2 ^ 5) << 8) | (6 ^ 3));
}

#[test]
fn entries_are_numbered_and_shown() {
    let rows = vec![
        (LINK.to_string(), None, "spam".to_string()),
        (LINK.to_string(), Some(LINK.to_string()), "rude".to_string()),
    ];
    let entries = number_entries(rows);
    assert_eq!(entries.iter().map(|e| e.entry_id).collect::<Vec<_>>(), vec![1, 2]);
    assert_eq!(
        entries[0].format_field(true),
        format!("**Logged on**: <t:1750548849:f>\n**Reason**: spam\n[See original log]({LINK})")
    );
    assert_eq!(
        entries[1].format_field(false),
        format!(
            "**Log #2**:\n**Logged on**: <t:1750548849:f>\n**Last edited on**: <t:1750548849:f>\n\
             **Reason**: rude\n[See original log]({LINK})\n[See last edit]({LINK})"
        )
    );
}

#[test]
fn staff_log_embeds() {
    let entries = number_entries(vec![(LINK.to_string(), None, "spam".to_string())]);
    let added = StaffLogEntry::new(2, LINK.to_string(), None, "again".to_string());
    let embed = make_staff_log_embed("mod#1", "burd#7741", "Burd", 367538590520967181, &entries, Some(&added));
    assert_eq!(embed.title, "Staff Log");
    assert_eq!(embed.color, 7241858);
    assert_eq!(embed.author_name, "burd#7741 (Burd)\n367538590520967181");
    assert_eq!(embed.footer, "Requested by: mod#1");
    assert_eq!(embed.description, None);
    assert_eq!(embed.fields.len(), 2);
    assert_eq!(embed.fields[0].name, "\u{2063}Log #1:");
    assert_eq!(embed.fields[1].name, "\u{2063}");
    assert!(embed.fields[1].value.starts_with("**Log #2**:\n"));

    let empty = make_staff_log_embed("mod#1", "burd#7741", "Burd", 5, &vec![], None);
    assert_eq!(empty.description, Some("This user has no logs."));
    assert!(empty.fields.is_empty());
}

#[test]
fn staff_log_replies() {
    assert_eq!(entry_change_reply(true, 1), StaffLogReply::Removed);
    assert_eq!(entry_change_reply(false, 1), StaffLogReply::Edited);
    assert_eq!(entry_change_reply(true, 0), StaffLogReply::EntryNotFound);
    assert_eq!(StaffLogReply::EntryNotFound.text(), "Could not find the given log entry. Please verify that this log entry exists.");
    assert_eq!(StaffLogReply::OwnLog.text(), "You cannot read or modify your own staff log.");
    assert_eq!(next_entry_id(0), 1);
    assert_eq!(next_entry_id(4), 5);
}
