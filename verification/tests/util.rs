use burdbot::event_handler::unknown_member_count;
use burdbot::logger::{malformed_string_err, LogBuffer};
use burdbot::moderation::{
    ban_image_args_reply, ban_reply, channel_ban_notice, dimensions_text, hash_field_name, is_exempt_from_image_filter,
    message_not_fetched_reply, unban_image_args_reply, unban_reply, validate_image_link, RoleChange, MANAGE_MESSAGES,
    MODERATE_MEMBERS,
};
use burdbot::image_checker::HashType;
use burdbot::user_search::UserSearchEngine;
use burdbot::util::{generic_fail_message, get_ids_from_msg_link, issue_message, member_permissions, OwnerContact};

#[test]
fn message_links() {
    let link = "see https://discord.com/channels/243838819743432704/1386127080827392155/1386127084732289075 ok";
    assert_eq!(get_ids_from_msg_link(link), Some((243838819743432704, 1386127080827392155, 1386127084732289075)));
    assert_eq!(get_ids_from_msg_link("https://discord.com/channels/1234567/12345678/12345678"), None);
    assert_eq!(get_ids_from_msg_link("https://discord.com/channels/00000000/12345678/12345678"), None);
    assert_eq!(get_ids_from_msg_link("https://discord.com/channels/99999999999999999999/12345678/12345678"), None);
    assert_eq!(get_ids_from_msg_link("http://discord.com/channels/12345678/12345678/12345678"), None);
    assert_eq!(
        get_ids_from_msg_link("x https://discord.com/channels/1/2/3 https://discord.com/channels/12345678/23456789/34567890"),
        Some((12345678, 23456789, 34567890))
    );
}

#[test]
fn permissions_and_reports() {
    assert_eq!(member_permissions(&vec![1, 4, 16]), 21);
    assert_eq!(member_permissions(&vec![]), 0);
    assert_eq!(
        issue_message("pronounce", "boom", "none"),
        "Error encountered in the command/module 'pronounce'. Error: boom\nAdditional information: none"
    );
    assert_eq!(generic_fail_message(5, &OwnerContact::InServer), "Something went wrong. <@5> has been notified about this.");
    assert_eq!(
        generic_fail_message(5, &OwnerContact::Tag("DELIBURD#7741".to_string())),
        "Something went wrong. Please contact the owner of the bot, DELIBURD#7741."
    );
    assert_eq!(
        generic_fail_message(5, &OwnerContact::Unknown),
        "Something went wrong. Please contact the owner of the bot. Their user ID is 5."
    );
}

#[test]
fn log_buffer() {
    let mut buffer = LogBuffer::new(5);
    assert_eq!(buffer.take_all(), None);
    assert_eq!(buffer.write(b"abc"), Ok(3));
    assert_eq!(buffer.write(b"defg"), Ok(2));
    assert_eq!(buffer.write(b"h"), Ok(0));
    assert_eq!(buffer.write(&[0xff, 0x41]), Err("Non-UTF-8 bytes were passed into DiscordLogger's write(). Investigate this. Bytes: [255, 65].".to_string()));
    assert_eq!(buffer.take_all(), Some(b"abcde".to_vec()));
    assert_eq!(buffer.take_all(), None);
    assert_eq!(malformed_string_err(&[]), "Non-UTF-8 bytes were passed into DiscordLogger's write(). Investigate this. Bytes: [].");
}

#[test]
fn moderation_replies() {
    assert_eq!(ban_reply(RoleChange::Unneeded, "bob", 7, "memes"), "bob (7) already is banned from the memes channel(s).");
    assert_eq!(ban_reply(RoleChange::Done, "bob", 7, "memes"), "Successfully banned bob (7) from the memes channel(s).");
    assert_eq!(
        ban_reply(RoleChange::Failed, "bob", 7, "memes"),
        "Failed to ban bob (7) from the memes channel(s). Check that the user exists and that the bot has the Manage Roles permission."
    );
    assert_eq!(unban_reply(RoleChange::Unneeded, "bob", 7, "memes"), "bob (7) was not banned from the memes channel(s) in the first place.");
    assert_eq!(unban_reply(RoleChange::Done, "bob", 7, "memes"), "Successfully unbanned bob (7) from the memes channels.");
    assert_eq!(channel_ban_notice(false, "mod", 1, "bob", 7, "memes"), "mod (1) unbanned bob (7) from the memes channel(s).");
    assert!(is_exempt_from_image_filter(MANAGE_MESSAGES));
    assert!(is_exempt_from_image_filter(MODERATE_MEMBERS | 1));
    assert!(!is_exempt_from_image_filter(8));
    let link = "https://discord.com/channels/243838819743432704/1386127080827392155/1386127084732289075";
    assert_eq!(validate_image_link(link, 243838819743432704), Ok((1386127080827392155, 1386127084732289075)));
    assert_eq!(validate_image_link(link, 1), Err("Message link must be from this server"));
    assert_eq!(validate_image_link("nope", 1), Err("Invalid message link"));
    assert!(message_not_fetched_reply().starts_with("Couldn't fetch message."));
    assert_eq!(ban_image_args_reply(1), Some("Provide a message link and description"));
    assert_eq!(ban_image_args_reply(2), None);
    assert_eq!(unban_image_args_reply(2), Some("Provide one message link argument"));
    assert_eq!(unban_image_args_reply(1), None);
    assert_eq!(dimensions_text(640, 480), "640x480");
    assert_eq!(hash_field_name(HashType::Blake3), "BLAKE3 hash");
}

#[test]
fn member_search() {
    let mut engine = UserSearchEngine::new();
    engine.add_member(1, Some("Birdie"), "deliburd", "deliburd#7741");
    engine.add_member(2, None, "someone", "someone#0001");
    let found = engine.user_id_search("deliburd");
    assert_eq!(found.first(), Some(&1));
    engine.remove_member(1);
    assert!(!engine.user_id_search("deliburd").contains(&1));
    assert_eq!(unknown_member_count(10, 4), 6);
}
