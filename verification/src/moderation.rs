//! Moderation commands: banning members from channels, and the checks and
//! replies of the banned image commands.
use vstd::prelude::*;
use vstd::string::StringExecFns;
use crate::text::{decimal, push_decimal, push_str};

verus! {

/// Whether giving or taking the channel ban role worked.
#[derive(Debug, Copy, Clone, PartialEq, Eq, Structural)]
pub enum RoleChange {
    /// The member already was as asked: nothing was done.
    Unneeded,
    Done,
    Failed,
}

/// `name (id)`, how a member is named in the replies.
pub open spec fn member_text(name: Seq<char>, id: u64) -> Seq<char> {
    name + " ("@ + decimal(id as nat) + ")"@
}

fn push_member(s: &mut String, name: &str, id: u64)
    ensures
        final(s)@ == old(s)@ + member_text(name@, id),
{
    push_str(s, name);
    push_str(s, " (");
    push_decimal(s, id);
    push_str(s, ")");
    assert(final(s)@ =~= old(s)@ + member_text(name@, id));
}

/// Whether a member already has the ban role decides what is done: a
/// member who has it is not banned again.
pub fn ban_role_needed(has_role: bool) -> (r: bool)
    ensures
        r == !has_role,
{
    !has_role
}

/// The reply to banning a member from a channel.
pub fn ban_reply(change: RoleChange, target_name: &str, target_id: u64, ch_name: &str) -> (r: String)
    ensures
        r@ == match change {
            RoleChange::Unneeded => member_text(target_name@, target_id) + " already is banned from the "@
                + ch_name@ + " channel(s)."@,
            RoleChange::Done => "Successfully banned "@ + member_text(target_name@, target_id) + " from the "@
                + ch_name@ + " channel(s)."@,
            RoleChange::Failed => "Failed to ban "@ + member_text(target_name@, target_id) + " from the "@
                + ch_name@ + " channel(s). Check that the user exists and that the bot has the Manage Roles permission."@,
        },
{
    let mut s = String::new();
    match change {
        RoleChange::Unneeded => {
            push_member(&mut s, target_name, target_id);
            push_str(&mut s, " already is banned from the ");
            push_str(&mut s, ch_name);
            push_str(&mut s, " channel(s).");
            assert(s@ =~= member_text(target_name@, target_id) + " already is banned from the "@ + ch_name@
                + " channel(s)."@);
        },
        RoleChange::Done => {
            push_str(&mut s, "Successfully banned ");
            push_member(&mut s, target_name, target_id);
            push_str(&mut s, " from the ");
            push_str(&mut s, ch_name);
            push_str(&mut s, " channel(s).");
            assert(s@ =~= "Successfully banned "@ + member_text(target_name@, target_id) + " from the "@ + ch_name@
                + " channel(s)."@);
        },
        RoleChange::Failed => {
            push_str(&mut s, "Failed to ban ");
            push_member(&mut s, target_name, target_id);
            push_str(&mut s, " from the ");
            push_str(&mut s, ch_name);
            push_str(&mut s, " channel(s). Check that the user exists and that the bot has the Manage Roles permission.");
            assert(s@ =~= "Failed to ban "@ + member_text(target_name@, target_id) + " from the "@ + ch_name@
                + " channel(s). Check that the user exists and that the bot has the Manage Roles permission."@);
        },
    }
    s
}

/// The reply to unbanning a member from a channel.
pub fn unban_reply(change: RoleChange, target_name: &str, target_id: u64, ch_name: &str) -> (r: String)
    ensures
        r@ == match change {
            RoleChange::Unneeded => member_text(target_name@, target_id) + " was not banned from the "@ + ch_name@
                + " channel(s) in the first place."@,
            RoleChange::Done => "Successfully unbanned "@ + member_text(target_name@, target_id) + " from the "@
                + ch_name@ + " channels."@,
            RoleChange::Failed => "Failed to unban "@ + member_text(target_name@, target_id) + " from the "@
                + ch_name@ + " channel(s). Check that the user exists and that the bot has the Manage Roles permission."@,
        },
{
    let mut s = String::new();
    match change {
        RoleChange::Unneeded => {
            push_member(&mut s, target_name, target_id);
            push_str(&mut s, " was not banned from the ");
            push_str(&mut s, ch_name);
            push_str(&mut s, " channel(s) in the first place.");
            assert(s@ =~= member_text(target_name@, target_id) + " was not banned from the "@ + ch_name@
                + " channel(s) in the first place."@);
        },
        RoleChange::Done => {
            push_str(&mut s, "Successfully unbanned ");
            push_member(&mut s, target_name, target_id);
            push_str(&mut s, " from the ");
            push_str(&mut s, ch_name);
            push_str(&mut s, " channels.");
            assert(s@ =~= "Successfully unbanned "@ + member_text(target_name@, target_id) + " from the "@ + ch_name@
                + " channels."@);
        },
        RoleChange::Failed => {
            push_str(&mut s, "Failed to unban ");
            push_member(&mut s, target_name, target_id);
            push_str(&mut s, " from the ");
            push_str(&mut s, ch_name);
            push_str(&mut s, " channel(s). Check that the user exists and that the bot has the Manage Roles permission.");
            assert(s@ =~= "Failed to unban "@ + member_text(target_name@, target_id) + " from the "@ + ch_name@
                + " channel(s). Check that the user exists and that the bot has the Manage Roles permission."@);
        },
    }
    s
}

/// The description of the notice sent to the staff channel when a member
/// was banned (or unbanned) from a channel.
pub fn channel_ban_notice(
    banned: bool,
    author_name: &str,
    author_id: u64,
    target_name: &str,
    target_id: u64,
    ch_name: &str,
) -> (r: String)
    ensures
        r@ == member_text(author_name@, author_id) + (if banned { " banned "@ } else { " unbanned "@ })
            + member_text(target_name@, target_id) + " from the "@ + ch_name@ + " channel(s)."@,
{
    let mut s = String::new();
    push_member(&mut s, author_name, author_id);
    push_str(&mut s, if banned { " banned " } else { " unbanned " });
    push_member(&mut s, target_name, target_id);
    push_str(&mut s, " from the ");
    push_str(&mut s, ch_name);
    push_str(&mut s, " channel(s).");
    assert(s@ =~= member_text(author_name@, author_id) + (if banned { " banned "@ } else { " unbanned "@ })
        + member_text(target_name@, target_id) + " from the "@ + ch_name@ + " channel(s)."@);
    s
}

/// The permission to manage messages.
pub const MANAGE_MESSAGES: u64 = 8192;

/// The permission to time members out.
pub const MODERATE_MEMBERS: u64 = 1099511627776;

/// Whether a member's permissions exempt them from the banned image
/// filter: they can manage messages or time members out.
pub fn is_exempt_from_image_filter(permissions: u64) -> (r: bool)
    ensures
        r == (permissions & (MANAGE_MESSAGES | MODERATE_MEMBERS) != 0),
{
    permissions & (MANAGE_MESSAGES | MODERATE_MEMBERS) != 0
}

/// The reply given where a link to an image's message is refused, or the
/// channel and message it leads to.
pub fn validate_image_link(link: &str, from_guild: u64) -> (r: Result<(u64, u64), &'static str>)
    ensures
        match crate::util::spec_ids_from_msg_link(link@) {
            None => r matches Err(m) && m@ == "Invalid message link"@,
            Some((g, c, m)) => if g != from_guild {
                r matches Err(e) && e@ == "Message link must be from this server"@
            } else {
                r == Ok::<(u64, u64), &'static str>((c, m))
            },
        },
{
    match crate::util::get_ids_from_msg_link(link) {
        None => Err("Invalid message link"),
        Some((g, c, m)) => {
            if g != from_guild {
                Err("Message link must be from this server")
            } else {
                Ok((c, m))
            }
        },
    }
}

/// The reply where the image's message could not be fetched.
pub fn message_not_fetched_reply() -> (r: &'static str)
    ensures
        r@ == "Couldn't fetch message. Check message link is valid and I have permission to access it"@,
{
    "Couldn't fetch message. Check message link is valid and I have permission to access it"
}

/// The reply where banning an image is asked with fewer than two
/// arguments; none where there are enough.
pub fn ban_image_args_reply(arg_count: usize) -> (r: Option<&'static str>)
    ensures
        match r {
            Some(m) => arg_count < 2 && m@ == "Provide a message link and description"@,
            None => arg_count >= 2,
        },
{
    if arg_count < 2 {
        Some("Provide a message link and description")
    } else {
        None
    }
}

/// The reply where unbanning an image is not asked with exactly one
/// argument; none where it is.
pub fn unban_image_args_reply(arg_count: usize) -> (r: Option<&'static str>)
    ensures
        match r {
            Some(m) => arg_count != 1 && m@ == "Provide one message link argument"@,
            None => arg_count == 1,
        },
{
    if arg_count != 1 {
        Some("Provide one message link argument")
    } else {
        None
    }
}

/// The dimensions of a banned image as listed: `WIDTHxHEIGHT`.
pub fn dimensions_text(width: u32, height: u32) -> (r: String)
    ensures
        r@ == decimal(width as nat) + "x"@ + decimal(height as nat),
{
    let mut s = String::new();
    push_decimal(&mut s, width as u64);
    push_str(&mut s, "x");
    push_decimal(&mut s, height as u64);
    assert(s@ =~= decimal(width as nat) + "x"@ + decimal(height as nat));
    s
}

/// The title of the hash field of a banned image as listed.
pub fn hash_field_name(hash_type: crate::image_checker::HashType) -> (r: String)
    ensures
        r@ == "BLAKE3 hash"@,
{
    let mut s = String::from_str(hash_type.name());
    push_str(&mut s, " hash");
    proof {
        reveal_strlit("BLAKE3");
        reveal_strlit(" hash");
        reveal_strlit("BLAKE3 hash");
    }
    s
}

/// How many days a member who posts a banned image is timed out for.
pub const TIMEOUT_DAYS: u64 = 7;

/// The most embeds one message holds.
pub const EMBED_MAX_COUNT: usize = 10;

/// A field of an embed.
#[derive(Debug, Clone)]
pub struct EmbedField {
    pub name: String,
    pub value: String,
    pub inline: bool,
}

/// The view of an embed field: name, value, whether inline.
pub open spec fn field_view(f: EmbedField) -> (Seq<char>, Seq<char>, bool) {
    (f.name@, f.value@, f.inline)
}

/// The views of embed fields, in order.
pub open spec fn fields_view(fields: Seq<EmbedField>) -> Seq<(Seq<char>, Seq<char>, bool)> {
    fields.map_values(|f: EmbedField| field_view(f))
}

fn field(name: &str, value: String, inline: bool) -> (r: EmbedField)
    ensures
        field_view(r) == (name@, value@, inline),
{
    EmbedField { name: String::from_str(name), value, inline }
}

/// How a user is mentioned: `<@id>`.
pub open spec fn user_mention(id: u64) -> Seq<char> {
    "<@"@ + decimal(id as nat) + ">"@
}

/// How a channel is mentioned: `<#id>`.
pub open spec fn channel_mention(id: u64) -> Seq<char> {
    "<#"@ + decimal(id as nat) + ">"@
}

fn mention(prefix: &str, id: u64) -> (r: String)
    ensures
        r@ == prefix@ + decimal(id as nat) + ">"@,
{
    let mut s = String::from_str(prefix);
    push_decimal(&mut s, id);
    push_str(&mut s, ">");
    s
}

/// The server whose staff hear of banned images in their own channel.
#[derive(Debug, Clone, Copy)]
pub struct StaffContact {
    pub server_id: u64,
    pub channel_id: u64,
    pub role_id: u64,
}

/// Where the notice of a banned image goes.
#[derive(Debug, Clone, Copy, PartialEq, Eq, Structural)]
pub enum NoticeDestination {
    /// The staff channel, pinging the staff role.
    Staff { channel_id: u64, role_id: u64 },
    /// A reply to the message in its channel, pinging nobody.
    Reply { channel_id: u64 },
}

/// The notice of a deleted banned image.
#[derive(Debug)]
pub struct BannedImageNotice {
    pub destination: NoticeDestination,
    pub title: &'static str,
    pub fields: Vec<EmbedField>,
}

/// What was done to the member who posted a banned image.
pub open spec fn action_text(timed_out: bool) -> Seq<char> {
    if timed_out {
        "Timed out user for "@ + decimal(TIMEOUT_DAYS as nat) + " days"@
    } else {
        "Failed to timeout"@
    }
}

/// The notice of a banned image posted by a member in a channel of a
/// server: the staff of the staff server hear of it in their channel, any
/// other server gets a reply; its fields name the sender, the channel, the
/// image, the message it was banned from, and whether the member was timed
/// out.
pub fn banned_image_notice(
    contact: StaffContact,
    guild_id: u64,
    channel_id: u64,
    author_id: u64,
    author_name: &str,
    banned_img_link: &str,
    db_link: &str,
    timed_out: bool,
) -> (r: BannedImageNotice)
    ensures
        r.destination == (if guild_id == contact.server_id {
            NoticeDestination::Staff { channel_id: contact.channel_id, role_id: contact.role_id }
        } else {
            NoticeDestination::Reply { channel_id }
        }),
        r.title@ == "Banned Image Detected"@,
        fields_view(r.fields@) == seq![
            ("Sent by"@, user_mention(author_id) + " "@ + author_name@, true),
            ("In"@, channel_mention(channel_id), true),
            ("Deleted Image"@, "[Image]("@ + banned_img_link@ + ")"@, false),
            ("Link from database"@, "[Message]("@ + db_link@ + ")"@, true),
            ("Action taken"@, action_text(timed_out), false),
        ],
{
    let mut sent_by = mention("<@", author_id);
    push_str(&mut sent_by, " ");
    push_str(&mut sent_by, author_name);
    let mut image = String::from_str("[Image](");
    push_str(&mut image, banned_img_link);
    push_str(&mut image, ")");
    let mut from_db = String::from_str("[Message](");
    push_str(&mut from_db, db_link);
    push_str(&mut from_db, ")");
    let action = if timed_out {
        let mut a = String::from_str("Timed out user for ");
        push_decimal(&mut a, TIMEOUT_DAYS);
        push_str(&mut a, " days");
        a
    } else {
        String::from_str("Failed to timeout")
    };
    let mut fields: Vec<EmbedField> = Vec::new();
    fields.push(field("Sent by", sent_by, true));
    fields.push(field("In", mention("<#", channel_id), true));
    fields.push(field("Deleted Image", image, false));
    fields.push(field("Link from database", from_db, true));
    fields.push(field("Action taken", action, false));
    let destination = if guild_id == contact.server_id {
        NoticeDestination::Staff { channel_id: contact.channel_id, role_id: contact.role_id }
    } else {
        NoticeDestination::Reply { channel_id }
    };
    proof {
        assert(fields_view(fields@) =~= seq![
            ("Sent by"@, user_mention(author_id) + " "@ + author_name@, true),
            ("In"@, channel_mention(channel_id), true),
            ("Deleted Image"@, "[Image]("@ + banned_img_link@ + ")"@, false),
            ("Link from database"@, "[Message]("@ + db_link@ + ")"@, true),
            ("Action taken"@, action_text(timed_out), false),
        ]);
    }
    BannedImageNotice { destination, title: "Banned Image Detected", fields }
}

/// The title shown where a server has no banned images.
pub fn no_banned_images_title() -> (r: &'static str)
    ensures
        r@ == "No banned images found"@,
{
    "No banned images found"
}

/// The fields of a banned image as listed: its message link, its
/// dimensions, and its hash.
pub fn banned_image_fields(image: &crate::image_checker::ImageResult) -> (r: Vec<EmbedField>)
    requires
        image.hash_type == 0,
    ensures
        fields_view(r@) == seq![
            ("Link"@, image.link_ref@, true),
            ("Dimensions"@, decimal(image.width as nat) + "x"@ + decimal(image.height as nat), true),
            ("BLAKE3 hash"@, image.hash_hex@, false),
        ],
{
    let mut fields: Vec<EmbedField> = Vec::new();
    fields.push(EmbedField { name: String::from_str("Link"), value: image.link_ref.clone(), inline: true });
    fields.push(field("Dimensions", dimensions_text(image.width, image.height), true));
    fields.push(
        EmbedField { name: hash_field_name(crate::image_checker::HashType::Blake3), value: image.hash_hex.clone(), inline: false },
    );
    proof {
        assert(fields_view(fields@) =~= seq![
            ("Link"@, image.link_ref@, true),
            ("Dimensions"@, decimal(image.width as nat) + "x"@ + decimal(image.height as nat), true),
            ("BLAKE3 hash"@, image.hash_hex@, false),
        ]);
    }
    fields
}

/// How banned images are listed: in messages of at most
/// `EMBED_MAX_COUNT` embeds; the ranges of images each message holds.
pub fn listing_pages(image_count: usize) -> (r: Vec<(usize, usize)>)
    ensures
        r@.len() == (image_count + EMBED_MAX_COUNT - 1) / EMBED_MAX_COUNT as int,
        forall|i: int|
            0 <= i < r@.len() ==> #[trigger] r@[i] == ((i * 10) as usize, (if (i + 1) * 10 <= image_count {
                (i + 1) * 10
            } else {
                image_count as int
            }) as usize),
{
    let page_count: usize = image_count / 10 + if image_count % 10 == 0 { 0 } else { 1 };
    let mut pages: Vec<(usize, usize)> = Vec::new();
    for k in 0..page_count
        invariant
            page_count == (image_count + 9) / 10 as int,
            pages@.len() == k,
            forall|i: int|
                0 <= i < pages@.len() ==> #[trigger] pages@[i] == ((i * 10) as usize, (if (i + 1) * 10
                    <= image_count {
                    (i + 1) * 10
                } else {
                    image_count as int
                }) as usize),
    {
        let start = k * 10;
        let end = if image_count - start >= 10 { start + 10 } else { image_count };
        pages.push((start, end));
    }
    pages
}
} // verus!
