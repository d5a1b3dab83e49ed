//! Message helpers: the IDs in a message link, a member's permissions from
//! their roles, and the texts of error reports.
use vstd::prelude::*;
use vstd::string::StringExecFns;
use crate::text::{all_digits, chars_of, decimal, digit_run, holds_at, holds_at_exec, push_decimal, push_str, spec_parse_u64};

verus! {

/// The start of a link to a Discord message.
pub open spec fn msg_link_prefix() -> Seq<char> {
    "https://discord.com/channels/"@
}

/// The three numbers of a message link starting at `p`: the prefix, then
/// three runs of at least 8 digits separated by `/`.
pub open spec fn msg_link_at(s: Seq<char>, p: int) -> Option<(Seq<char>, Seq<char>, Seq<char>)> {
    let a = p + 29;
    let n1 = digit_run(s, a);
    let b = a + n1 + 1;
    let n2 = digit_run(s, b);
    let c = b + n2 + 1;
    let n3 = digit_run(s, c);
    if holds_at(s, p, msg_link_prefix()) && n1 >= 8 && a + n1 < s.len() && s[a + n1] == '/' && n2 >= 8 && b + n2
        < s.len() && s[b + n2] == '/' && n3 >= 8 {
        Some((s.subrange(a, a + n1), s.subrange(b, b + n2), s.subrange(c, c + n3)))
    } else {
        None
    }
}

/// The first message link of `s` from position `p` on.
pub open spec fn first_msg_link_from(s: Seq<char>, p: int) -> Option<(Seq<char>, Seq<char>, Seq<char>)>
    decreases s.len() - p,
{
    if p < 0 || p >= s.len() {
        None
    } else {
        match msg_link_at(s, p) {
            Some(x) => Some(x),
            None => first_msg_link_from(s, p + 1),
        }
    }
}

/// A Discord ID written in decimal: a number that fits and is not zero.
pub open spec fn spec_parse_id(d: Seq<char>) -> Option<u64> {
    match spec_parse_u64(d) {
        Some(v) => if v != 0 { Some(v) } else { None },
        None => None,
    }
}

/// The server, channel and message IDs of the first message link in a text.
pub open spec fn spec_ids_from_msg_link(s: Seq<char>) -> Option<(u64, u64, u64)> {
    match first_msg_link_from(s, 0) {
        Some((a, b, c)) => match (spec_parse_id(a), spec_parse_id(b), spec_parse_id(c)) {
            (Some(g), Some(ch), Some(m)) => Some((g, ch, m)),
            _ => None,
        },
        None => None,
    }
}

fn digit_run_exec(cs: &Vec<char>, p: usize) -> (r: usize)
    requires
        p <= cs@.len(),
    ensures
        r == digit_run(cs@, p as int),
        p + r <= cs@.len(),
{
    let mut q: usize = p;
    while q < cs.len() && '0' <= cs[q] && cs[q] <= '9'
        invariant
            p <= q <= cs@.len(),
            digit_run(cs@, p as int) == (q - p) + digit_run(cs@, q as int),
        decreases cs@.len() - q,
    {
        q = q + 1;
    }
    q - p
}

/// The positions of the three numbers of a message link starting at `p`.
fn msg_link_at_exec(cs: &Vec<char>, p: usize) -> (r: Option<(usize, usize, usize, usize, usize, usize)>)
    requires
        p < cs@.len(),
    ensures
        match r {
            Some((a, a2, b, b2, c, c2)) => a <= a2 <= b <= b2 <= c <= c2 <= cs@.len() && msg_link_at(cs@, p as int)
                == Some(
                (cs@.subrange(a as int, a2 as int), cs@.subrange(b as int, b2 as int), cs@.subrange(c as int, c2 as int)),
            ),
            None => msg_link_at(cs@, p as int) is None,
        },
{
    proof {
        reveal_strlit("https://discord.com/channels/");
    }
    let n = cs.len();
    if !holds_at_exec(cs, p, "https://discord.com/channels/") {
        return None;
    }
    assert(msg_link_prefix().len() == 29);
    let a = p + 29;
    let n1 = digit_run_exec(cs, a);
    if n1 < 8 || a + n1 >= n || cs[a + n1] != '/' {
        return None;
    }
    let b = a + n1 + 1;
    let n2 = digit_run_exec(cs, b);
    if n2 < 8 || b + n2 >= n || cs[b + n2] != '/' {
        return None;
    }
    let c = b + n2 + 1;
    let n3 = digit_run_exec(cs, c);
    if n3 < 8 {
        return None;
    }
    Some((a, a + n1, b, b + n2, c, c + n3))
}

fn parse_id(cs: &Vec<char>, from: usize, to: usize) -> (r: Option<u64>)
    requires
        from <= to <= cs@.len(),
    ensures
        r == spec_parse_id(cs@.subrange(from as int, to as int)),
{
    let rest = cs.as_slice().split_at(from).1;
    let digits = rest.split_at(to - from).0;
    assert(digits@ =~= cs@.subrange(from as int, to as int));
    match crate::text::parse_u64(digits) {
        Some(v) => if v != 0 { Some(v) } else { None },
        None => None,
    }
}

/// The server, channel and message IDs of the first message link in a
/// text: `None` where there is none, or where one of its numbers is zero
/// or too large for an ID.
pub fn get_ids_from_msg_link(link: &str) -> (r: Option<(u64, u64, u64)>)
    ensures
        r == spec_ids_from_msg_link(link@),
{
    let cs = chars_of(link);
    let mut p: usize = 0;
    while p < cs.len()
        invariant
            cs@ == link@,
            p <= cs@.len(),
            first_msg_link_from(cs@, 0) == first_msg_link_from(cs@, p as int),
        decreases cs@.len() - p,
    {
        match msg_link_at_exec(&cs, p) {
            Some((a, a2, b, b2, c, c2)) => {
                let g = parse_id(&cs, a, a2);
                let ch = parse_id(&cs, b, b2);
                let m = parse_id(&cs, c, c2);
                return match (g, ch, m) {
                    (Some(g), Some(ch), Some(m)) => Some((g, ch, m)),
                    _ => None,
                };
            },
            None => {
                p = p + 1;
            },
        }
    }
    None
}

/// The bits of the permissions of all the given roles.
pub open spec fn permissions_union(roles: Seq<u64>) -> u64
    decreases roles.len(),
{
    if roles.len() == 0 {
        0
    } else {
        permissions_union(roles.drop_last()) | roles.last()
    }
}

/// A member's permissions: those of all their roles together.
pub fn member_permissions(role_permissions: &Vec<u64>) -> (r: u64)
    ensures
        r == permissions_union(role_permissions@),
{
    let mut acc: u64 = 0;
    let mut i: usize = 0;
    while i < role_permissions.len()
        invariant
            i <= role_permissions@.len(),
            acc == permissions_union(role_permissions@.take(i as int)),
        decreases role_permissions@.len() - i,
    {
        assert(role_permissions@.take(i + 1).drop_last() =~= role_permissions@.take(i as int));
        acc = acc | role_permissions[i];
        i = i + 1;
    }
    assert(role_permissions@.take(i as int) =~= role_permissions@);
    acc
}

/// How bad an issue reported to the owner is.
#[derive(Debug, Copy, Clone, PartialEq, Eq, Structural)]
pub enum IssueType {
    Warning,
    Error,
}

/// The report sent to the owner about an error in a command or module.
pub fn issue_message(identifier: &str, error: &str, additional_info: &str) -> (r: String)
    ensures
        r@ == "Error encountered in the command/module '"@ + identifier@ + "'. Error: "@ + error@
            + "\nAdditional information: "@ + additional_info@,
{
    let mut s = String::from_str("Error encountered in the command/module '");
    push_str(&mut s, identifier);
    push_str(&mut s, "'. Error: ");
    push_str(&mut s, error);
    push_str(&mut s, "\nAdditional information: ");
    push_str(&mut s, additional_info);
    s
}

/// Where the bot's owner can be found when something goes wrong.
#[derive(Debug, Clone)]
pub enum OwnerContact {
    /// The owner is in the server: they are mentioned.
    InServer,
    /// The owner is known to the bot by this tag.
    Tag(String),
    /// Only the owner's ID is known.
    Unknown,
}

/// The reply sent when something went wrong.
pub fn generic_fail_message(owner_id: u64, contact: &OwnerContact) -> (r: String)
    ensures
        r@ == match *contact {
            OwnerContact::InServer => "Something went wrong. <@"@ + decimal(owner_id as nat)
                + "> has been notified about this."@,
            OwnerContact::Tag(t) => "Something went wrong. Please contact the owner of the bot, "@ + t@ + "."@,
            OwnerContact::Unknown => "Something went wrong. Please contact the owner of the bot. Their user ID is "@
                + decimal(owner_id as nat) + "."@,
        },
{
    match contact {
        OwnerContact::InServer => {
            let mut s = String::from_str("Something went wrong. <@");
            push_decimal(&mut s, owner_id);
            push_str(&mut s, "> has been notified about this.");
            s
        },
        OwnerContact::Tag(t) => {
            let mut s = String::from_str("Something went wrong. Please contact the owner of the bot, ");
            push_str(&mut s, t.as_str());
            push_str(&mut s, ".");
            s
        },
        OwnerContact::Unknown => {
            let mut s = String::from_str("Something went wrong. Please contact the owner of the bot. Their user ID is ");
            push_decimal(&mut s, owner_id);
            push_str(&mut s, ".");
            s
        },
    }
}

} // verus!

verus! {

proof fn lemma_parse_id_decimal(x: u64)
    requires
        x > 0,
    ensures
        spec_parse_id(decimal(x as nat)) == Some(x),
{
    crate::text::lemma_decimal_roundtrip(x as nat);
    assert(crate::text::is_digit(decimal(x as nat)[0]));
}

/// A link to a message, written as Discord writes them with IDs of at least
/// 8 digits, reads back as its server, channel and message IDs.
pub proof fn lemma_msg_link_roundtrip(guild: u64, channel: u64, message: u64)
    requires
        guild >= 10_000_000,
        channel >= 10_000_000,
        message >= 10_000_000,
    ensures
        spec_ids_from_msg_link(
            msg_link_prefix() + decimal(guild as nat) + seq!['/'] + decimal(channel as nat) + seq!['/'] + decimal(
                message as nat,
            ),
        ) == Some((guild, channel, message)),
{
    reveal_strlit("https://discord.com/channels/");
    let p = msg_link_prefix();
    let dg = decimal(guild as nat);
    let dc = decimal(channel as nat);
    let dm = decimal(message as nat);
    let s = p + dg + seq!['/'] + dc + seq!['/'] + dm;
    crate::text::lemma_decimal_roundtrip(guild as nat);
    crate::text::lemma_decimal_roundtrip(channel as nat);
    crate::text::lemma_decimal_roundtrip(message as nat);
    reveal_with_fuel(crate::text::pow10_nat, 8);
    crate::text::lemma_decimal_len(guild as nat, 7);
    crate::text::lemma_decimal_len(channel as nat, 7);
    crate::text::lemma_decimal_len(message as nat, 7);
    assert(p.len() == 29);
    let a: int = 29;
    let b: int = a + dg.len() + 1;
    let c: int = b + dc.len() + 1;
    assert(s.subrange(0, 29) =~= p);
    assert forall|k: int| a <= k < a + dg.len() implies crate::text::is_digit(#[trigger] s[k]) by {
        assert(s[k] == dg[k - a]);
    }
    assert(s[a + dg.len()] == '/');
    crate::text::lemma_digit_run(s, a, dg.len());
    assert forall|k: int| b <= k < b + dc.len() implies crate::text::is_digit(#[trigger] s[k]) by {
        assert(s[k] == dc[k - b]);
    }
    assert(s[b + dc.len()] == '/');
    crate::text::lemma_digit_run(s, b, dc.len());
    assert forall|k: int| c <= k < c + dm.len() implies crate::text::is_digit(#[trigger] s[k]) by {
        assert(s[k] == dm[k - c]);
    }
    assert(c + dm.len() == s.len());
    crate::text::lemma_digit_run(s, c, dm.len());
    assert(s.subrange(a, a + dg.len()) =~= dg);
    assert(s.subrange(b, b + dc.len()) =~= dc);
    assert(s.subrange(c, c + dm.len()) =~= dm);
    assert(msg_link_at(s, 0) == Some((dg, dc, dm)));
    lemma_parse_id_decimal(guild);
    lemma_parse_id_decimal(channel);
    lemma_parse_id_decimal(message);
}

} // verus!

verus! {

/// No message link starts inside text without an `h`.
proof fn lemma_no_link_before(s: Seq<char>, q: Seq<char>, p: int)
    requires
        0 <= p <= q.len() <= s.len(),
        s.subrange(0, q.len() as int) == q,
        forall|i: int| 0 <= i < q.len() ==> q[i] != 'h',
    ensures
        first_msg_link_from(s, p) == first_msg_link_from(s, q.len() as int),
    decreases q.len() - p,
{
    if p < q.len() {
        lemma_no_link_before(s, q, p + 1);
        reveal_strlit("https://discord.com/channels/");
        assert(s[p] == q[p]);
        if holds_at(s, p, msg_link_prefix()) {
            assert(s.subrange(p, p + 29)[0] == s[p]);
        }
        assert(msg_link_at(s, p) is None);
    }
}

/// A message link read from running text gives its server, channel and
/// message IDs, whatever text without an `h` stands before it and whatever
/// text not starting with a digit follows it (such as the `<` and `>` that
/// keep Discord from embedding it).
pub proof fn lemma_msg_link_in_text(before: Seq<char>, guild: u64, channel: u64, message: u64, after: Seq<char>)
    requires
        guild >= 10_000_000,
        channel >= 10_000_000,
        message >= 10_000_000,
        forall|i: int| 0 <= i < before.len() ==> before[i] != 'h',
        after.len() == 0 || !crate::text::is_digit(after[0]),
    ensures
        spec_ids_from_msg_link(
            before + (msg_link_prefix() + decimal(guild as nat) + seq!['/'] + decimal(channel as nat) + seq!['/']
                + decimal(message as nat)) + after,
        ) == Some((guild, channel, message)),
{
    reveal_strlit("https://discord.com/channels/");
    let p = msg_link_prefix();
    let dg = decimal(guild as nat);
    let dc = decimal(channel as nat);
    let dm = decimal(message as nat);
    let link = p + dg + seq!['/'] + dc + seq!['/'] + dm;
    let s = before + link + after;
    let o = before.len() as int;
    crate::text::lemma_decimal_roundtrip(guild as nat);
    crate::text::lemma_decimal_roundtrip(channel as nat);
    crate::text::lemma_decimal_roundtrip(message as nat);
    reveal_with_fuel(crate::text::pow10_nat, 8);
    crate::text::lemma_decimal_len(guild as nat, 7);
    crate::text::lemma_decimal_len(channel as nat, 7);
    crate::text::lemma_decimal_len(message as nat, 7);
    assert(p.len() == 29);
    assert(s.subrange(0, o) =~= before);
    lemma_no_link_before(s, before, 0);
    let a: int = o + 29;
    let b: int = a + dg.len() + 1;
    let c: int = b + dc.len() + 1;
    let e: int = c + dm.len();
    assert(s.subrange(o, o + 29) =~= p);
    assert forall|k: int| a <= k < a + dg.len() implies crate::text::is_digit(#[trigger] s[k]) by {
        assert(s[k] == dg[k - a]);
    }
    assert(s[a + dg.len()] == '/');
    crate::text::lemma_digit_run(s, a, dg.len());
    assert forall|k: int| b <= k < b + dc.len() implies crate::text::is_digit(#[trigger] s[k]) by {
        assert(s[k] == dc[k - b]);
    }
    assert(s[b + dc.len()] == '/');
    crate::text::lemma_digit_run(s, b, dc.len());
    assert forall|k: int| c <= k < e implies crate::text::is_digit(#[trigger] s[k]) by {
        assert(s[k] == dm[k - c]);
    }
    if after.len() > 0 {
        assert(s[e] == after[0]);
    }
    assert(e == s.len() || !crate::text::is_digit(s[e]));
    crate::text::lemma_digit_run(s, c, dm.len());
    assert(s.subrange(a, a + dg.len()) =~= dg);
    assert(s.subrange(b, b + dc.len()) =~= dc);
    assert(s.subrange(c, e) =~= dm);
    assert(msg_link_at(s, o) == Some((dg, dc, dm)));
    assert(o < s.len());
    assert(first_msg_link_from(s, o) == Some((dg, dc, dm)));
    lemma_parse_id_decimal(guild);
    lemma_parse_id_decimal(channel);
    lemma_parse_id_decimal(message);
}

} // verus!
