//! Vocaroo links: finding the recordings a message links to, checking what
//! the server says of each before downloading it, and the limits on what is
//! sent back.
use vstd::prelude::*;
use vstd::string::StringExecFns;
use crate::text::{
    chars_of, decimal, holds_at, holds_at_exec, push_char, push_decimal, push_str, spec_parse_u64, str_eq,
};

verus! {

/// The total size of the recordings converted for one message: 6 MiB.
pub const TOTAL_MAX_VOCAROO_SIZE: usize = 6291456;

/// The most recordings sent back for one message.
pub const VOCAROO_ATTACHMENT_LIMIT: usize = 8;

/// Why a Vocaroo recording could not be converted.
#[derive(Debug, Clone)]
pub enum VocarooError {
    /// No Vocaroo link was found in the text.
    InvalidUrls(String),
    /// The HEAD request for the link failed, with the request error's text.
    FailedHead(String, String),
    /// The GET request for the link failed, with the request error's text.
    FailedGet(String, String),
    NoContentType(String),
    ContentTypeNotVisibleASCII(String),
    ContentTypeNotMp3(String),
    /// The download answered this status.
    FailedDownload(String, u16),
    NoContentLength(String),
    ContentLengthNotVisibleASCII(String),
    /// The content length header is visible ASCII but no number.
    ContentLengthNotNumber(String),
    /// The body could not be read, with the request error's text.
    BodyToBytesFailure(String, String),
    /// Converting the recording would go past the total size limit.
    OverSizeLimit(String, usize),
}

/// Whether an error is reported as an error; the others are expected and
/// only logged quietly: no link, a failed download, a recording over the
/// size limit or one that is no MP3.
pub open spec fn spec_is_severe(error: VocarooError) -> bool {
    !(error is InvalidUrls || error is FailedDownload || error is OverSizeLimit || error is ContentTypeNotMp3)
}

/// Whether an error is severe (see [`spec_is_severe`]).
pub fn log_and_check_is_severe(error: &VocarooError) -> (r: bool)
    ensures
        r == spec_is_severe(*error),
{
    match error {
        VocarooError::InvalidUrls(_) => false,
        VocarooError::FailedDownload(_, _) => false,
        VocarooError::OverSizeLimit(_, _) | VocarooError::ContentTypeNotMp3(_) => false,
        _ => true,
    }
}

pub open spec fn is_id_char(c: char) -> bool {
    ('a' <= c && c <= 'z') || ('A' <= c && c <= 'Z') || ('0' <= c && c <= '9')
}

/// The length of the run of ID characters of `s` from `p` on.
pub open spec fn id_run(s: Seq<char>, p: int) -> nat
    decreases s.len() - p,
{
    if p < 0 || p >= s.len() || !is_id_char(s[p]) {
        0
    } else {
        1 + id_run(s, p + 1)
    }
}

/// The length of what comes before the ID in a Vocaroo link starting at
/// `p`: `http://` or `https://`, an optional `www.`, then `voca.ro/` or
/// `vocaroo.com/`.
pub open spec fn link_prefix_len(s: Seq<char>, p: int) -> Option<nat> {
    let scheme: int = if holds_at(s, p, "https://"@) {
        8
    } else if holds_at(s, p, "http://"@) {
        7
    } else {
        -1
    };
    if scheme < 0 {
        None
    } else {
        let host = if holds_at(s, p + scheme, "www."@) { p + scheme + 4 } else { p + scheme };
        if holds_at(s, host, "voca.ro/"@) {
            Some((host + 8 - p) as nat)
        } else if holds_at(s, host, "vocaroo.com/"@) {
            Some((host + 12 - p) as nat)
        } else {
            None
        }
    }
}

/// The ID of the Vocaroo link starting at `p`, with where it ends.
pub open spec fn link_at(s: Seq<char>, p: int) -> Option<(int, int)> {
    match link_prefix_len(s, p) {
        Some(k) => if id_run(s, p + k) > 0 {
            Some((p + k, p + k + id_run(s, p + k)))
        } else {
            None
        },
        None => None,
    }
}

/// The IDs of the Vocaroo links of `s` from position `pos` on, found left
/// to right, each search going on after the link found.
pub open spec fn vocaroo_ids_from(s: Seq<char>, pos: int) -> Seq<Seq<char>>
    decreases s.len() - pos,
{
    if pos < 0 || pos >= s.len() {
        seq![]
    } else {
        match link_at(s, pos) {
            Some((start, end)) => if pos < end <= s.len() {
                seq![s.subrange(start, end)] + vocaroo_ids_from(s, end)
            } else {
                seq![]
            },
            None => vocaroo_ids_from(s, pos + 1),
        }
    }
}

fn id_run_exec(cs: &Vec<char>, p: usize) -> (r: usize)
    requires
        p <= cs@.len(),
    ensures
        r == id_run(cs@, p as int),
        p + r <= cs@.len(),
{
    let mut q: usize = p;
    while q < cs.len() && (('a' <= cs[q] && cs[q] <= 'z') || ('A' <= cs[q] && cs[q] <= 'Z') || ('0' <= cs[q] && cs[q] <= '9'))
        invariant
            p <= q <= cs@.len(),
            id_run(cs@, p as int) == (q - p) + id_run(cs@, q as int),
        decreases cs@.len() - q,
    {
        q = q + 1;
    }
    q - p
}

fn link_at_exec(cs: &Vec<char>, p: usize) -> (r: Option<(usize, usize)>)
    requires
        p < cs@.len(),
    ensures
        match r {
            Some((a, b)) => link_at(cs@, p as int) == Some((a as int, b as int)) && b <= cs@.len(),
            None => link_at(cs@, p as int) is None,
        },
{
    proof {
        reveal_strlit("https://");
        reveal_strlit("http://");
        reveal_strlit("www.");
        reveal_strlit("voca.ro/");
        reveal_strlit("vocaroo.com/");
    }
    let scheme: usize;
    if holds_at_exec(cs, p, "https://") {
        assert("https://"@.len() == 8);
        scheme = 8;
    } else if holds_at_exec(cs, p, "http://") {
        assert("http://"@.len() == 7);
        scheme = 7;
    } else {
        return None;
    }
    let n = cs.len();
    assert(p + scheme <= n);
    let host: usize;
    if holds_at_exec(cs, p + scheme, "www.") {
        assert("www."@.len() == 4);
        host = p + scheme + 4;
    } else {
        host = p + scheme;
    }
    let k: usize;
    if holds_at_exec(cs, host, "voca.ro/") {
        assert("voca.ro/"@.len() == 8);
        k = host + 8 - p;
    } else if holds_at_exec(cs, host, "vocaroo.com/") {
        assert("vocaroo.com/"@.len() == 12);
        k = host + 12 - p;
    } else {
        return None;
    }
    let run = id_run_exec(cs, p + k);
    if run > 0 {
        Some((p + k, p + k + run))
    } else {
        None
    }
}

/// The MP3 addresses of the Vocaroo recordings linked to in a text, in
/// order.
pub fn get_vocaroo_mp3_urls(url_str: &str) -> (r: Vec<String>)
    ensures
        r@.len() == vocaroo_ids_from(url_str@, 0).len(),
        forall|i: int|
            0 <= i < r@.len() ==> (#[trigger] r@[i])@ == "https://media.vocaroo.com/mp3/"@ + vocaroo_ids_from(
                url_str@,
                0,
            )[i],
{
    let cs = chars_of(url_str);
    let ghost s = url_str@;
    let mut urls: Vec<String> = Vec::new();
    let mut pos: usize = 0;
    while pos < cs.len()
        invariant
            cs@ == s,
            pos <= cs@.len(),
            urls@.len() + vocaroo_ids_from(s, pos as int).len() == vocaroo_ids_from(s, 0).len(),
            forall|i: int|
                0 <= i < urls@.len() ==> (#[trigger] urls@[i])@ == "https://media.vocaroo.com/mp3/"@
                    + vocaroo_ids_from(s, 0)[i],
            forall|i: int|
                0 <= i < vocaroo_ids_from(s, pos as int).len() ==> vocaroo_ids_from(s, pos as int)[i]
                    == vocaroo_ids_from(s, 0)[urls@.len() + i],
        decreases cs@.len() - pos,
    {
        match link_at_exec(&cs, pos) {
            Some((start, end)) => {
                let ghost rest = vocaroo_ids_from(s, end as int);
                assert(vocaroo_ids_from(s, pos as int) == seq![s.subrange(start as int, end as int)] + rest);
                let mut url = String::from_str("https://media.vocaroo.com/mp3/");
                let mut k: usize = start;
                while k < end
                    invariant
                        cs@ == s,
                        start <= k <= end <= cs@.len(),
                        url@ == "https://media.vocaroo.com/mp3/"@ + s.subrange(start as int, k as int),
                    decreases end - k,
                {
                    crate::text::push_char(&mut url, cs[k]);
                    assert(s.subrange(start as int, k + 1) =~= s.subrange(start as int, k as int).push(s[k as int]));
                    k = k + 1;
                }
                proof {
                    assert(vocaroo_ids_from(s, pos as int)[0] == s.subrange(start as int, end as int));
                    assert forall|i: int| 0 <= i < rest.len() implies rest[i] == vocaroo_ids_from(s, 0)[urls@.len() + 1 + i] by {
                        assert(vocaroo_ids_from(s, pos as int)[1 + i] == rest[i]);
                    }
                }
                urls.push(url);
                pos = end;
            },
            None => {
                pos = pos + 1;
            },
        }
    }
    urls
}

} // verus!

verus! {

/// What `usize::from_str` accepts: an optional `+`, then decimal digits
/// whose value fits.
pub open spec fn spec_parse_usize(s: Seq<char>) -> Option<usize> {
    match spec_parse_u64(s) {
        Some(v) => if v <= usize::MAX {
            Some(v as usize)
        } else {
            None
        },
        None => None,
    }
}

/// The size of a recording from the headers of its HEAD response: each
/// header is `None` where missing and `Some(None)` where not visible ASCII.
/// The recording must be an MP3 (`audio/mpeg`) with a numeric length.
pub fn get_content_length(
    url: &str,
    content_type: Option<Option<String>>,
    content_length: Option<Option<String>>,
) -> (r: Result<usize, VocarooError>)
    ensures
        match content_type {
            None => r matches Err(VocarooError::NoContentType(u)) && u@ == url@,
            Some(None) => r matches Err(VocarooError::ContentTypeNotVisibleASCII(u)) && u@ == url@,
            Some(Some(t)) => if t@ != "audio/mpeg"@ {
                r matches Err(VocarooError::ContentTypeNotMp3(u)) && u@ == url@
            } else {
                match content_length {
                    None => r matches Err(VocarooError::NoContentLength(u)) && u@ == url@,
                    Some(None) => r matches Err(VocarooError::ContentLengthNotVisibleASCII(u)) && u@ == url@,
                    Some(Some(l)) => match spec_parse_usize(l@) {
                        Some(n) => r == Ok::<usize, VocarooError>(n),
                        None => r matches Err(VocarooError::ContentLengthNotNumber(u)) && u@ == url@,
                    },
                }
            },
        },
{
    let t = match content_type {
        None => {
            return Err(VocarooError::NoContentType(url.to_string()));
        },
        Some(None) => {
            return Err(VocarooError::ContentTypeNotVisibleASCII(url.to_string()));
        },
        Some(Some(t)) => t,
    };
    if !str_eq(t.as_str(), "audio/mpeg") {
        return Err(VocarooError::ContentTypeNotMp3(url.to_string()));
    }
    let l = match content_length {
        None => {
            return Err(VocarooError::NoContentLength(url.to_string()));
        },
        Some(None) => {
            return Err(VocarooError::ContentLengthNotVisibleASCII(url.to_string()));
        },
        Some(Some(l)) => l,
    };
    let cs = chars_of(l.as_str());
    match crate::text::parse_u64(cs.as_slice()) {
        Some(v) => {
            if v <= usize::MAX as u64 {
                Ok(v as usize)
            } else {
                Err(VocarooError::ContentLengthNotNumber(url.to_string()))
            }
        },
        None => Err(VocarooError::ContentLengthNotNumber(url.to_string())),
    }
}

/// The running total of the sizes of a message's recordings after one more,
/// and whether it goes past the limit.
pub fn add_recording_size(total: usize, content_length: usize, max_size: usize) -> (r: (usize, bool))
    requires
        total + content_length <= usize::MAX,
    ensures
        r.0 == total + content_length,
        r.1 == (total + content_length > max_size),
{
    let new_total = total + content_length;
    (new_total, new_total > max_size)
}

/// How the bot reacts to a message whose recordings it converted.
#[derive(Debug, Copy, Clone, PartialEq, Eq, Structural)]
pub enum VocarooReaction {
    /// Every recording was converted.
    NoReaction,
    /// Some recordings failed; the others are sent.
    Warning,
    /// Every recording failed; nothing is sent.
    Failure,
}

/// The reaction to a message with `recording_count` recordings left after
/// dropping the severe errors, `err_count` of them failed.
pub fn vocaroo_reaction(recording_count: usize, err_count: usize) -> (r: VocarooReaction)
    ensures
        r == (if err_count == recording_count {
            VocarooReaction::Failure
        } else if err_count > 0 {
            VocarooReaction::Warning
        } else {
            VocarooReaction::NoReaction
        }),
{
    if err_count == recording_count {
        VocarooReaction::Failure
    } else if err_count > 0 {
        VocarooReaction::Warning
    } else {
        VocarooReaction::NoReaction
    }
}

/// The text sent with the converted recordings of a user's message.
pub fn vocaroo_message(user_id: u64) -> (r: String)
    ensures
        r@ == "Here is <@"@ + decimal(user_id as nat) + ">'s vocaroo link as an MP3 file. This is limited to 1 per message."@,
{
    let mut s = String::from_str("Here is <@");
    push_decimal(&mut s, user_id);
    push_str(&mut s, ">'s vocaroo link as an MP3 file. This is limited to 1 per message.");
    s
}

/// The reply to enabling the conversions, whether or not they were
/// enabled before.
pub fn enable_reply(newly_enabled: bool) -> (r: &'static str)
    ensures
        r@ == (if newly_enabled {
            "Enabled Vocaroo to MP3 conversions."@
        } else {
            "Vocaroo to MP3 conversions are already enabled on this server."@
        }),
{
    if newly_enabled {
        "Enabled Vocaroo to MP3 conversions."
    } else {
        "Vocaroo to MP3 conversions are already enabled on this server."
    }
}

/// The reply to disabling the conversions, whether or not they were
/// enabled before.
pub fn disable_reply(newly_disabled: bool) -> (r: &'static str)
    ensures
        r@ == (if newly_disabled {
            "Disabled Vocaroo to MP3 conversions."@
        } else {
            "Vocaroo to MP3 conversions are already disabled on this server."@
        }),
{
    if newly_disabled {
        "Disabled Vocaroo to MP3 conversions."
    } else {
        "Vocaroo to MP3 conversions are already disabled on this server."
    }
}

/// The reply to asking whether the conversions are enabled.
pub fn enabled_status_reply(enabled: bool) -> (r: &'static str)
    ensures
        r@ == (if enabled {
            "Vocaroo to MP3 conversions are enabled in this server."@
        } else {
            "Vocaroo to MP3 conversions are disabled in this server."@
        }),
{
    if enabled {
        "Vocaroo to MP3 conversions are enabled in this server."
    } else {
        "Vocaroo to MP3 conversions are disabled in this server."
    }
}

} // verus!

verus! {

/// Every Vocaroo ID found is a non-empty run of ASCII letters and digits.
pub proof fn lemma_vocaroo_ids(s: Seq<char>, pos: int)
    ensures
        forall|i: int|
            0 <= i < vocaroo_ids_from(s, pos).len() ==> {
                let id = #[trigger] vocaroo_ids_from(s, pos)[i];
                &&& id.len() > 0
                &&& forall|k: int| 0 <= k < id.len() ==> is_id_char(#[trigger] id[k])
            },
    decreases s.len() - pos,
{
    if 0 <= pos < s.len() {
        let lk = link_at(s, pos);
        if lk is Some {
            let pair = lk->0;
            let start = pair.0;
            let end = pair.1;
            if pos < end <= s.len() {
                lemma_vocaroo_ids(s, end);
                lemma_id_run_chars(s, start);
                let ids = vocaroo_ids_from(s, pos);
                let rest = vocaroo_ids_from(s, end);
                let id0 = s.subrange(start, end);
                assert(ids == seq![id0] + rest);
                assert(end == start + id_run(s, start));
                assert(id0.len() > 0);
                assert forall|j: int| 0 <= j < id0.len() implies is_id_char(#[trigger] id0[j]) by {
                    assert(id0[j] == s[start + j]);
                }
                assert forall|i: int| 0 <= i < ids.len() implies {
                    let id = #[trigger] ids[i];
                    &&& id.len() > 0
                    &&& forall|k: int| 0 <= k < id.len() ==> is_id_char(#[trigger] id[k])
                } by {
                    if i == 0 {
                        assert(ids[0] == id0);
                    } else {
                        assert(ids[i] == rest[i - 1]);
                    }
                }
            } else {
                assert(vocaroo_ids_from(s, pos) =~= Seq::<Seq<char>>::empty());
            }
        } else {
            lemma_vocaroo_ids(s, pos + 1);
            assert(vocaroo_ids_from(s, pos) == vocaroo_ids_from(s, pos + 1));
        }
    } else {
        assert(vocaroo_ids_from(s, pos) =~= Seq::<Seq<char>>::empty());
    }
}

/// The characters of a run of ID characters are ID characters.
proof fn lemma_id_run_chars(s: Seq<char>, p: int)
    ensures
        forall|k: int| p <= k < p + id_run(s, p) ==> is_id_char(#[trigger] s[k]),
        0 <= p <= s.len() ==> p + id_run(s, p) <= s.len(),
    decreases s.len() - p,
{
    if 0 <= p < s.len() && is_id_char(s[p]) {
        lemma_id_run_chars(s, p + 1);
    }
}

} // verus!

verus! {

/// Where `lit` first occurs in `s`, looking from position `p` on.
pub open spec fn first_occurrence_from(s: Seq<char>, lit: Seq<char>, p: int) -> Option<int>
    decreases s.len() + 1 - p,
{
    if p < 0 || p > s.len() {
        None
    } else if holds_at(s, p, lit) {
        Some(p)
    } else {
        first_occurrence_from(s, lit, p + 1)
    }
}

/// The part of a message that may link to recordings: from its first
/// `http` on; `None` where it has none.
pub fn links_text(content: &str) -> (r: Option<String>)
    ensures
        match first_occurrence_from(content@, "http"@, 0) {
            Some(p) => r matches Some(t) && t@ == content@.skip(p),
            None => r is None,
        },
{
    let cs = chars_of(content);
    let mut p: usize = 0;
    while p < cs.len()
        invariant
            cs@ == content@,
            p <= cs@.len(),
            first_occurrence_from(content@, "http"@, 0) == first_occurrence_from(content@, "http"@, p as int),
        decreases cs@.len() - p,
    {
        if holds_at_exec(&cs, p, "http") {
            let mut t = String::new();
            let mut k: usize = p;
            while k < cs.len()
                invariant
                    cs@ == content@,
                    p <= k <= cs@.len(),
                    t@ == content@.subrange(p as int, k as int),
                decreases cs@.len() - k,
            {
                push_char(&mut t, cs[k]);
                k = k + 1;
                assert(t@ =~= content@.subrange(p as int, k as int));
            }
            assert(t@ =~= content@.skip(p as int));
            return Some(t);
        }
        p = p + 1;
    }
    proof {
        reveal_strlit("http");
        assert(!holds_at(content@, p as int, "http"@));
        assert(first_occurrence_from(content@, "http"@, p + 1) is None);
    }
    None
}

} // verus!

verus! {

/// A run of ID characters ends at the end of the text or at a character
/// that cannot be part of an ID.
proof fn lemma_id_run_end(s: Seq<char>, p: int)
    requires
        0 <= p <= s.len(),
    ensures
        p + id_run(s, p) == s.len() || !is_id_char(s[p + id_run(s, p)]),
    decreases s.len() - p,
{
    if p < s.len() && is_id_char(s[p]) {
        lemma_id_run_end(s, p + 1);
    }
}

/// A link prefix is not empty and ends with `/`.
proof fn lemma_link_prefix_slash(s: Seq<char>, p: int)
    requires
        link_prefix_len(s, p) is Some,
    ensures
        ({
            let k = link_prefix_len(s, p)->0;
            &&& k > 0
            &&& p + k <= s.len()
            &&& s[p + k - 1] == '/'
        }),
{
    reveal_strlit("https://");
    reveal_strlit("http://");
    reveal_strlit("www.");
    reveal_strlit("voca.ro/");
    reveal_strlit("vocaroo.com/");
    let scheme: int = if holds_at(s, p, "https://"@) {
        8
    } else {
        7
    };
    let host = if holds_at(s, p + scheme, "www."@) { p + scheme + 4 } else { p + scheme };
    if holds_at(s, host, "voca.ro/"@) {
        assert(s.subrange(host, host + 8)[7] == s[host + 7]);
    } else {
        assert(holds_at(s, host, "vocaroo.com/"@));
        assert(s.subrange(host, host + 12)[11] == s[host + 11]);
    }
}

/// Whether `id` stands whole in `s` after position `from`: right after a
/// `/`, and followed by the end of the text or by a character that cannot
/// be part of an ID.
pub open spec fn stands_whole(s: Seq<char>, id: Seq<char>, from: int) -> bool {
    exists|a: int, b: int|
        from < a < b <= s.len() && #[trigger] s.subrange(a, b) == id && s[a - 1] == '/' && (b == s.len() || !is_id_char(s[b]))
}

/// Every Vocaroo ID found is taken whole from the text: it starts right
/// after the `/` of its link and runs on until the text ends or a character
/// comes that cannot be part of an ID, so no ID is ever cut short.
pub proof fn lemma_vocaroo_ids_whole(s: Seq<char>, pos: int)
    requires
        0 <= pos,
    ensures
        forall|i: int|
            0 <= i < vocaroo_ids_from(s, pos).len() ==> stands_whole(s, #[trigger] vocaroo_ids_from(s, pos)[i], pos),
    decreases s.len() - pos,
{
    if pos < s.len() {
        let ids = vocaroo_ids_from(s, pos);
        if let Some((start, end)) = link_at(s, pos) {
            if pos < end <= s.len() {
                lemma_vocaroo_ids_whole(s, end);
                lemma_link_prefix_slash(s, pos);
                lemma_id_run_end(s, start);
                let rest = vocaroo_ids_from(s, end);
                let id0 = s.subrange(start, end);
                assert(ids == seq![id0] + rest);
                assert(end == start + id_run(s, start));
                assert(end == s.len() || !is_id_char(s[end]));
                assert forall|i: int| 0 <= i < ids.len() implies stands_whole(s, #[trigger] ids[i], pos) by {
                    if i == 0 {
                        assert(ids[0] == id0);
                        assert(pos < start < end <= s.len() && s.subrange(start, end) == id0 && s[start - 1] == '/'
                            && (end == s.len() || !is_id_char(s[end])));
                    } else {
                        assert(ids[i] == rest[i - 1]);
                        assert(stands_whole(s, rest[i - 1], end));
                        let (a, b) = choose|a: int, b: int|
                            end < a < b <= s.len() && #[trigger] s.subrange(a, b) == rest[i - 1] && s[a - 1] == '/' && (b
                                == s.len() || !is_id_char(s[b]));
                        assert(pos < a < b <= s.len() && s.subrange(a, b) == ids[i] && s[a - 1] == '/' && (b
                            == s.len() || !is_id_char(s[b])));
                    }
                }
            } else {
                assert(ids =~= Seq::<Seq<char>>::empty());
            }
        } else {
            lemma_vocaroo_ids_whole(s, pos + 1);
            assert(ids == vocaroo_ids_from(s, pos + 1));
            assert forall|i: int| 0 <= i < ids.len() implies stands_whole(s, #[trigger] ids[i], pos) by {
                assert(stands_whole(s, ids[i], pos + 1));
                let (a, b) = choose|a: int, b: int|
                    pos + 1 < a < b <= s.len() && #[trigger] s.subrange(a, b) == ids[i] && s[a - 1] == '/' && (b == s.len()
                        || !is_id_char(s[b]));
                assert(pos < a < b <= s.len() && s.subrange(a, b) == ids[i] && s[a - 1] == '/' && (b == s.len()
                    || !is_id_char(s[b])));
            }
        }
    }
}

} // verus!
