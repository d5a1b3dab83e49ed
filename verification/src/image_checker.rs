//! Banned images: the images of a message, the outcomes of banning and
//! unbanning one, and whether an image matches a banned one by its hash.
use vstd::prelude::*;
use vstd::string::StringExecFns;

verus! {

/// The hash function of a banned image.
#[derive(Debug, Copy, Clone, PartialEq, Eq, Structural)]
pub enum HashType {
    Blake3,
}

impl HashType {
    /// The hash type stored as `discriminant`.
    pub fn from_repr(discriminant: usize) -> (r: Option<HashType>)
        ensures
            r == (if discriminant == 0 { Some(HashType::Blake3) } else { None::<HashType> }),
    {
        if discriminant == 0 {
            Some(HashType::Blake3)
        } else {
            None
        }
    }

    /// The number the hash type is stored as.
    pub fn repr(&self) -> (r: u16)
        ensures
            r == 0,
    {
        match self {
            HashType::Blake3 => 0,
        }
    }

    /// The name of the hash type.
    pub fn name(&self) -> (r: &'static str)
        ensures
            r@ == "BLAKE3"@,
    {
        match self {
            HashType::Blake3 => "BLAKE3",
        }
    }
}

/// How banning or unbanning an image went.
#[derive(Debug, Copy, Clone, PartialEq, Eq, Structural)]
pub enum ImageOpOutcome {
    Success,
    NotOneAttachment,
    NotFound,
    Duplicate,
}

impl ImageOpOutcome {
    /// What the outcome says.
    pub fn message(&self) -> (r: &'static str)
        ensures
            r@ == match self {
                ImageOpOutcome::Success => "Operation succeeded"@,
                ImageOpOutcome::NotOneAttachment => "Must provide message with exactly one image"@,
                ImageOpOutcome::NotFound => "Message provided has no banned image"@,
                ImageOpOutcome::Duplicate => "Image from message provided is already banned"@,
            },
    {
        match self {
            ImageOpOutcome::Success => "Operation succeeded",
            ImageOpOutcome::NotOneAttachment => "Must provide message with exactly one image",
            ImageOpOutcome::NotFound => "Message provided has no banned image",
            ImageOpOutcome::Duplicate => "Image from message provided is already banned",
        }
    }
}

/// The outcome of banning the images of a message: it must have exactly
/// one, and that one must not be banned yet (the insertion changed a row).
pub fn add_image_outcome(image_count: usize, rows_updated: usize) -> (r: ImageOpOutcome)
    ensures
        r == (if image_count != 1 {
            ImageOpOutcome::NotOneAttachment
        } else if rows_updated == 0 {
            ImageOpOutcome::Duplicate
        } else {
            ImageOpOutcome::Success
        }),
{
    if image_count != 1 {
        ImageOpOutcome::NotOneAttachment
    } else if rows_updated == 0 {
        ImageOpOutcome::Duplicate
    } else {
        ImageOpOutcome::Success
    }
}

/// The outcome of unbanning the image of a message: it must have been
/// banned (the deletion changed a row).
pub fn remove_image_outcome(rows_updated: usize) -> (r: ImageOpOutcome)
    ensures
        r == (if rows_updated == 0 { ImageOpOutcome::NotFound } else { ImageOpOutcome::Success }),
{
    if rows_updated == 0 {
        ImageOpOutcome::NotFound
    } else {
        ImageOpOutcome::Success
    }
}

/// The byte count from which an image is hashed on a blocking task: 9 MB.
pub const LIMIT_FOR_BLOCKING_TASK: usize = 9_000_000;

/// Whether an image of `len` bytes is hashed on a blocking task.
pub fn hash_on_blocking_task(len: usize) -> (r: bool)
    ensures
        r == (len >= LIMIT_FOR_BLOCKING_TASK),
{
    len >= LIMIT_FOR_BLOCKING_TASK
}

/// The BLAKE3 hash of some bytes.
pub uninterp spec fn blake3_hash(bytes: Seq<u8>) -> Seq<u8>;

/// Hashes bytes with BLAKE3 (`blake3::hash`); the hash is 32 bytes long.
#[verifier::external_body]
fn blake3_digest(bytes: &[u8]) -> (r: Vec<u8>)
    ensures
        r@ == blake3_hash(bytes@),
        r@.len() == 32,
{
    blake3::hash(bytes).as_bytes().to_vec()
}

/// The hash of an image.
pub fn calc_image_hash(image: &[u8]) -> (r: Vec<u8>)
    ensures
        r@ == blake3_hash(image@),
        r@.len() == 32,
{
    blake3_digest(image)
}

/// Whether an image passes a server's filter: no banned image has its
/// dimensions (then it is not even hashed), or none has its hash.
pub fn check_image(banned_hashes: &Vec<Vec<u8>>, image: &[u8]) -> (r: bool)
    ensures
        r == (banned_hashes@.len() == 0 || forall|i: int|
            0 <= i < banned_hashes@.len() ==> (#[trigger] banned_hashes@[i])@ != blake3_hash(image@)),
{
    if banned_hashes.len() == 0 {
        return true;
    }
    let hash = calc_image_hash(image);
    let mut i: usize = 0;
    while i < banned_hashes.len()
        invariant
            i <= banned_hashes@.len(),
            hash@ == blake3_hash(image@),
            forall|k: int| 0 <= k < i ==> (#[trigger] banned_hashes@[k])@ != blake3_hash(image@),
        decreases banned_hashes@.len() - i,
    {
        if bytes_eq(&banned_hashes[i], &hash) {
            return false;
        }
        i = i + 1;
    }
    true
}

/// The message link of the first banned image that an image matches by
/// hash; none where none does (where none is listed, the image is not even
/// hashed).
pub fn find_banned_image(banned: &Vec<(Vec<u8>, String)>, image: &[u8]) -> (r: Option<String>)
    ensures
        match r {
            Some(link) => exists|i: int|
                0 <= i < banned@.len() && (#[trigger] banned@[i]).0@ == blake3_hash(image@) && banned@[i].1@
                    == link@ && forall|j: int| 0 <= j < i ==> (#[trigger] banned@[j]).0@ != blake3_hash(image@),
            None => forall|i: int| 0 <= i < banned@.len() ==> (#[trigger] banned@[i]).0@ != blake3_hash(image@),
        },
{
    if banned.len() == 0 {
        return None;
    }
    let hash = calc_image_hash(image);
    let mut i: usize = 0;
    while i < banned.len()
        invariant
            i <= banned@.len(),
            hash@ == blake3_hash(image@),
            forall|k: int| 0 <= k < i ==> (#[trigger] banned@[k]).0@ != blake3_hash(image@),
        decreases banned@.len() - i,
    {
        if bytes_eq(&banned[i].0, &hash) {
            return Some(banned[i].1.clone());
        }
        i = i + 1;
    }
    None
}

/// Whether two byte strings are equal.
fn bytes_eq(a: &Vec<u8>, b: &Vec<u8>) -> (r: bool)
    ensures
        r == (a@ == b@),
{
    if a.len() != b.len() {
        return false;
    }
    let mut i: usize = 0;
    while i < a.len()
        invariant
            a@.len() == b@.len(),
            i <= a@.len(),
            forall|k: int| 0 <= k < i ==> a@[k] == b@[k],
        decreases a@.len() - i,
    {
        if a[i] != b[i] {
            return false;
        }
        i = i + 1;
    }
    assert(a@ =~= b@);
    true
}

/// The lowercase hexadecimal digit of `n`.
pub open spec fn hex_digit(n: nat) -> char {
    if n < 10 {
        ((n + '0' as nat) as u32) as char
    } else {
        ((n - 10 + 'a' as nat) as u32) as char
    }
}

/// Bytes written in lowercase hexadecimal, two digits each.
pub open spec fn hex_text(bytes: Seq<u8>) -> Seq<char>
    decreases bytes.len(),
{
    if bytes.len() == 0 {
        seq![]
    } else {
        hex_text(bytes.drop_last()) + seq![hex_digit(bytes.last() as nat / 16), hex_digit(bytes.last() as nat % 16)]
    }
}

/// Writes bytes in lowercase hexadecimal (`hex::encode`).
#[verifier::external_body]
pub(crate) fn hex_encode(bytes: &Vec<u8>) -> (r: String)
    ensures
        r@ == hex_text(bytes@),
{
    hex::encode(bytes)
}

/// A banned image as listed.
#[derive(Debug, Clone)]
pub struct ImageResult {
    pub link_ref: String,
    pub width: u32,
    pub height: u32,
    pub description: String,
    pub hash_hex: String,
    pub hash_type: u32,
}

impl ImageResult {
    /// A banned image from its stored columns, its hash written in
    /// hexadecimal.
    pub fn from_row(
        link_ref: String,
        width: u32,
        height: u32,
        description: String,
        hash: Vec<u8>,
        hash_type: u32,
    ) -> (r: ImageResult)
        ensures
            r.link_ref == link_ref,
            r.width == width,
            r.height == height,
            r.description == description,
            r.hash_hex@ == hex_text(hash@),
            r.hash_type == hash_type,
    {
        let hash_hex = hex_encode(&hash);
        ImageResult { link_ref, width, height, description, hash_hex, hash_type }
    }
}

/// An image of a message: where it is and its dimensions, where known.
#[derive(Debug, Clone)]
pub struct ImageSource {
    pub url: String,
    pub width: Option<u32>,
    pub height: Option<u32>,
}

/// The image and the thumbnail of an embed, where it has them.
#[derive(Debug, Clone)]
pub struct EmbedImages {
    pub image: Option<ImageSource>,
    pub thumbnail: Option<ImageSource>,
}

/// The images of a message: its attachments and its embeds.
#[derive(Debug, Clone)]
pub struct MessageImages {
    pub attachments: Vec<ImageSource>,
    pub embeds: Vec<EmbedImages>,
}

/// An image with both dimensions known, as listed.
pub open spec fn sized_image(s: ImageSource) -> Option<(Seq<char>, u32, u32)> {
    match (s.width, s.height) {
        (Some(w), Some(h)) => Some((s.url@, w, h)),
        _ => None,
    }
}

/// What one optional image adds to the list: itself, where both its
/// dimensions are known.
pub open spec fn sized_step(x: Option<ImageSource>) -> Seq<(Seq<char>, u32, u32)> {
    match x {
        Some(s) => match sized_image(s) {
            Some(y) => seq![y],
            None => seq![],
        },
        None => seq![],
    }
}

/// The images of `sources` with both dimensions known, in order.
pub open spec fn sized_images(sources: Seq<Option<ImageSource>>) -> Seq<(Seq<char>, u32, u32)>
    decreases sources.len(),
{
    if sources.len() == 0 {
        seq![]
    } else {
        sized_images(sources.drop_last()) + sized_step(sources.last())
    }
}

pub open spec fn listed_view(v: Seq<(String, u32, u32)>) -> Seq<(Seq<char>, u32, u32)> {
    v.map_values(|x: (String, u32, u32)| (x.0@, x.1, x.2))
}

/// Appends an image to `out` where both its dimensions are known.
fn push_sized(out: &mut Vec<(String, u32, u32)>, source: Option<&ImageSource>)
    ensures
        listed_view(final(out)@) == listed_view(old(out)@) + sized_step(match source {
            Some(s) => Some(*s),
            None => None,
        }),
{
    let ghost before = out@;
    match source {
        Some(s) => match (s.width, s.height) {
            (Some(w), Some(h)) => {
                out.push((s.url.clone(), w, h));
                assert(listed_view(out@) =~= listed_view(before) + seq![(s.url@, w, h)]);
            },
            _ => {
                assert(listed_view(out@) =~= listed_view(before) + Seq::<(Seq<char>, u32, u32)>::empty());
            },
        },
        None => {
            assert(listed_view(out@) =~= listed_view(before) + Seq::<(Seq<char>, u32, u32)>::empty());
        },
    }
}

/// The attachments as optional images.
pub open spec fn attachment_sources(a: Seq<ImageSource>) -> Seq<Option<ImageSource>> {
    a.map_values(|x: ImageSource| Some(x))
}

/// The images of the embeds, where they have one.
pub open spec fn embed_image_sources(e: Seq<EmbedImages>) -> Seq<Option<ImageSource>> {
    e.map_values(|x: EmbedImages| x.image)
}

/// The thumbnails of the embeds, where they have one.
pub open spec fn embed_thumbnail_sources(e: Seq<EmbedImages>) -> Seq<Option<ImageSource>> {
    e.map_values(|x: EmbedImages| x.thumbnail)
}

impl MessageImages {
    /// The images of the message with both dimensions known: attachments,
    /// then embed images, then embed thumbnails.
    pub fn to_vec(&self) -> (r: Vec<(String, u32, u32)>)
        ensures
            listed_view(r@) == sized_images(attachment_sources(self.attachments@)) + sized_images(
                embed_image_sources(self.embeds@),
            ) + sized_images(embed_thumbnail_sources(self.embeds@)),
    {
        let mut out: Vec<(String, u32, u32)> = Vec::new();
        let ghost a = attachment_sources(self.attachments@);
        let ghost im = embed_image_sources(self.embeds@);
        let ghost th = embed_thumbnail_sources(self.embeds@);
        assert(listed_view(out@) =~= Seq::<(Seq<char>, u32, u32)>::empty());
        let mut i: usize = 0;
        while i < self.attachments.len()
            invariant
                i <= self.attachments@.len(),
                a == attachment_sources(self.attachments@),
                listed_view(out@) == sized_images(a.take(i as int)),
            decreases self.attachments@.len() - i,
        {
            push_sized(&mut out, Some(&self.attachments[i]));
            assert(a.take(i + 1).drop_last() =~= a.take(i as int));
            i = i + 1;
        }
        assert(a.take(i as int) =~= a);
        let ghost first = listed_view(out@);
        let mut j: usize = 0;
        while j < self.embeds.len()
            invariant
                j <= self.embeds@.len(),
                im == embed_image_sources(self.embeds@),
                listed_view(out@) == first + sized_images(im.take(j as int)),
            decreases self.embeds@.len() - j,
        {
            push_sized(&mut out, self.embeds[j].image.as_ref());
            assert(im.take(j + 1).drop_last() =~= im.take(j as int));
            j = j + 1;
        }
        assert(im.take(j as int) =~= im);
        let ghost second = listed_view(out@);
        let mut k: usize = 0;
        while k < self.embeds.len()
            invariant
                k <= self.embeds@.len(),
                th == embed_thumbnail_sources(self.embeds@),
                listed_view(out@) == second + sized_images(th.take(k as int)),
            decreases self.embeds@.len() - k,
        {
            push_sized(&mut out, self.embeds[k].thumbnail.as_ref());
            assert(th.take(k + 1).drop_last() =~= th.take(k as int));
            k = k + 1;
        }
        assert(th.take(k as int) =~= th);
        out
    }
}

} // verus!
