use burdbot::image_checker::{find_banned_image, 
    add_image_outcome, calc_image_hash, check_image, hash_on_blocking_task, remove_image_outcome, EmbedImages,
    HashType, ImageOpOutcome, ImageResult, ImageSource, MessageImages,
};

fn source(url: &str, width: Option<u32>, height: Option<u32>) -> ImageSource {
    ImageSource { url: url.to_string(), width, height }
}

#[test]
fn hash_types_and_outcomes() {
    assert_eq!(HashType::from_repr(0), Some(HashType::Blake3));
    assert_eq!(HashType::from_repr(1), None);
    assert_eq!(HashType::Blake3.name(), "BLAKE3");
    assert_eq!(HashType::Blake3.repr(), 0);
    assert_eq!(ImageOpOutcome::Success.message(), "Operation succeeded");
    assert_eq!(ImageOpOutcome::NotOneAttachment.message(), "Must provide message with exactly one image");
    assert_eq!(ImageOpOutcome::NotFound.message(), "Message provided has no banned image");
    assert_eq!(ImageOpOutcome::Duplicate.message(), "Image from message provided is already banned");
    assert_eq!(add_image_outcome(2, 1), ImageOpOutcome::NotOneAttachment);
    assert_eq!(add_image_outcome(1, 0), ImageOpOutcome::Duplicate);
    assert_eq!(add_image_outcome(1, 1), ImageOpOutcome::Success);
    assert_eq!(remove_image_outcome(0), ImageOpOutcome::NotFound);
    assert_eq!(remove_image_outcome(1), ImageOpOutcome::Success);
    assert!(hash_on_blocking_task(9_000_000));
    assert!(!hash_on_blocking_task(8_999_999));
}

#[test]
fn hashing_and_checking() {
    let image = b"not really a png".to_vec();
    let hash = calc_image_hash(&image);
    assert_eq!(hash, blake3::hash(&image).as_bytes().to_vec());
    assert_ne!(hash, image);
    assert!(check_image(&vec![], &image));
    assert!(!check_image(&vec![vec![0u8; 32], hash.clone()], &image));
    assert!(check_image(&vec![vec![0u8; 32]], &image));
}

#[test]
fn stored_image_rows() {
    let r = ImageResult::from_row("link".to_string(), 3, 4, "desc".to_string(), vec![0x00, 0xff, 0x10, 0xab], 0);
    assert_eq!(r.hash_hex, "00ff10ab");
    assert_eq!((r.width, r.height, r.hash_type), (3, 4, 0));
    assert_eq!(r.link_ref, "link");
}

#[test]
fn message_images() {
    let images = MessageImages {
        attachments: vec![source("a1", Some(1), Some(2)), source("a2", None, Some(2))],
        embeds: vec![
            EmbedImages { image: Some(source("e1", Some(5), Some(6))), thumbnail: Some(source("t1", Some(7), Some(8))) },
            EmbedImages { image: None, thumbnail: Some(source("t2", Some(9), None)) },
        ],
    };
    assert_eq!(
        images.to_vec(),
        vec![("a1".to_string(), 1, 2), ("e1".to_string(), 5, 6), ("t1".to_string(), 7, 8)]
    );
    assert!(MessageImages { attachments: vec![], embeds: vec![] }.to_vec().is_empty());
}

#[test]
fn banned_images_are_found_by_hash() {
    let image = b"png bytes".to_vec();
    let other = b"other".to_vec();
    let banned = vec![
        (calc_image_hash(&other), "https://discord.com/channels/1/2/3".to_string()),
        (calc_image_hash(&image), "https://discord.com/channels/1/2/4".to_string()),
    ];
    assert_eq!(find_banned_image(&banned, &image), Some("https://discord.com/channels/1/2/4".to_string()));
    assert_eq!(find_banned_image(&banned, b"new"), None);
    assert_eq!(find_banned_image(&vec![], &image), None);
}
