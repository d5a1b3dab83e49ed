use burdbot::image_checker::ImageResult;
use burdbot::moderation::{
    banned_image_fields, banned_image_notice, listing_pages, no_banned_images_title, EmbedField, NoticeDestination,
    StaffContact,
};

fn view(fields: &[EmbedField]) -> Vec<(&str, &str, bool)> {
    fields.iter().map(|f| (f.name.as_str(), f.value.as_str(), f.inline)).collect()
}

const CONTACT: StaffContact = StaffContact { server_id: 243838819743432704, channel_id: 11, role_id: 12 };

#[test]
fn staff_hear_of_banned_images_on_their_server() {
    let notice = banned_image_notice(CONTACT, 243838819743432704, 5, 42, "burd", "https://i/x.png", "https://m/1", true);
    assert_eq!(notice.destination, NoticeDestination::Staff { channel_id: 11, role_id: 12 });
    assert_eq!(notice.title, "Banned Image Detected");
    assert_eq!(
        view(&notice.fields),
        vec![
            ("Sent by", "<@42> burd", true),
            ("In", "<#5>", true),
            ("Deleted Image", "[Image](https://i/x.png)", false),
            ("Link from database", "[Message](https://m/1)", true),
            ("Action taken", "Timed out user for 7 days", false),
        ]
    );
}

#[test]
fn other_servers_get_a_reply() {
    let notice = banned_image_notice(CONTACT, 99, 5, 42, "burd", "l", "d", false);
    assert_eq!(notice.destination, NoticeDestination::Reply { channel_id: 5 });
    assert_eq!(notice.fields[4].value, "Failed to timeout");
}

#[test]
fn banned_images_are_listed_ten_to_a_message() {
    assert_eq!(no_banned_images_title(), "No banned images found");
    assert_eq!(listing_pages(0), vec![]);
    assert_eq!(listing_pages(3), vec![(0, 3)]);
    assert_eq!(listing_pages(10), vec![(0, 10)]);
    assert_eq!(listing_pages(23), vec![(0, 10), (10, 20), (20, 23)]);
    let image = ImageResult::from_row("https://m/1".to_string(), 640, 480, "spam".to_string(), vec![0xab, 0x01], 0);
    assert_eq!(
        view(&banned_image_fields(&image)),
        vec![("Link", "https://m/1", true), ("Dimensions", "640x480", true), ("BLAKE3 hash", "ab01", false)]
    );
}
