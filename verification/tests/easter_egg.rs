use burdbot::easter_egg::{chamuyar, nice_try_reply, ComplimentReply};

#[test]
fn compliments_but_no_mass_pings() {
    assert_eq!(chamuyar(Some("Burd")), ComplimentReply::Compliment("Alta facha tiene el Burd".to_string()));
    assert_eq!(chamuyar(Some("@everyone")), ComplimentReply::NiceTry);
    assert_eq!(chamuyar(Some("@here")), ComplimentReply::NiceTry);
    assert_eq!(chamuyar(None), ComplimentReply::NotEnoughArguments);
    assert_eq!(nice_try_reply(), "Nice try.");
}
