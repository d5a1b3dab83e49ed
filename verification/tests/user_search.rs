use burdbot::user_search::{UserSearchEngine, MEMBER_STOP_WORD};

#[test]
fn members_are_found_by_nickname_name_and_tag_parts() {
    assert_eq!(MEMBER_STOP_WORD, "#");
    let mut engine = UserSearchEngine::new();
    engine.add_member(1, Some("Sunny"), "carlos", "carlos#4821");
    engine.add_member(2, None, "beatriz", "beatriz#0007");
    assert_eq!(engine.user_id_search("sunny"), vec![1]);
    assert_eq!(engine.user_id_search("beatriz"), vec![2]);
    assert_eq!(engine.user_id_search("4821"), vec![1]);
    engine.remove_member(1);
    assert!(engine.user_id_search("sunny").is_empty());
    assert_eq!(engine.user_id_search("beatriz"), vec![2]);
}
