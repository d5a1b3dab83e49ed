use burdbot::english_class::{
    channel_access, class_channels, music_check, teachers_present, ClassAction, EnglishClass, VoiceMember,
    ENGLISH_CLASS_CATEGORY_ID, ENGLISH_TEACHER_ROLE_ID, MUSIC_CHANNEL_ID, READ_MESSAGES,
};

#[test]
fn nothing_happens_before_the_cache_is_ready() {
    let mut class = EnglishClass::new();
    assert_eq!(class.on_voice_state_update(false, true, 1, true), vec![]);
    assert_eq!(class.on_voice_state_update(true, false, 1, true), vec![]);
    assert_eq!(class.on_closing_timer(1), vec![]);
}

#[test]
fn the_class_opens_with_a_teacher_and_closes_after_the_last_leaves() {
    let mut class = EnglishClass::new();
    assert_eq!(class.on_cache_ready(&vec![]), vec![ClassAction::SetAccess(false)]);
    // a student joining changes nothing
    assert_eq!(class.on_voice_state_update(false, true, 5, false), vec![]);
    // a teacher joins
    assert_eq!(class.on_voice_state_update(false, true, 1, true), vec![ClassAction::SetAccess(true)]);
    assert_eq!(class.on_voice_state_update(false, true, 2, true), vec![ClassAction::SetAccess(true)]);
    // one of two leaves: the class stays open
    assert_eq!(class.on_voice_state_update(true, false, 1, true), vec![]);
    // the last leaves: the closing timer starts
    assert_eq!(class.on_voice_state_update(true, false, 2, true), vec![ClassAction::StartClosingTimer(2)]);
    // they come back in time: the timer stops
    assert_eq!(
        class.on_voice_state_update(false, true, 2, true),
        vec![ClassAction::StopClosingTimer(2), ClassAction::SetAccess(true)]
    );
    assert_eq!(class.on_voice_state_update(true, false, 2, true), vec![ClassAction::StartClosingTimer(2)]);
    assert_eq!(class.on_closing_timer(2), vec![ClassAction::SetAccess(false)]);
    // no teacher is left to leave
    assert_eq!(class.on_voice_state_update(true, false, 2, true), vec![]);
}

#[test]
fn teachers_present_at_start_keep_the_class_open() {
    let mut class = EnglishClass::new();
    assert_eq!(class.on_cache_ready(&vec![7, 8]), vec![ClassAction::SetAccess(true)]);
    assert_eq!(class.on_voice_state_update(true, false, 7, true), vec![]);
    assert_eq!(class.on_voice_state_update(true, false, 8, true), vec![ClassAction::StartClosingTimer(8)]);
}

#[test]
fn channel_permissions() {
    assert_eq!(channel_access(0, READ_MESSAGES | 1, true), (READ_MESSAGES, 1));
    assert_eq!(channel_access(READ_MESSAGES | 2, 4, false), (2, 4));
    assert_eq!(READ_MESSAGES, 1024);
}

#[test]
fn class_channels_and_teachers() {
    let channels = vec![(1, Some(ENGLISH_CLASS_CATEGORY_ID)), (2, Some(99)), (3, None), (4, Some(ENGLISH_CLASS_CATEGORY_ID))];
    assert_eq!(class_channels(true, &channels), vec![ENGLISH_CLASS_CATEGORY_ID, 1, 4]);
    assert_eq!(class_channels(false, &channels), Vec::<u64>::new());
    let members = vec![
        VoiceMember { user_id: 10, channel_id: 1, roles: vec![ENGLISH_TEACHER_ROLE_ID] },
        VoiceMember { user_id: 11, channel_id: 1, roles: vec![3] },
        VoiceMember { user_id: 12, channel_id: 4, roles: vec![3, ENGLISH_TEACHER_ROLE_ID] },
        VoiceMember { user_id: 13, channel_id: 2, roles: vec![ENGLISH_TEACHER_ROLE_ID] },
    ];
    assert_eq!(teachers_present(&vec![(1, false), (4, false)], &members), vec![10, 12]);
    assert_eq!(teachers_present(&vec![(4, false), (1, true)], &members), vec![12]);
}

#[test]
fn music_bot_commands_in_the_music_chat() {
    let reminder = "Please put music bot commands in <#247135634265735168> as they do not work here. \
        Por favor, poné los comandos de música en <#247135634265735168>. No funcionan por acá.";
    assert_eq!(music_check(MUSIC_CHANNEL_ID, "-play song"), Some(reminder));
    assert_eq!(music_check(MUSIC_CHANNEL_ID, "!!skip"), Some(reminder));
    assert_eq!(music_check(MUSIC_CHANNEL_ID, "nice song"), None);
    assert_eq!(music_check(MUSIC_CHANNEL_ID, ""), None);
    assert_eq!(music_check(5, "-play"), None);
}
