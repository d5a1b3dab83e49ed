//! The English class of the Spanish-English server: its channels open to
//! everyone while a teacher is on the class stage, and close ten minutes
//! after the last teacher leaves. Also the reminder to keep music bot
//! commands out of the music chat.
use std::collections::HashMap;
use vstd::prelude::*;

verus! {

broadcast use vstd::std_specs::hash::group_hash_axioms;

/// The category of the English class channels.
pub const ENGLISH_CLASS_CATEGORY_ID: u64 = 878362687837442098;

/// The stage channel the class is held in.
pub const ENGLISH_CLASS_STAGE_ID: u64 = 878363153455538246;

/// The role of English teachers.
pub const ENGLISH_TEACHER_ROLE_ID: u64 = 878223433899577364;

/// The Spanish-English server, whose ID is also that of its `@everyone` role.
pub const SPANISH_ENGLISH_SERVER_ID: u64 = 243838819743432704;

/// The channel where music bot commands do not work.
pub const MUSIC_CHANNEL_ID: u64 = 263643662808776704;

/// How long the class stays open after the last teacher leaves, in seconds.
pub const CLOSING_DELAY_SECS: u64 = 600;

/// The permission to read the messages of a channel.
pub const READ_MESSAGES: u64 = 1024;

/// What the class asks to be done.
#[derive(Debug, Clone, Copy, PartialEq, Eq, Structural)]
pub enum ClassAction {
    /// Open the class channels to everyone (`true`), or close them.
    SetAccess(bool),
    /// Start the closing timer of a teacher, in place of any they had.
    StartClosingTimer(u64),
    /// Stop the closing timer of a teacher.
    StopClosingTimer(u64),
}

/// The teachers in class, each with whether their closing timer runs; the
/// list exists once the cache is ready.
pub struct EnglishClass {
    teachers: HashMap<u64, bool>,
    ready: bool,
}

impl EnglishClass {
    /// The teachers known to be in class, each with whether their closing
    /// timer runs.
    pub closed spec fn teachers(&self) -> Map<u64, bool> {
        self.teachers@
    }

    /// Whether the list of teachers exists yet.
    pub closed spec fn is_ready(&self) -> bool {
        self.ready
    }

    /// No list of teachers yet.
    pub fn new() -> (r: EnglishClass)
        ensures
            !r.is_ready(),
            r.teachers() == Map::<u64, bool>::empty(),
    {
        EnglishClass { teachers: HashMap::new(), ready: false }
    }

    /// The cache is ready: the list of teachers is made anew from the
    /// teachers present, and the channels open exactly where there is one.
    pub fn on_cache_ready(&mut self, teachers_present: &Vec<u64>) -> (r: Vec<ClassAction>)
        ensures
            final(self).is_ready(),
            forall|t: u64| #[trigger] final(self).teachers().contains_key(t) <==> teachers_present@.contains(t),
            forall|t: u64| #[trigger] final(self).teachers().contains_key(t) ==> !final(self).teachers()[t],
            r@ == seq![ClassAction::SetAccess(teachers_present@.len() > 0)],
    {
        let mut teachers: HashMap<u64, bool> = HashMap::new();
        for i in 0..teachers_present.len()
            invariant
                forall|t: u64| #[trigger] teachers@.contains_key(t) <==> exists|j: int| 0 <= j < i && teachers_present@[j] == t,
                forall|t: u64| #[trigger] teachers@.contains_key(t) ==> !teachers@[t],
        {
            teachers.insert(teachers_present[i], false);
            proof {
                assert forall|t: u64| #[trigger] teachers@.contains_key(t) <==> exists|j: int|
                    0 <= j < i + 1 && teachers_present@[j] == t by {
                    if t == teachers_present@[i as int] {
                        assert(0 <= i < i + 1 && teachers_present@[i as int] == t);
                    }
                }
            }
        }
        self.teachers = teachers;
        self.ready = true;
        let mut actions: Vec<ClassAction> = Vec::new();
        actions.push(ClassAction::SetAccess(teachers_present.len() > 0));
        actions
    }

    /// A member's voice state changed: `was_on_stage` where they had been on
    /// the class stage, `is_on_stage` where they are now. A member who had
    /// been on the stage counts as leaving it: a teacher in class leaves it,
    /// and where they were the only one their closing timer starts instead.
    /// A teacher who comes onto the stage is in class, their closing timer
    /// stops, and the channels open. Nothing happens before the list of
    /// teachers exists.
    pub fn on_voice_state_update(&mut self, was_on_stage: bool, is_on_stage: bool, user_id: u64, is_teacher: bool) -> (r:
        Vec<ClassAction>)
        ensures
            final(self).is_ready() == old(self).is_ready(),
            ({
                let before = old(self).teachers();
                if !old(self).is_ready() {
                    final(self).teachers() == before && r@ == Seq::<ClassAction>::empty()
                } else if was_on_stage {
                    if !before.contains_key(user_id) {
                        final(self).teachers() == before && r@ == Seq::<ClassAction>::empty()
                    } else if before.len() > 1 {
                        final(self).teachers() == before.remove(user_id) && r@ == Seq::<ClassAction>::empty()
                    } else {
                        final(self).teachers() == before.insert(user_id, true) && r@ == seq![
                            ClassAction::StartClosingTimer(user_id),
                        ]
                    }
                } else if is_on_stage && is_teacher {
                    &&& final(self).teachers() == before.insert(user_id, false)
                    &&& r@ == (if before.contains_key(user_id) && before[user_id] {
                        seq![ClassAction::StopClosingTimer(user_id), ClassAction::SetAccess(true)]
                    } else {
                        seq![ClassAction::SetAccess(true)]
                    })
                } else {
                    final(self).teachers() == before && r@ == Seq::<ClassAction>::empty()
                }
            }),
    {
        let mut actions: Vec<ClassAction> = Vec::new();
        if !self.ready {
            return actions;
        }
        if was_on_stage {
            if self.teachers.contains_key(&user_id) {
                if self.teachers.len() > 1 {
                    self.teachers.remove(&user_id);
                } else {
                    self.teachers.insert(user_id, true);
                    actions.push(ClassAction::StartClosingTimer(user_id));
                }
            }
        } else if is_on_stage && is_teacher {
            let previous = self.teachers.insert(user_id, false);
            if let Some(true) = previous {
                actions.push(ClassAction::StopClosingTimer(user_id));
            }
            actions.push(ClassAction::SetAccess(true));
        }
        actions
    }

    /// The closing timer of a teacher ran out: the channels close and the
    /// teacher leaves the class.
    pub fn on_closing_timer(&mut self, teacher_id: u64) -> (r: Vec<ClassAction>)
        ensures
            final(self).is_ready() == old(self).is_ready(),
            old(self).is_ready() ==> final(self).teachers() == old(self).teachers().remove(teacher_id) && r@
                == seq![ClassAction::SetAccess(false)],
            !old(self).is_ready() ==> final(self).teachers() == old(self).teachers() && r@ == Seq::<
                ClassAction,
            >::empty(),
    {
        let mut actions: Vec<ClassAction> = Vec::new();
        if self.ready {
            actions.push(ClassAction::SetAccess(false));
            self.teachers.remove(&teacher_id);
        }
        actions
    }
}

/// The permissions of `@everyone` in a class channel once it opens
/// (`allow`) or closes: opening allows reading and stops denying it;
/// closing stops allowing it.
pub fn channel_access(allow_bits: u64, deny_bits: u64, allow: bool) -> (r: (u64, u64))
    ensures
        r == (if allow {
            (allow_bits | READ_MESSAGES, deny_bits & !READ_MESSAGES)
        } else {
            (allow_bits & !READ_MESSAGES, deny_bits)
        }),
{
    if allow {
        (allow_bits | READ_MESSAGES, deny_bits & !READ_MESSAGES)
    } else {
        (allow_bits & !READ_MESSAGES, deny_bits)
    }
}

/// The class channels: the category first where it exists, then the
/// channels in it, in the order given.
pub open spec fn spec_class_channels(category_exists: bool, channels: Seq<(u64, Option<u64>)>) -> Seq<u64> {
    if category_exists {
        seq![ENGLISH_CLASS_CATEGORY_ID] + channels.filter(
            |c: (u64, Option<u64>)| c.1 == Some(ENGLISH_CLASS_CATEGORY_ID),
        ).map_values(|c: (u64, Option<u64>)| c.0)
    } else {
        seq![]
    }
}

/// The class channels among the server's channels, each with its
/// category.
pub fn class_channels(category_exists: bool, channels: &Vec<(u64, Option<u64>)>) -> (r: Vec<u64>)
    ensures
        r@ == spec_class_channels(category_exists, channels@),
{
    let mut r: Vec<u64> = Vec::new();
    if !category_exists {
        return r;
    }
    r.push(ENGLISH_CLASS_CATEGORY_ID);
    let ghost keep = |c: (u64, Option<u64>)| c.1 == Some(ENGLISH_CLASS_CATEGORY_ID);
    let ghost id = |c: (u64, Option<u64>)| c.0;
    for i in 0..channels.len()
        invariant
            r@ == seq![ENGLISH_CLASS_CATEGORY_ID] + channels@.take(i as int).filter(keep).map_values(id),
            keep == (|c: (u64, Option<u64>)| c.1 == Some(ENGLISH_CLASS_CATEGORY_ID)),
            id == (|c: (u64, Option<u64>)| c.0),
    {
        let c = channels[i];
        proof {
            let s = channels@.take(i + 1);
            assert(s.drop_last() =~= channels@.take(i as int));
            assert(s.last() == c);
            assert(s =~= channels@.take(i as int).push(c));
        }
        let in_category = match c.1 {
            Some(category) => category == ENGLISH_CLASS_CATEGORY_ID,
            None => false,
        };
        if in_category {
            r.push(c.0);
            proof {
                reveal(Seq::filter);
                assert(channels@.take(i + 1).filter(keep) == channels@.take(i as int).filter(keep).push(c));
                assert(channels@.take(i + 1).filter(keep).map_values(id) =~= channels@.take(i as int).filter(
                    keep,
                ).map_values(id).push(c.0));
            }
        } else {
            proof {
                reveal(Seq::filter);
                assert(channels@.take(i + 1).filter(keep) == channels@.take(i as int).filter(keep));
                assert(channels@.take(i + 1).filter(keep).map_values(id) =~= channels@.take(i as int).filter(
                    keep,
                ).map_values(id));
            }
        }
    }
    assert(channels@.take(channels@.len() as int) =~= channels@);
    r
}

/// A member in a voice channel: their ID, the channel, and their roles.
#[derive(Debug, Clone)]
pub struct VoiceMember {
    pub user_id: u64,
    pub channel_id: u64,
    pub roles: Vec<u64>,
}

/// The teachers among the members in one channel, in the order given.
pub open spec fn teachers_in(channel_id: u64, members: Seq<VoiceMember>) -> Seq<u64>
    decreases members.len(),
{
    if members.len() == 0 {
        seq![]
    } else {
        let m = members.last();
        teachers_in(channel_id, members.drop_last()) + (if m.channel_id == channel_id && m.roles@.contains(
            ENGLISH_TEACHER_ROLE_ID,
        ) {
            seq![m.user_id]
        } else {
            seq![]
        })
    }
}

/// The teachers in the voice channels of the class: channel by channel,
/// text channels left out.
pub open spec fn spec_teachers_present(channels: Seq<(u64, bool)>, members: Seq<VoiceMember>) -> Seq<u64>
    decreases channels.len(),
{
    if channels.len() == 0 {
        seq![]
    } else {
        let c = channels.last();
        spec_teachers_present(channels.drop_last(), members) + (if c.1 {
            seq![]
        } else {
            teachers_in(c.0, members)
        })
    }
}

fn has_teacher_role(roles: &Vec<u64>) -> (r: bool)
    ensures
        r == roles@.contains(ENGLISH_TEACHER_ROLE_ID),
{
    for i in 0..roles.len()
        invariant
            forall|j: int| 0 <= j < i ==> roles@[j] != ENGLISH_TEACHER_ROLE_ID,
    {
        if roles[i] == ENGLISH_TEACHER_ROLE_ID {
            return true;
        }
    }
    false
}

/// The teachers in the class's voice channels, given the class channels
/// (each with whether it is a text channel) and the members in voice
/// channels.
pub fn teachers_present(channels: &Vec<(u64, bool)>, members: &Vec<VoiceMember>) -> (r: Vec<u64>)
    ensures
        r@ == spec_teachers_present(channels@, members@),
{
    let mut r: Vec<u64> = Vec::new();
    for i in 0..channels.len()
        invariant
            r@ == spec_teachers_present(channels@.take(i as int), members@),
    {
        let (channel_id, is_text) = channels[i];
        assert(channels@.take(i + 1).drop_last() =~= channels@.take(i as int));
        if !is_text {
            let ghost before = r@;
            for j in 0..members.len()
                invariant
                    r@ == before + teachers_in(channel_id, members@.take(j as int)),
            {
                let m = &members[j];
                assert(members@.take(j + 1).drop_last() =~= members@.take(j as int));
                if m.channel_id == channel_id && has_teacher_role(&m.roles) {
                    r.push(m.user_id);
                }
                assert(r@ =~= before + teachers_in(channel_id, members@.take(j + 1)));
            }
            assert(members@.take(members@.len() as int) =~= members@);
        }
        assert(r@ =~= spec_teachers_present(channels@.take(i + 1), members@));
    }
    assert(channels@.take(channels@.len() as int) =~= channels@);
    r
}

/// The prefixes of music bot commands.
pub open spec fn is_bot_prefix(p: Seq<char>) -> bool {
    p == "-"@ || p == "--"@ || p == "---"@ || p == "!"@ || p == "!!"@
}

/// The reminder posted where a music bot command is used in the music chat.
pub open spec fn music_reminder() -> Seq<char> {
    "Please put music bot commands in <#247135634265735168> as they do not work here. Por favor, poné los comandos de música en <#247135634265735168>. No funcionan por acá."@
}

/// The reminder to post for a message: where it is in the music chat and
/// starts with the prefix of a music bot command.
pub fn music_check(channel_id: u64, content: &str) -> (r: Option<&'static str>)
    ensures
        match r {
            Some(m) => channel_id == MUSIC_CHANNEL_ID && exists|p: Seq<char>|
                is_bot_prefix(p) && #[trigger] content@.take(p.len() as int) == p && p.len() <= content@.len()
                && m@ == music_reminder(),
            None => channel_id != MUSIC_CHANNEL_ID || forall|p: Seq<char>|
                is_bot_prefix(p) && p.len() <= content@.len() ==> #[trigger] content@.take(p.len() as int) != p,
        },
{
    if channel_id != MUSIC_CHANNEL_ID {
        return None;
    }
    let cs = crate::text::chars_of(content);
    proof {
        reveal_strlit("-");
        reveal_strlit("--");
        reveal_strlit("---");
        reveal_strlit("!");
        reveal_strlit("!!");
    }
    if cs.len() > 0 && (cs[0] == '-' || cs[0] == '!') {
        let m = "Please put music bot commands in <#247135634265735168> as they do not work here. Por favor, poné los comandos de música en <#247135634265735168>. No funcionan por acá.";
        proof {
            if cs@[0] == '-' {
                assert(content@.take(1) =~= "-"@);
            } else {
                assert(content@.take(1) =~= "!"@);
            }
        }
        return Some(m);
    }
    proof {
        assert forall|p: Seq<char>| is_bot_prefix(p) && p.len() <= content@.len() implies #[trigger] content@.take(
            p.len() as int,
        ) != p by {
            assert(p[0] == '-' || p[0] == '!');
            assert(content@.take(p.len() as int)[0] == content@[0]);
        }
    }
    None
}

} // verus!
