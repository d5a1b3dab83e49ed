//! Speaking time in the tracked voice channel: which user each audio source
//! belongs to, when each user started speaking, and the spoken time to
//! record when a user stops speaking or leaves.
use bimap::BiHashMap;
use std::collections::HashMap;
use vstd::prelude::*;

verus! {

broadcast use vstd::std_specs::hash::group_hash_axioms;

#[verifier::external_type_specification]
#[verifier::external_body]
#[verifier::reject_recursive_types(L)]
#[verifier::reject_recursive_types(R)]
#[verifier::reject_recursive_types(LS)]
#[verifier::reject_recursive_types(RS)]
pub struct ExBiHashMap<L, R, LS, RS>(BiHashMap<L, R, LS, RS>);

/// Audio sources and their users, one source to a user.
pub type SourceMap = BiHashMap<u32, u64>;

/// The pairs an audio source map holds, from source to user.
pub uninterp spec fn source_pairs(m: SourceMap) -> Map<u32, u64>;

/// The pairs left after putting `(source, user)` in: every pair with that
/// source or that user goes first, as `BiHashMap::insert` does.
pub open spec fn paired(pairs: Map<u32, u64>, source: u32, user: u64) -> Map<u32, u64> {
    Map::new(
        |s: u32| s == source || (pairs.dom().contains(s) && pairs[s] != user),
        |s: u32| if s == source { user } else { pairs[s] },
    )
}

/// The pairs left after taking out the pair of a user.
pub open spec fn without_user(pairs: Map<u32, u64>, user: u64) -> Map<u32, u64> {
    Map::new(|s: u32| pairs.dom().contains(s) && pairs[s] != user, |s: u32| pairs[s])
}

/// Whether no user is paired with two sources.
pub open spec fn one_source_each(pairs: Map<u32, u64>) -> bool {
    forall|a: u32, b: u32|
        #![trigger pairs[a], pairs[b]]
        pairs.dom().contains(a) && pairs.dom().contains(b) && pairs[a] == pairs[b] ==> a == b
}

/// An empty map of audio sources (`BiHashMap::new`).
#[verifier::external_body]
fn source_map_new() -> (r: SourceMap)
    ensures
        source_pairs(r) =~= Map::empty(),
{
    BiHashMap::new()
}

/// Pairs a source with a user (`BiHashMap::insert`): the pairs that held
/// either go, as the crate's source shows.
#[verifier::external_body]
fn source_map_insert(m: &mut SourceMap, source: u32, user: u64)
    ensures
        source_pairs(*final(m)) == paired(source_pairs(*old(m)), source, user),
{
    m.insert(source, user);
}

/// The user of a source (`BiHashMap::get_by_left`).
#[verifier::external_body]
fn source_map_get(m: &SourceMap, source: u32) -> (r: Option<u64>)
    ensures
        r == (if source_pairs(*m).dom().contains(source) {
            Some(source_pairs(*m)[source])
        } else {
            None::<u64>
        }),
{
    m.get_by_left(&source).copied()
}

/// Takes out the pair of a user (`BiHashMap::remove_by_right`).
#[verifier::external_body]
fn source_map_remove_user(m: &mut SourceMap, user: u64)
    ensures
        source_pairs(*final(m)) == without_user(source_pairs(*old(m)), user),
{
    m.remove_by_right(&user);
}

/// Spoken time to record: a user and whole seconds.
#[derive(Clone, Copy, Debug, PartialEq, Eq, Structural)]
pub struct SpokenTime {
    pub user_id: u64,
    pub seconds: u64,
}

/// The whole seconds from `start` to `now`, both in milliseconds of a
/// monotonic clock; none where `now` comes first.
pub open spec fn elapsed_seconds(start: u64, now: u64) -> u64 {
    if now >= start {
        ((now - start) / 1000) as u64
    } else {
        0
    }
}

/// Who speaks from which audio source, and since when.
pub struct SpeakingTracker {
    ssrc_to_user_id: SourceMap,
    user_id_to_start: HashMap<u64, u64>,
}

impl SpeakingTracker {
    /// The users of the audio sources.
    pub closed spec fn sources(&self) -> Map<u32, u64> {
        source_pairs(self.ssrc_to_user_id)
    }

    /// When each user who is speaking started, in milliseconds.
    pub closed spec fn starts(&self) -> Map<u64, u64> {
        self.user_id_to_start@
    }

    /// No source is known and nobody speaks.
    pub fn new() -> (r: SpeakingTracker)
        ensures
            r.sources() == Map::<u32, u64>::empty(),
            r.starts() == Map::<u64, u64>::empty(),
    {
        SpeakingTracker { ssrc_to_user_id: source_map_new(), user_id_to_start: HashMap::new() }
    }

    fn start_if_silent(&mut self, user_id: u64, now: u64)
        ensures
            final(self).sources() == old(self).sources(),
            final(self).starts() == (if old(self).starts().dom().contains(user_id) {
                old(self).starts()
            } else {
                old(self).starts().insert(user_id, now)
            }),
    {
        if !self.user_id_to_start.contains_key(&user_id) {
            self.user_id_to_start.insert(user_id, now);
        }
    }

    fn stop(&mut self, user_id: u64, now: u64) -> (r: Option<SpokenTime>)
        ensures
            final(self).sources() == old(self).sources(),
            final(self).starts() == old(self).starts().remove(user_id),
            r == (if old(self).starts().dom().contains(user_id) {
                Some(SpokenTime { user_id, seconds: elapsed_seconds(old(self).starts()[user_id], now) })
            } else {
                None::<SpokenTime>
            }),
    {
        match self.user_id_to_start.remove(&user_id) {
            Some(start) => {
                let seconds = if now >= start { (now - start) / 1000 } else { 0 };
                Some(SpokenTime { user_id, seconds })
            },
            None => None,
        }
    }

    /// A user is known to speak from a source: the source becomes theirs,
    /// and they start speaking now unless they already are. An event
    /// without a user changes nothing.
    pub fn on_speaking_state_update(&mut self, user_id: Option<u64>, ssrc: u32, now: u64)
        ensures
            match user_id {
                Some(id) => {
                    &&& final(self).sources() == paired(old(self).sources(), ssrc, id)
                    &&& final(self).starts() == (if old(self).starts().dom().contains(id) {
                        old(self).starts()
                    } else {
                        old(self).starts().insert(id, now)
                    })
                },
                None => final(self).sources() == old(self).sources() && final(self).starts() == old(
                    self,
                ).starts(),
            },
    {
        if let Some(id) = user_id {
            source_map_insert(&mut self.ssrc_to_user_id, ssrc, id);
            self.start_if_silent(id, now);
        }
    }

    /// The user of a source starts or stops speaking: a user who starts
    /// speaking is timed from now unless already timed; one who stops has
    /// the time spoken handed back to be recorded. A source of no known
    /// user changes nothing.
    pub fn on_speaking_update(&mut self, speaking: bool, ssrc: u32, now: u64) -> (r: Option<SpokenTime>)
        ensures
            final(self).sources() == old(self).sources(),
            !old(self).sources().dom().contains(ssrc) ==> final(self).starts() == old(self).starts()
                && r is None,
            old(self).sources().dom().contains(ssrc) && speaking ==> r is None && final(self).starts() == (
            if old(self).starts().dom().contains(old(self).sources()[ssrc]) {
                old(self).starts()
            } else {
                old(self).starts().insert(old(self).sources()[ssrc], now)
            }),
            old(self).sources().dom().contains(ssrc) && !speaking ==> ({
                let id = old(self).sources()[ssrc];
                &&& final(self).starts() == old(self).starts().remove(id)
                &&& r == (if old(self).starts().dom().contains(id) {
                    Some(SpokenTime { user_id: id, seconds: elapsed_seconds(old(self).starts()[id], now) })
                } else {
                    None::<SpokenTime>
                })
            }),
    {
        match source_map_get(&self.ssrc_to_user_id, ssrc) {
            Some(id) => {
                if speaking {
                    self.start_if_silent(id, now);
                    None
                } else {
                    self.stop(id, now)
                }
            },
            None => None,
        }
    }

    /// A user leaves: the time they spoke, if they were speaking, is handed
    /// back to be recorded, and their source is forgotten.
    pub fn on_client_disconnect(&mut self, user_id: u64, now: u64) -> (r: Option<SpokenTime>)
        ensures
            final(self).sources() == without_user(old(self).sources(), user_id),
            final(self).starts() == old(self).starts().remove(user_id),
            r == (if old(self).starts().dom().contains(user_id) {
                Some(SpokenTime { user_id, seconds: elapsed_seconds(old(self).starts()[user_id], now) })
            } else {
                None::<SpokenTime>
            }),
    {
        let r = self.stop(user_id, now);
        source_map_remove_user(&mut self.ssrc_to_user_id, user_id);
        r
    }
}

/// Every change of the sources keeps each user to one source.
pub proof fn lemma_one_source_each(pairs: Map<u32, u64>, source: u32, user: u64)
    requires
        one_source_each(pairs),
    ensures
        one_source_each(paired(pairs, source, user)),
        one_source_each(without_user(pairs, user)),
{
    let p = paired(pairs, source, user);
    assert forall|a: u32, b: u32|
        p.dom().contains(a) && p.dom().contains(b) && #[trigger] p[a] == #[trigger] p[b] implies a == b by {
        if a != source && b != source {
            assert(pairs[a] == pairs[b]);
        }
    }
    let w = without_user(pairs, user);
    assert forall|a: u32, b: u32|
        w.dom().contains(a) && w.dom().contains(b) && #[trigger] w[a] == #[trigger] w[b] implies a == b by {
        assert(pairs[a] == pairs[b]);
    }
}

} // verus!
