//! Searching the members of a server by nickname, name or tag.
use simsearch::{SearchOptions, SimSearch};
use vstd::prelude::*;

verus! {

#[verifier::external_type_specification]
#[verifier::external_body]
#[verifier::reject_recursive_types(K)]
pub struct ExSimSearch<K: Eq + PartialEq + Clone + core::hash::Hash + Ord>(SimSearch<K>);

/// The tokens each entry of a search engine keeps, by ID: what its
/// tokenizer made of the tokens it was given.
pub uninterp spec fn search_entries(engine: SimSearch<u64>) -> Map<u64, Seq<Seq<char>>>;

/// What a search engine keeps of the tokens given for an entry: its
/// tokenizer's pieces (by its options: in lower case, split at whitespace
/// and at each stop word, empty pieces dropped), sorted.
pub uninterp spec fn kept_tokens(engine: SimSearch<u64>, tokens: Seq<Seq<char>>) -> Seq<Seq<char>>;

/// The stop words a search engine was made with: what its tokens are split
/// at besides spaces.
pub uninterp spec fn search_stop_words(engine: SimSearch<u64>) -> Seq<Seq<char>>;

/// The IDs a search for a pattern finds among entries with these tokens:
/// those with a token (split at spaces and the stop words, in lower case)
/// similar enough to a word of the pattern.
pub uninterp spec fn search_matches(
    entries: Map<u64, Seq<Seq<char>>>,
    stop_words: Seq<Seq<char>>,
    pattern: Seq<char>,
) -> Set<u64>;

pub open spec fn tokens_view(tokens: Seq<String>) -> Seq<Seq<char>> {
    tokens.map_values(|t: String| t@)
}

/// An empty search engine that also splits tokens at the given stop words
/// (`SimSearch::new_with`).
#[verifier::external_body]
fn new_member_engine(stop_words: Vec<String>) -> (r: SimSearch<u64>)
    ensures
        search_entries(r).dom().is_empty(),
        search_stop_words(r) == tokens_view(stop_words@),
{
    SimSearch::new_with(SearchOptions::new().stop_words(stop_words))
}

/// Sets the tokens of an entry (`SimSearch::insert_tokens`), replacing any
/// it had: the entry keeps what the tokenizer makes of them. The options,
/// and so the tokenizer, stay as they were.
#[verifier::external_body]
fn engine_insert_tokens(engine: &mut SimSearch<u64>, id: u64, tokens: &Vec<String>)
    ensures
        search_entries(*final(engine)) == search_entries(*old(engine)).insert(
            id,
            kept_tokens(*old(engine), tokens_view(tokens@)),
        ),
        search_stop_words(*final(engine)) == search_stop_words(*old(engine)),
        forall|t: Seq<Seq<char>>| #[trigger] kept_tokens(*final(engine), t) == kept_tokens(*old(engine), t),
{
    let tokens: Vec<&str> = tokens.iter().map(|t| t.as_str()).collect();
    engine.insert_tokens(id, &tokens);
}

/// Removes an entry (`SimSearch::delete`). The options stay as they were.
#[verifier::external_body]
fn engine_delete(engine: &mut SimSearch<u64>, id: u64)
    ensures
        search_entries(*final(engine)) == search_entries(*old(engine)).remove(id),
        search_stop_words(*final(engine)) == search_stop_words(*old(engine)),
        forall|t: Seq<Seq<char>>| #[trigger] kept_tokens(*final(engine), t) == kept_tokens(*old(engine), t),
{
    engine.delete(&id);
}

/// Searches the entries (`SimSearch::search`): the IDs of entries with a
/// token similar enough to the pattern, most relevant first, each once.
/// Which entries are found depends on their tokens and the pattern alone
/// and is named; their order is left unsaid: it sorts floating-point sums
/// taken in the order of a hash map.
#[verifier::external_body]
fn engine_search(engine: &SimSearch<u64>, pattern: &str) -> (r: Vec<u64>)
    ensures
        r@.to_set() == search_matches(search_entries(*engine), search_stop_words(*engine), pattern@),
        forall|i: int| 0 <= i < r@.len() ==> search_entries(*engine).contains_key(#[trigger] r@[i]),
        forall|i: int, j: int| 0 <= i < j < r@.len() ==> r@[i] != r@[j],
{
    engine.search(pattern)
}

/// What member tokens are split at besides spaces, so that a tag such as
/// `name#1234` is found by its parts.
pub const MEMBER_STOP_WORD: &'static str = "#";

/// The members of one server, searchable by nickname, name and tag.
pub struct UserSearchEngine {
    engine: SimSearch<u64>,
}

/// The tokens a member is found by: their nickname where they have one,
/// their name and their tag.
pub open spec fn member_tokens(nick: Option<Seq<char>>, name: Seq<char>, tag: Seq<char>) -> Seq<Seq<char>> {
    match nick {
        Some(n) => seq![n, name, tag],
        None => seq![name, tag],
    }
}

impl UserSearchEngine {
    /// The members in the engine, with the tokens the engine keeps for them.
    pub closed spec fn entries(&self) -> Map<u64, Seq<Seq<char>>> {
        search_entries(self.engine)
    }

    /// What the engine keeps of the tokens given for a member.
    pub closed spec fn kept(&self, tokens: Seq<Seq<char>>) -> Seq<Seq<char>> {
        kept_tokens(self.engine, tokens)
    }

    /// What the tokens of members are split at besides spaces.
    pub closed spec fn stop_words(&self) -> Seq<Seq<char>> {
        search_stop_words(self.engine)
    }

    /// An engine with no members, whose tokens are split at
    /// [`MEMBER_STOP_WORD`] too.
    pub fn new() -> (r: Self)
        ensures
            r.entries() == Map::<u64, Seq<Seq<char>>>::empty(),
            r.stop_words() == seq![MEMBER_STOP_WORD@],
    {
        let mut stop_words: Vec<String> = Vec::new();
        stop_words.push(MEMBER_STOP_WORD.to_string());
        proof {
            assert(tokens_view(stop_words@) =~= seq![MEMBER_STOP_WORD@]);
        }
        UserSearchEngine { engine: new_member_engine(stop_words) }
    }

    /// Adds a member, or updates what they are found by: what the engine
    /// keeps of their tokens.
    pub fn add_member(&mut self, id: u64, nick: Option<&str>, name: &str, tag: &str)
        ensures
            final(self).entries() == old(self).entries().insert(
                id,
                old(self).kept(
                    member_tokens(
                        match nick {
                            Some(n) => Some(n@),
                            None => None,
                        },
                        name@,
                        tag@,
                    ),
                ),
            ),
            forall|t: Seq<Seq<char>>| #[trigger] final(self).kept(t) == old(self).kept(t),
            final(self).stop_words() == old(self).stop_words(),
    {
        let mut tokens: Vec<String> = Vec::new();
        match nick {
            Some(n) => tokens.push(n.to_string()),
            None => {},
        }
        tokens.push(name.to_string());
        tokens.push(tag.to_string());
        proof {
            assert(tokens_view(tokens@) =~= member_tokens(
                match nick {
                    Some(n) => Some(n@),
                    None => None,
                },
                name@,
                tag@,
            ));
        }
        engine_insert_tokens(&mut self.engine, id, &tokens);
    }

    /// Removes a member.
    pub fn remove_member(&mut self, id: u64)
        ensures
            final(self).entries() == old(self).entries().remove(id),
            final(self).stop_words() == old(self).stop_words(),
            forall|t: Seq<Seq<char>>| #[trigger] final(self).kept(t) == old(self).kept(t),
    {
        engine_delete(&mut self.engine, id);
    }

    /// The members found for a text, most relevant first.
    pub fn user_id_search(&self, user_str: &str) -> (r: Vec<u64>)
        ensures
            r@.to_set() == search_matches(self.entries(), self.stop_words(), user_str@),
            forall|i: int| 0 <= i < r@.len() ==> self.entries().contains_key(#[trigger] r@[i]),
            forall|i: int, j: int| 0 <= i < j < r@.len() ==> r@[i] != r@[j],
    {
        engine_search(&self.engine, user_str)
    }
}

} // verus!
