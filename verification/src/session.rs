//! Sessions: what a conversation has seen of tool results.
use vstd::prelude::*;
use vstd::string::*;
use vstd::utf8::*;

use crate::hashing;
use crate::json;
use crate::json::{Json, JsonView};
use crate::text;

verus! {

/// The number of sessions above which stale ones are evicted.
pub const MAX_SESSIONS: usize = 10_000;

/// The seconds without access after which a session is stale.
pub const SESSION_TTL_SECS: u64 = 3600;

/// The nanoseconds of a second.
pub const NANOS_PER_SEC: u64 = 1_000_000_000;

// ---------------------------------------------------------------------------
// The concurrent map
// ---------------------------------------------------------------------------
/// `dashmap::DashMap`: a concurrent hash map. All access here is exclusive.
#[verifier::external_type_specification]
#[verifier::external_body]
#[verifier::reject_recursive_types(K)]
#[verifier::reject_recursive_types(V)]
#[verifier::reject_recursive_types(S)]
pub struct ExDashMap<K, V, S>(dashmap::DashMap<K, V, S>);

/// A tool result: the tool use that it came from, and its tokens.
pub type EntryView = (Seq<char>, nat);

/// The tool results that a map holds.
pub uninterp spec fn tool_entries(m: dashmap::DashMap<u64, (String, usize)>) -> Map<u64, EntryView>;

/// The sessions that a map holds.
pub uninterp spec fn session_entries(m: dashmap::DashMap<String, SessionData>) -> Map<
    Seq<char>,
    SessionView,
>;

pub open spec fn entry_view(e: (String, usize)) -> EntryView {
    (e.0@, e.1 as nat)
}

pub open spec fn no_tools() -> Map<u64, EntryView> {
    Map::empty()
}

pub open spec fn no_sessions() -> Map<Seq<char>, SessionView> {
    Map::empty()
}

/// Calls `DashMap::new` for tool results.
#[verifier::external_body]
fn new_tools() -> (r: dashmap::DashMap<u64, (String, usize)>)
    ensures
        tool_entries(r) == no_tools(),
{
    dashmap::DashMap::new()
}

/// Calls `DashMap::get` for a tool result, and copies what it refers to.
#[verifier::external_body]
fn get_tool(m: &dashmap::DashMap<u64, (String, usize)>, key: u64) -> (r: Option<(String, usize)>)
    ensures
        match r {
            Some(e) => tool_entries(*m).dom().contains(key) && tool_entries(*m)[key] == entry_view(
                e,
            ),
            None => !tool_entries(*m).dom().contains(key),
        },
{
    m.get(&key).map(|e| e.value().clone())
}

/// Calls `DashMap::insert` for a tool result.
#[verifier::external_body]
fn insert_tool(m: &mut dashmap::DashMap<u64, (String, usize)>, key: u64, entry: (String, usize))
    ensures
        tool_entries(*final(m)) == tool_entries(*old(m)).insert(key, entry_view(entry)),
{
    m.insert(key, entry);
}

/// Calls `DashMap::new` for sessions.
#[verifier::external_body]
fn new_sessions() -> (r: dashmap::DashMap<String, SessionData>)
    ensures
        session_entries(r) == no_sessions(),
{
    dashmap::DashMap::new()
}

/// Calls `DashMap::len` for sessions.
#[verifier::external_body]
fn count_sessions(m: &dashmap::DashMap<String, SessionData>) -> (r: usize)
    ensures
        r == session_entries(*m).dom().len(),
{
    m.len()
}

/// Calls `DashMap::remove` for a session.
#[verifier::external_body]
fn remove_session(m: &mut dashmap::DashMap<String, SessionData>, id: &str) -> (r: Option<
    (String, SessionData),
>)
    ensures
        session_entries(*final(m)) == session_entries(*old(m)).remove(id@),
        match r {
            Some(e) => session_entries(*old(m)).dom().contains(id@) && e.0@ == id@ && e.1@
                == session_entries(*old(m))[id@],
            None => !session_entries(*old(m)).dom().contains(id@),
        },
{
    m.remove(id)
}

/// Calls `DashMap::insert` for a session.
#[verifier::external_body]
fn insert_session(m: &mut dashmap::DashMap<String, SessionData>, id: String, session: SessionData)
    ensures
        session_entries(*final(m)) == session_entries(*old(m)).insert(id@, session@),
{
    m.insert(id, session);
}

/// Calls `DashMap::retain` for sessions, which keeps those that are fresh.
#[verifier::external_body]
fn retain_fresh(m: &mut dashmap::DashMap<String, SessionData>, now: u128)
    ensures
        session_entries(*final(m)) == only_fresh(session_entries(*old(m)), now as nat),
{
    m.retain(|_, session| session.is_fresh(now));
}

// ---------------------------------------------------------------------------
// Sessions
// ---------------------------------------------------------------------------
/// What a session is: the tool results that it has seen, by their hash, and
/// when it was last asked for, in nanoseconds of a clock that does not go back.
pub struct SessionView {
    pub tools: Map<u64, EntryView>,
    pub last_accessed: nat,
}

/// A tool result that a session has seen.
#[derive(Debug, Clone)]
pub struct ToolResultEntry {
    pub tool_use_id: String,
    pub original_token_count: usize,
}

/// What is kept of a session.
pub struct SessionData {
    pub tool_hashes: dashmap::DashMap<u64, (String, usize)>,
    pub last_accessed: u128,
}

impl View for SessionData {
    type V = SessionView;

    open spec fn view(&self) -> SessionView {
        SessionView {
            tools: tool_entries(self.tool_hashes),
            last_accessed: self.last_accessed as nat,
        }
    }
}

/// A session that was last asked for less than `SESSION_TTL_SECS` ago.
pub open spec fn fresh(last_accessed: nat, now: nat) -> bool {
    now < last_accessed + SESSION_TTL_SECS * NANOS_PER_SEC
}

/// The sessions that are fresh.
pub open spec fn only_fresh(sessions: Map<Seq<char>, SessionView>, now: nat) -> Map<
    Seq<char>,
    SessionView,
> {
    Map::new(
        |id: Seq<char>| sessions.dom().contains(id) && fresh(sessions[id].last_accessed, now),
        |id: Seq<char>| sessions[id],
    )
}

impl SessionData {
    /// A session that has seen nothing.
    pub fn new(now: u128) -> (r: Self)
        ensures
            r@ == (SessionView {
                tools: no_tools(),
                last_accessed: now as nat,
            }),
    {
        SessionData { tool_hashes: new_tools(), last_accessed: now }
    }

    /// Whether the session was last asked for less than `SESSION_TTL_SECS`
    /// ago.
    pub fn is_fresh(&self, now: u128) -> (r: bool)
        ensures
            r == fresh(self@.last_accessed, now as nat),
    {
        if now < self.last_accessed {
            true
        } else {
            now - self.last_accessed < 3_600_000_000_000u128
        }
    }

    /// The tool result of a hash.
    pub fn seen(&self, hash: u64) -> (r: Option<ToolResultEntry>)
        ensures
            match r {
                Some(e) => self@.tools.dom().contains(hash) && self@.tools[hash] == (
                    e.tool_use_id@,
                    e.original_token_count as nat,
                ),
                None => !self@.tools.dom().contains(hash),
            },
    {
        match get_tool(&self.tool_hashes, hash) {
            Some((tool_use_id, original_token_count)) => Some(
                ToolResultEntry { tool_use_id, original_token_count },
            ),
            None => None,
        }
    }

    /// Takes in the tool result of a hash.
    pub fn record(&mut self, hash: u64, entry: ToolResultEntry)
        ensures
            final(self)@ == (SessionView {
                tools: old(self)@.tools.insert(
                    hash,
                    (entry.tool_use_id@, entry.original_token_count as nat),
                ),
                ..old(self)@
            }),
    {
        insert_tool(
            &mut self.tool_hashes,
            hash,
            (entry.tool_use_id, entry.original_token_count),
        );
    }
}

/// The sessions that are left to a request at `now`: where there are more than
/// `MAX_SESSIONS`, the fresh ones.
pub open spec fn kept_sessions(sessions: Map<Seq<char>, SessionView>, now: nat) -> Map<
    Seq<char>,
    SessionView,
> {
    if sessions.dom().len() > MAX_SESSIONS {
        only_fresh(sessions, now)
    } else {
        sessions
    }
}

/// What a session of some sessions has seen.
pub open spec fn tools_of(sessions: Map<Seq<char>, SessionView>, id: Seq<char>) -> Map<
    u64,
    EntryView,
> {
    if sessions.dom().contains(id) {
        sessions[id].tools
    } else {
        Map::empty()
    }
}

/// The session of an id as a request at `now` gets it: with what it has seen,
/// and asked for just now.
pub open spec fn handed_out(
    sessions: Map<Seq<char>, SessionView>,
    id: Seq<char>,
    now: nat,
) -> SessionView {
    SessionView { tools: tools_of(kept_sessions(sessions, now), id), last_accessed: now }
}

/// The sessions, by their id. The one that was asked for last is held apart, so
/// that it can be lent out; it counts as one of them all the same.
pub struct SessionStore {
    sessions: dashmap::DashMap<String, SessionData>,
    lent: bool,
    lent_id: String,
    lent_session: SessionData,
}

impl View for SessionStore {
    type V = Map<Seq<char>, SessionView>;

    closed spec fn view(&self) -> Map<Seq<char>, SessionView> {
        if self.lent {
            session_entries(self.sessions).insert(self.lent_id@, self.lent_session@)
        } else {
            session_entries(self.sessions)
        }
    }
}

impl SessionStore {
    pub fn new() -> (r: Self)
        ensures
            r@ == no_sessions(),
    {
        SessionStore {
            sessions: new_sessions(),
            lent: false,
            lent_id: String::new(),
            lent_session: SessionData::new(0),
        }
    }

    /// Puts the session that was asked for last among the others.
    fn settle(&mut self)
        ensures
            final(self)@ == old(self)@,
            !final(self).lent,
    {
        if self.lent {
            let mut id = String::new();
            let mut session = SessionData::new(0);
            std::mem::swap(&mut self.lent_id, &mut id);
            std::mem::swap(&mut self.lent_session, &mut session);
            insert_session(&mut self.sessions, id, session);
            self.lent = false;
        }
    }

    /// Gets the session of an id, or starts one. It stays in the store: what is
    /// recorded in it is there when it is asked for again. Stale sessions go
    /// first where there are too many.
    pub fn get_or_create(&mut self, session_id: &str, now: u128) -> (r: &mut SessionData)
        ensures
            (*r)@ == (SessionView {
                tools: tools_of(kept_sessions(old(self)@, now as nat), session_id@),
                last_accessed: now as nat,
            }),
            (*r)@ == handed_out(old(self)@, session_id@, now as nat),
            final(self)@ == kept_sessions(old(self)@, now as nat).insert(
                session_id@,
                (*final(r))@,
            ),
    {
        let ghost kept = kept_sessions(self@, now as nat);
        if self.len() > MAX_SESSIONS {
            self.evict_stale_sessions(now);
        }
        self.settle();
        assert(session_entries(self.sessions) == kept);
        let found = remove_session(&mut self.sessions, session_id);
        self.lent = true;
        self.lent_id = text::owned(session_id);
        self.lent_session = match found {
            Some((_, session)) => {
                let mut session = session;
                session.last_accessed = now;
                session
            },
            None => SessionData::new(now),
        };
        proof {
            assert forall|s: SessionView| #[trigger] kept.remove(session_id@).insert(
                session_id@,
                s,
            ) == kept.insert(session_id@, s) by {
                assert(kept.remove(session_id@).insert(session_id@, s) =~= kept.insert(
                    session_id@,
                    s,
                ));
            }
        }
        &mut self.lent_session
    }

    /// How many sessions there are.
    pub fn len(&mut self) -> (r: usize)
        ensures
            r == old(self)@.dom().len(),
            final(self)@ == old(self)@,
    {
        self.settle();
        count_sessions(&self.sessions)
    }

    /// Removes the sessions that have not been asked for within the last
    /// `SESSION_TTL_SECS`.
    pub fn evict_stale_sessions(&mut self, now: u128)
        ensures
            final(self)@ == only_fresh(old(self)@, now as nat),
    {
        self.settle();
        retain_fresh(&mut self.sessions, now);
    }

    /// Derives a session id from the first text of the user in a conversation.
    pub fn derive_session_id(messages: &Vec<Json>) -> (r: String)
        ensures
            r@ == session_id(json::view_items(messages@)),
    {
        match opening_text(messages) {
            Some(t) => hex16(hashing::hash_of(t.as_str().as_bytes())),
            None => text::owned("default"),
        }
    }
}

/// What a session has seen is there when it is asked for again, unless it was
/// evicted in between.
pub proof fn sessions_are_remembered(
    sessions: Map<Seq<char>, SessionView>,
    id: Seq<char>,
    session: SessionView,
    now: nat,
)
    requires
        fresh(session.last_accessed, now),
    ensures
        tools_of(kept_sessions(sessions.insert(id, session), now), id) == session.tools,
{
}

/// There is one session to an id: what was recorded in it is there when it is
/// asked for again, and the sessions of other ids are as they were. A session
/// that is new has seen nothing. (While there are not too many sessions, none
/// is evicted.)
pub proof fn there_is_one_session_to_an_id(
    sessions: Map<Seq<char>, SessionView>,
    id: Seq<char>,
    session: SessionView,
    other: Seq<char>,
    now: nat,
    later: nat,
)
    requires
        sessions.dom().len() <= MAX_SESSIONS,
        sessions.insert(id, session).dom().len() <= MAX_SESSIONS,
    ensures
        !sessions.dom().contains(id) ==> tools_of(kept_sessions(sessions, now), id) == no_tools(),
        ({
            let after = kept_sessions(sessions, now).insert(id, session);
            tools_of(kept_sessions(after, later), other) == if other == id {
                session.tools
            } else {
                tools_of(sessions, other)
            }
        }),
{
}

/// Eviction goes by the last access: a session that was asked for less than
/// `SESSION_TTL_SECS` ago stays as it is, however old it is, and one that was
/// not goes.
pub proof fn eviction_goes_by_the_last_access(
    sessions: Map<Seq<char>, SessionView>,
    id: Seq<char>,
    now: nat,
)
    requires
        sessions.dom().contains(id),
    ensures
        now < sessions[id].last_accessed + SESSION_TTL_SECS * NANOS_PER_SEC ==> only_fresh(
            sessions,
            now,
        ).dom().contains(id) && only_fresh(sessions, now)[id] == sessions[id],
        now >= sessions[id].last_accessed + SESSION_TTL_SECS * NANOS_PER_SEC ==> !only_fresh(
            sessions,
            now,
        ).dom().contains(id),
{
}

/// Where there are too many sessions, a request leaves only fresh ones.
pub proof fn stale_sessions_are_evicted(
    sessions: Map<Seq<char>, SessionView>,
    id: Seq<char>,
    now: nat,
)
    requires
        sessions.dom().len() > MAX_SESSIONS,
        kept_sessions(sessions, now).dom().contains(id),
    ensures
        fresh(sessions[id].last_accessed, now),
        kept_sessions(sessions, now)[id] == sessions[id],
{
}

/// A session that is asked for leaves the others as they are, but for stale
/// ones where there are too many.
pub proof fn other_sessions_stay(
    sessions: Map<Seq<char>, SessionView>,
    id: Seq<char>,
    session: SessionView,
    other: Seq<char>,
    now: nat,
)
    requires
        other != id,
        sessions.dom().contains(other),
        fresh(sessions[other].last_accessed, now),
    ensures
        ({
            let after = kept_sessions(sessions, now).remove(id).insert(id, session);
            after.dom().contains(other) && after[other] == sessions[other]
        }),
{
}

// ---------------------------------------------------------------------------
// Session ids
// ---------------------------------------------------------------------------
/// The first text of content blocks.
pub open spec fn first_text(blocks: Seq<JsonView>) -> Seq<char>
    decreases blocks.len(),
{
    if blocks.len() == 0 {
        Seq::empty()
    } else if blocks[0].text_of("type"@) == Some("text"@) && blocks[0].text_of("text"@) is Some {
        blocks[0].text_of("text"@)->0
    } else {
        first_text(blocks.skip(1))
    }
}

/// The text of a message of the user: its content, or the first text of it.
/// There is none in the message of somebody else.
pub open spec fn user_text(message: JsonView) -> Seq<char> {
    if message.text_of("role"@) == Some("user"@) {
        match message.get("content"@) {
            Some(JsonView::Text(s)) => s,
            Some(JsonView::Array(blocks)) => first_text(blocks),
            _ => Seq::empty(),
        }
    } else {
        Seq::empty()
    }
}

/// The first text of the user in a conversation.
pub open spec fn opening(messages: Seq<JsonView>) -> Option<Seq<char>>
    decreases messages.len(),
{
    if messages.len() == 0 {
        None
    } else if user_text(messages[0]).len() > 0 {
        Some(user_text(messages[0]))
    } else {
        opening(messages.skip(1))
    }
}

/// The digit of a number from 0 to 15.
pub open spec fn hex_digit(d: int) -> char {
    if d < 10 {
        ('0' as u32 + d) as char
    } else {
        ('a' as u32 + d - 10) as char
    }
}

/// The lowest `n` hexadecimal digits of a number.
pub open spec fn hex(value: nat, n: nat) -> Seq<char>
    decreases n,
{
    if n == 0 {
        Seq::empty()
    } else {
        hex(value / 16, (n - 1) as nat).push(hex_digit((value % 16) as int))
    }
}

/// The id of a conversation: the hash of the first text of the user.
pub open spec fn session_id(messages: Seq<JsonView>) -> Seq<char> {
    match opening(messages) {
        Some(t) => hex(hashing::xxh3(encode_utf8(t)) as nat, 16),
        None => "default"@,
    }
}

/// The first text of content blocks.
fn first_text_of(blocks: &Vec<Json>) -> (r: String)
    ensures
        r@ == first_text(json::view_items(blocks@)),
{
    let ghost views = json::view_items(blocks@);
    let mut i: usize = 0;
    proof {
        json::lemma_view_items(blocks@);
        assert(views.skip(0) =~= views);
    }
    while i < blocks.len()
        invariant
            i <= blocks@.len(),
            views == json::view_items(blocks@),
            views.len() == blocks@.len(),
            first_text(views) == first_text(views.skip(i as int)),
        decreases blocks@.len() - i,
    {
        proof {
            json::lemma_view_items(blocks@);
            assert(views.skip(i as int)[0] == blocks@[i as int]@);
            assert(views.skip(i as int).skip(1) =~= views.skip(i + 1));
        }
        if blocks[i].text_is("type", "text") {
            match blocks[i].text_of("text") {
                Some(t) => {
                    return text::owned(t);
                },
                None => {},
            }
        }
        i += 1;
    }
    String::new()
}

/// The text of a message of the user.
fn user_text_of(message: &Json) -> (r: String)
    ensures
        r@ == user_text(message@),
{
    if message.text_is("role", "user") {
        match message.get("content") {
            Some(Json::Text(s)) => text::owned(s.as_str()),
            Some(Json::Array(blocks)) => first_text_of(blocks),
            _ => String::new(),
        }
    } else {
        String::new()
    }
}

/// The first text of the user in a conversation.
pub fn opening_text(messages: &Vec<Json>) -> (r: Option<String>)
    ensures
        match opening(json::view_items(messages@)) {
            Some(t) => r matches Some(s) && s@ == t,
            None => r is None,
        },
{
    let ghost views = json::view_items(messages@);
    let mut i: usize = 0;
    proof {
        json::lemma_view_items(messages@);
        assert(views.skip(0) =~= views);
    }
    while i < messages.len()
        invariant
            i <= messages@.len(),
            views == json::view_items(messages@),
            views.len() == messages@.len(),
            opening(views) == opening(views.skip(i as int)),
        decreases messages@.len() - i,
    {
        proof {
            json::lemma_view_items(messages@);
            assert(views.skip(i as int)[0] == messages@[i as int]@);
            assert(views.skip(i as int).skip(1) =~= views.skip(i + 1));
        }
        let t = user_text_of(&messages[i]);
        if text::chars_of(t.as_str()).len() > 0 {
            return Some(t);
        }
        i += 1;
    }
    None
}

fn hex_char(d: u64) -> (r: char)
    requires
        d < 16,
    ensures
        r == hex_digit(d as int),
{
    let b: u8 = if d < 10 {
        48 + d as u8
    } else {
        87 + d as u8
    };
    b as char
}

/// The sixteen hexadecimal digits of a number.
pub fn hex16(value: u64) -> (r: String)
    ensures
        r@ == hex(value as nat, 16),
{
    let chars = hex_chars(value, 16);
    text::text_of(chars.as_slice())
}

fn hex_chars(value: u64, n: u8) -> (r: Vec<char>)
    ensures
        r@ == hex(value as nat, n as nat),
    decreases n,
{
    if n == 0 {
        Vec::new()
    } else {
        let mut out = hex_chars(value / 16, n - 1);
        out.push(hex_char(value % 16));
        out
    }
}

/// A conversation keeps its id as it goes on.
pub proof fn session_id_is_stable(messages: Seq<JsonView>, more: Seq<JsonView>)
    requires
        opening(messages) is Some,
    ensures
        session_id(messages + more) == session_id(messages),
{
    lemma_opening_stable(messages, more);
}

proof fn lemma_opening_stable(messages: Seq<JsonView>, more: Seq<JsonView>)
    requires
        opening(messages) is Some,
    ensures
        opening(messages + more) == opening(messages),
    decreases messages.len(),
{
    assert((messages + more)[0] == messages[0]);
    if user_text(messages[0]).len() == 0 {
        lemma_opening_stable(messages.skip(1), more);
        assert((messages + more).skip(1) =~= messages.skip(1) + more);
    }
}

} // verus!
