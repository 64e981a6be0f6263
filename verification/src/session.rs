//! The session: the one record of a conversation, and what is written of it to
//! outlive the process.

use vstd::prelude::*;

use crate::history::{
    asks, brings, has_call, has_result, in_block, in_order, law_legal_is_unchanged, serves,
    law_sanitized_is_legal, legal, sanitize_history, sanitized,
};
use crate::message::{
    copy_messages, copy_text, message_views, text_opt, MessageView, ModelMessage, Role,
};
use crate::text::{decimal, lemma_stands_in, number, occurs, stands_at};

verus! {

/// The version of the session file that this library writes and reads.
pub const SESSION_FILE_VERSION: u32 = 1;

// ── identity ────────────────────────────────────────────────────────

/// Hands out the identities of new sessions, counting from one.
#[derive(Debug)]
pub struct SessionIds {
    next: u64,
}

/// The identity behind this one; behind the largest comes zero.
pub open spec fn identity_behind(n: u64) -> u64 {
    if n == u64::MAX {
        0
    } else {
        (n + 1) as u64
    }
}

impl SessionIds {
    /// The identity that the next new session gets.
    pub closed spec fn upcoming(self) -> u64 {
        self.next
    }

    /// A counter that begins with one.
    pub fn new() -> (r: Self)
        ensures
            r.upcoming() == 1,
    {
        SessionIds { next: 1 }
    }
}

/// Who a session is. The identity is given once and kept over restarts; the
/// generation counts the lives of the session, one more with each restart.
#[derive(Debug, Clone, Copy, PartialEq, Eq, Hash, Structural)]
pub struct SessionId {
    identity: u64,
    generation: u32,
}

impl SessionId {
    pub closed spec fn spec_identity(self) -> u64 {
        self.identity
    }

    pub closed spec fn spec_generation(self) -> u32 {
        self.generation
    }

    /// The identity of a new session, in its first generation.
    pub fn next(ids: &mut SessionIds) -> (r: Self)
        ensures
            r.spec_identity() == old(ids).upcoming(),
            r.spec_generation() == 1,
            final(ids).upcoming() == identity_behind(old(ids).upcoming()),
    {
        let identity: u64 = ids.next;
        ids.next = identity.wrapping_add(1);
        SessionId { identity, generation: 1 }
    }

    /// The identity of a session read back from its file: the same identity,
    /// one generation on. The generation stops at its largest value.
    pub fn restored(identity: u64, generation: u32) -> (r: Self)
        ensures
            r.spec_identity() == identity,
            r.spec_generation() == next_generation(generation),
    {
        SessionId { identity, generation: generation.saturating_add(1) }
    }

    pub fn as_u64(&self) -> (r: u64)
        ensures
            r == self.spec_identity(),
    {
        self.identity
    }

    pub fn identity(&self) -> (r: u64)
        ensures
            r == self.spec_identity(),
    {
        self.identity
    }

    pub fn generation(&self) -> (r: u32)
        ensures
            r == self.spec_generation(),
    {
        self.generation
    }
}

/// The generation after `generation`.
pub open spec fn next_generation(generation: u32) -> u32 {
    if generation == u32::MAX {
        generation
    } else {
        (generation + 1) as u32
    }
}

// ── the file ────────────────────────────────────────────────────────

/// What is written of a session. A file of an earlier release may lack the
/// summary, the open work and the token count.
#[derive(Debug)]
pub struct SessionFile {
    pub version: u32,
    pub id: u64,
    pub generation: u32,
    pub messages: Vec<ModelMessage>,
    pub summary: Option<String>,
    pub todo: Option<String>,
    pub tokens_used: u64,
    pub saved_at_ms: u64,
}

#[verifier::ext_equal]
pub struct FileView {
    pub version: u32,
    pub id: u64,
    pub generation: u32,
    pub messages: Seq<MessageView>,
    pub summary: Option<Seq<char>>,
    pub todo: Option<Seq<char>>,
    pub tokens_used: u64,
    pub saved_at_ms: u64,
}

impl View for SessionFile {
    type V = FileView;

    open spec fn view(&self) -> FileView {
        FileView {
            version: self.version,
            id: self.id,
            generation: self.generation,
            messages: message_views(self.messages@),
            summary: text_opt(self.summary),
            todo: text_opt(self.todo),
            tokens_used: self.tokens_used,
            saved_at_ms: self.saved_at_ms,
        }
    }
}

// ── the session ─────────────────────────────────────────────────────

/// A conversation: its messages in order, the summary of what was cut off
/// before them, the work left open, and the tokens spent.
#[derive(Debug)]
pub struct Session {
    id: SessionId,
    messages: Vec<ModelMessage>,
    summary: Option<String>,
    todo: Option<String>,
    tokens_used: u64,
}

#[verifier::ext_equal]
pub struct SessionView {
    pub id: SessionId,
    pub messages: Seq<MessageView>,
    pub summary: Option<Seq<char>>,
    pub todo: Option<Seq<char>>,
    pub tokens_used: u64,
}

impl View for Session {
    type V = SessionView;

    closed spec fn view(&self) -> SessionView {
        SessionView {
            id: self.id,
            messages: message_views(self.messages@),
            summary: text_opt(self.summary),
            todo: text_opt(self.todo),
            tokens_used: self.tokens_used,
        }
    }
}

/// A session without any content.
pub open spec fn fresh(id: SessionId) -> SessionView {
    SessionView { id, messages: Seq::empty(), summary: None, todo: None, tokens_used: 0 }
}

/// The last `keep` messages, or all when there are fewer.
pub open spec fn last_messages(ms: Seq<MessageView>, keep: int) -> Seq<MessageView> {
    if ms.len() <= keep {
        ms
    } else {
        ms.skip(ms.len() - keep)
    }
}

/// The first `len` messages, or all when there are fewer.
pub open spec fn first_messages(ms: Seq<MessageView>, len: int) -> Seq<MessageView> {
    if ms.len() <= len {
        ms
    } else {
        ms.take(len)
    }
}

/// The messages without the user messages at the end that nobody answered.
pub open spec fn without_trailing_user(ms: Seq<MessageView>) -> Seq<MessageView>
    decreases ms.len(),
{
    if ms.len() > 0 && ms.last().role == Role::User {
        without_trailing_user(ms.drop_last())
    } else {
        ms
    }
}

/// A session after a compaction: the summary given, the last `keep` messages.
pub open spec fn compacted(s: SessionView, summary: Seq<char>, keep: int) -> SessionView {
    SessionView {
        messages: last_messages(s.messages, keep),
        summary: Some(summary),
        ..s
    }
}

/// The sum, or the largest number where it would be larger.
pub open spec fn sum_up_to_max(a: u64, b: u64) -> u64 {
    if a + b > u64::MAX {
        u64::MAX
    } else {
        (a + b) as u64
    }
}

/// What a session is after it was read back from `file`.
pub open spec fn read_back(file: FileView, s: SessionView) -> bool {
    &&& s.id.spec_identity() == file.id
    &&& s.id.spec_generation() == next_generation(file.generation)
    &&& s.messages == file.messages
    &&& s.summary == file.summary
    &&& s.todo == file.todo
    &&& s.tokens_used == file.tokens_used
}

/// What is written of a session.
pub open spec fn written(s: SessionView, saved_at_ms: u64) -> FileView {
    FileView {
        version: SESSION_FILE_VERSION,
        id: s.id.spec_identity(),
        generation: s.id.spec_generation(),
        messages: s.messages,
        summary: s.summary,
        todo: s.todo,
        tokens_used: s.tokens_used,
        saved_at_ms,
    }
}

/// What is said of a file whose version this library does not read.
pub open spec fn version_refusal(version: u32) -> Seq<char> {
    "unsupported session file version "@ + decimal(version as nat) + " (expected 1)"@
}

impl Session {
    /// A new session under the next identity.
    pub fn new(ids: &mut SessionIds) -> (r: Self)
        ensures
            r@ == fresh(r@.id),
            r@.id.spec_identity() == old(ids).upcoming(),
            r@.id.spec_generation() == 1,
            final(ids).upcoming() == identity_behind(old(ids).upcoming()),
    {
        let r = Session {
            id: SessionId::next(ids),
            messages: Vec::new(),
            summary: None,
            todo: None,
            tokens_used: 0,
        };
        assert(r@.messages =~= Seq::empty());
        r
    }

    /// The session that a file holds; a file of another version is refused.
    pub fn try_restore(file: SessionFile) -> (r: Result<Self, String>)
        ensures
            r is Ok <==> file.version == SESSION_FILE_VERSION,
            match r {
                Ok(s) => read_back(file@, s@),
                Err(e) => e@ == version_refusal(file.version),
            },
    {
        if file.version != SESSION_FILE_VERSION {
            let mut e = String::new();
            e.push_str("unsupported session file version ");
            e.push_str(number(file.version as u64).as_str());
            e.push_str(" (expected 1)");
            assert(e@ =~= version_refusal(file.version));
            return Err(e);
        }
        Ok(
            Session {
                id: SessionId::restored(file.id, file.generation),
                messages: file.messages,
                summary: file.summary,
                todo: file.todo,
                tokens_used: file.tokens_used,
            },
        )
    }

    /// The session that was read, or a new one: a file that is missing, cannot
    /// be read or has another version never stops the start.
    pub fn restore(read: Result<SessionFile, String>, ids: &mut SessionIds) -> (r: Self)
        ensures
            match read {
                Ok(file) => if file.version == SESSION_FILE_VERSION {
                    read_back(file@, r@) && final(ids).upcoming() == old(ids).upcoming()
                } else {
                    r@ == fresh(r@.id)
                },
                Err(_) => r@ == fresh(r@.id),
            },
            !(read is Ok && read->Ok_0.version == SESSION_FILE_VERSION) ==> {
                &&& r@.id.spec_identity() == old(ids).upcoming()
                &&& r@.id.spec_generation() == 1
                &&& final(ids).upcoming() == identity_behind(old(ids).upcoming())
            },
    {
        match read {
            Ok(file) => match Self::try_restore(file) {
                Ok(s) => s,
                Err(_) => Self::new(ids),
            },
            Err(_) => Self::new(ids),
        }
    }

    pub fn id(&self) -> (r: SessionId)
        ensures
            r == self@.id,
    {
        self.id
    }

    /// Adds one message at the end.
    pub fn push(&mut self, msg: ModelMessage)
        ensures
            final(self)@ == (SessionView {
                messages: old(self)@.messages.push(msg@),
                ..old(self)@
            }),
    {
        self.messages.push(msg);
        assert(self@.messages =~= old(self)@.messages.push(msg@));
    }

    /// The messages, in order.
    pub fn messages(&self) -> (r: &Vec<ModelMessage>)
        ensures
            message_views(r@) == self@.messages,
    {
        &self.messages
    }

    /// The summary of what was cut off before the messages.
    pub fn summary(&self) -> (r: Option<&str>)
        ensures
            match r {
                Some(s) => self@.summary == Some(s@),
                None => self@.summary is None,
            },
    {
        match &self.summary {
            Some(s) => Some(s.as_str()),
            None => None,
        }
    }

    /// The work left open.
    pub fn todo(&self) -> (r: Option<&str>)
        ensures
            match r {
                Some(s) => self@.todo == Some(s@),
                None => self@.todo is None,
            },
    {
        match &self.todo {
            Some(s) => Some(s.as_str()),
            None => None,
        }
    }

    /// Notes the work left open; an empty text clears the note.
    pub fn set_todo(&mut self, todo: String)
        ensures
            final(self)@ == (SessionView {
                todo: if todo@.len() == 0 {
                    None
                } else {
                    Some(todo@)
                },
                ..old(self)@
            }),
    {
        self.todo = if todo.as_str().is_empty() {
            None
        } else {
            Some(todo)
        };
    }

    /// The tokens spent so far.
    pub fn tokens_used(&self) -> (r: u64)
        ensures
            r == self@.tokens_used,
    {
        self.tokens_used
    }

    /// Counts spent tokens; the count stops at its largest value.
    pub fn add_tokens(&mut self, tokens: u64)
        ensures
            final(self)@ == (SessionView {
                tokens_used: sum_up_to_max(old(self)@.tokens_used, tokens),
                ..old(self)@
            }),
    {
        self.tokens_used = self.tokens_used.saturating_add(tokens);
    }

    /// Keeps the summary and the last `keep` messages. Says how many messages
    /// there were and are.
    pub fn compact(&mut self, summary: String, keep: usize) -> (r: (usize, usize))
        ensures
            final(self)@ == compacted(old(self)@, summary@, keep as int),
            r.0 == old(self)@.messages.len(),
            r.1 == final(self)@.messages.len(),
    {
        let before: usize = self.messages.len();
        self.summary = Some(summary);
        if before > keep {
            let ghost whole = self.messages@;
            let rest = self.messages.split_off(before - keep);
            self.messages = rest;
            assert(message_views(self.messages@) =~= message_views(whole).skip(before - keep));
        }
        (before, self.messages.len())
    }

    /// Goes back to the first `len` messages.
    pub fn truncate_to(&mut self, len: usize)
        ensures
            final(self)@ == (SessionView {
                messages: first_messages(old(self)@.messages, len as int),
                ..old(self)@
            }),
    {
        let ghost whole = self.messages@;
        self.messages.truncate(len);
        proof {
            if len < whole.len() {
                assert(message_views(self.messages@) =~= message_views(whole).take(len as int));
            } else {
                assert(self.messages@ =~= whole);
            }
        }
    }

    /// Repairs the history: drops what has lost its counterpart, and the user
    /// messages at the end that nobody answered. Says how many messages there
    /// were and are.
    pub fn sanitize(&mut self) -> (r: (usize, usize))
        ensures
            final(self)@ == (SessionView {
                messages: without_trailing_user(sanitized(old(self)@.messages)),
                ..old(self)@
            }),
            r.0 == old(self)@.messages.len(),
            r.1 == final(self)@.messages.len(),
    {
        let before: usize = self.messages.len();
        let mut kept = sanitize_history(&self.messages);
        let ghost whole = message_views(kept@);
        while kept.len() > 0 && kept[kept.len() - 1].role == Role::User
            invariant
                without_trailing_user(message_views(kept@)) == without_trailing_user(whole),
            decreases kept@.len(),
        {
            let ghost longer = message_views(kept@);
            let _ = kept.pop();
            assert(message_views(kept@) =~= longer.drop_last());
        }
        self.messages = kept;
        (before, self.messages.len())
    }

    /// What is to be written of the session.
    pub fn persist(&self, saved_at_ms: u64) -> (r: SessionFile)
        ensures
            r@ == written(self@, saved_at_ms),
    {
        SessionFile {
            version: SESSION_FILE_VERSION,
            id: self.id.identity(),
            generation: self.id.generation(),
            messages: copy_messages(&self.messages),
            summary: copy_text(&self.summary),
            todo: copy_text(&self.todo),
            tokens_used: self.tokens_used,
            saved_at_ms,
        }
    }
}

/// The file that a session is written to before it takes its place: the same
/// path with `.tmp` behind it.
pub fn tmp_path(path: &str) -> (r: String)
    ensures
        r@ == path@ + ".tmp"@,
{
    let mut out = String::new();
    out.push_str(path);
    out.push_str(".tmp");
    assert(out@ =~= path@ + ".tmp"@);
    out
}

// ── laws ────────────────────────────────────────────────────────────

/// A session that is written and read back is the same session one generation
/// on, whenever it was written; and what is written can be read back.
pub proof fn law_persist_restore(s: SessionView, saved_at_ms: u64, back: SessionView)
    requires
        read_back(written(s, saved_at_ms), back),
    ensures
        written(s, saved_at_ms).version == SESSION_FILE_VERSION,
        back.id.spec_identity() == s.id.spec_identity(),
        back.id.spec_generation() == next_generation(s.id.spec_generation()),
        back.messages == s.messages,
        back.summary == s.summary,
        back.todo == s.todo,
        back.tokens_used == s.tokens_used,
{
}

/// A restart never takes a session to an earlier generation, and to a later
/// one as long as there is one.
pub proof fn law_generation_grows(generation: u32)
    ensures
        next_generation(generation) >= generation,
        generation < u32::MAX ==> next_generation(generation) == generation + 1,
{
}

/// Going back to the length before some messages were added gives the messages
/// there were.
pub proof fn law_truncate_undoes_push(ms: Seq<MessageView>, added: Seq<MessageView>)
    ensures
        first_messages(ms + added, ms.len() as int) == ms,
        first_messages(first_messages(ms, added.len() as int), added.len() as int)
            == first_messages(ms, added.len() as int),
{
    if added.len() == 0 {
        assert(ms + added =~= ms);
    } else {
        assert((ms + added).take(ms.len() as int) =~= ms);
    }
}

/// A compaction keeps the latest messages only, at most `keep` of them, and a
/// second one to the same number changes the summary alone.
pub proof fn law_compact(s: SessionView, first: Seq<char>, second: Seq<char>, keep: int)
    requires
        keep >= 0,
    ensures
        compacted(s, first, keep).messages.len() <= keep || compacted(s, first, keep).messages
            == s.messages,
        compacted(s, first, keep).messages.len() <= s.messages.len(),
        compacted(compacted(s, first, keep), second, keep) == compacted(s, second, keep),
{
}

proof fn lemma_without_trailing_user(ms: Seq<MessageView>)
    ensures
        ({
            let r = without_trailing_user(ms);
            &&& r.len() <= ms.len()
            &&& r == ms.take(r.len() as int)
            &&& r.len() > 0 ==> r.last().role != Role::User
            &&& forall|i: int| r.len() <= i < ms.len() ==> (#[trigger] ms[i]).role == Role::User
        }),
    decreases ms.len(),
{
    if ms.len() > 0 && ms.last().role == Role::User {
        lemma_without_trailing_user(ms.drop_last());
        let r = without_trailing_user(ms);
        assert(ms.drop_last().take(r.len() as int) =~= ms.take(r.len() as int));
        assert forall|i: int| r.len() <= i < ms.len() implies (#[trigger] ms[i]).role
            == Role::User by {
            if i < ms.len() - 1 {
                assert(ms[i] == ms.drop_last()[i]);
            }
        }
    } else {
        assert(ms.take(ms.len() as int) =~= ms);
    }
}

/// A legal history stays legal without its last messages, when those are all
/// of the user.
proof fn lemma_legal_without_users(ms: Seq<MessageView>, n: int)
    requires
        legal(ms),
        0 <= n <= ms.len(),
        forall|i: int| n <= i < ms.len() ==> (#[trigger] ms[i]).role == Role::User,
    ensures
        legal(ms.take(n)),
{
    let z = ms.take(n);
    assert forall|i: int| 0 <= i < z.len() implies #[trigger] in_order(z, i) by {
        assert(in_order(ms, i));
        assert(z[i] == ms[i]);
        assert forall|id: Seq<char>| z[i].role == Role::Assistant && asks(z[i], id) implies #[trigger] has_result(z, i, id) by {
            assert(has_result(ms, i, id));
            let j = choose|j: int| #[trigger] in_block(ms, i, j) && brings(ms[j], id);
            assert(ms[j].role == Role::Tool);
            assert forall|k: int| i < k <= j implies (#[trigger] z[k]).role == Role::Tool by {
                assert(ms[k].role == Role::Tool);
            }
            assert(in_block(z, i, j));
        }
        if z[i].role == Role::Tool {
            assert(has_call(ms, i));
            let a = choose|a: int| #[trigger] in_block(ms, a, i) && serves(ms[a], ms[i]);
            assert forall|k: int| a < k <= i implies (#[trigger] z[k]).role == Role::Tool by {
                assert(ms[k].role == Role::Tool);
            }
            assert(in_block(z, a, i));
        }
    }
}

/// A repaired session is legal, does not end with an unanswered message of the
/// user, and repairing it once more changes nothing.
pub proof fn law_sanitize_repairs(ms: Seq<MessageView>)
    ensures
        ({
            let r = without_trailing_user(sanitized(ms));
            &&& legal(r)
            &&& r.len() > 0 ==> r.last().role != Role::User
            &&& without_trailing_user(sanitized(r)) == r
        }),
{
    let r = without_trailing_user(sanitized(ms));
    law_sanitized_is_legal(ms);
    lemma_without_trailing_user(sanitized(ms));
    lemma_legal_without_users(sanitized(ms), r.len() as int);
    law_legal_is_unchanged(r);
}

/// A compaction keeps the latest messages, as they stood and in their order:
/// as many as it is asked to keep, or all where there are fewer. It changes
/// nothing else but the summary.
pub proof fn law_compact_keeps_the_latest(s: SessionView, summary: Seq<char>, keep: nat)
    ensures
        ({
            let r = compacted(s, summary, keep as int);
            &&& r.messages.len() == if s.messages.len() < keep {
                s.messages.len()
            } else {
                keep
            }
            &&& r.messages == s.messages.skip(s.messages.len() - r.messages.len())
            &&& keep > 0 && s.messages.len() > 0 ==> r.messages.last() == s.messages.last()
            &&& r.summary == Some(summary)
            &&& r.todo == s.todo
            &&& r.tokens_used == s.tokens_used
            &&& r.id == s.id
        }),
{
    let r = compacted(s, summary, keep as int);
    assert(r.messages =~= s.messages.skip(s.messages.len() - r.messages.len()));
}

/// Tokens are added up whatever the order they are counted in, exactly as long
/// as the sum can be held, and the count never falls.
pub proof fn law_tokens_add_up(a: u64, b: u64, c: u64)
    ensures
        a + b <= u64::MAX ==> sum_up_to_max(a, b) == a + b,
        a + b > u64::MAX ==> sum_up_to_max(a, b) == u64::MAX,
        sum_up_to_max(a, b) >= a,
        sum_up_to_max(sum_up_to_max(a, b), c) == sum_up_to_max(a, sum_up_to_max(b, c)),
{
}

/// New sessions have different identities, one behind the other.
pub proof fn law_identities_differ(n: u64)
    ensures
        identity_behind(n) != n,
        n < u64::MAX ==> identity_behind(n) == n + 1,
        n == u64::MAX ==> identity_behind(n) == 0,
{
}

/// To repair a session drops of its repaired history only messages of the user
/// at the end, and all of these.
pub proof fn law_only_the_unanswered_are_dropped(ms: Seq<MessageView>)
    ensures
        ({
            let whole = sanitized(ms);
            let r = without_trailing_user(whole);
            &&& r.len() <= whole.len()
            &&& r == whole.take(r.len() as int)
            &&& forall|i: int| r.len() <= i < whole.len() ==> (#[trigger] whole[i]).role == Role::User
            &&& r.len() > 0 ==> r.last().role != Role::User
        }),
{
    lemma_without_trailing_user(sanitized(ms));
}

/// A file says which version it is, the first, and a file of another version
/// is refused by a text that names that version.
pub proof fn law_version_is_told(s: SessionView, saved_at_ms: u64, version: u32)
    ensures
        written(s, saved_at_ms).version == 1,
        written(s, saved_at_ms).saved_at_ms == saved_at_ms,
        occurs(version_refusal(version), decimal(version as nat)),
        stands_at(version_refusal(version), "unsupported session file version "@, 0),
{
    let front = "unsupported session file version "@;
    lemma_stands_in(front, decimal(version as nat), " (expected 1)"@);
    lemma_stands_in(Seq::empty(), front, decimal(version as nat) + " (expected 1)"@);
    assert(Seq::empty() + front + (decimal(version as nat) + " (expected 1)"@) =~= version_refusal(
        version,
    ));
}

/// A history cut back to a length has that length, or its own where that is
/// less, and is the front of what it was.
pub proof fn law_truncate_keeps_the_front(ms: Seq<MessageView>, len: nat)
    ensures
        first_messages(ms, len as int).len() == if ms.len() < len {
            ms.len()
        } else {
            len
        },
        first_messages(ms, len as int) == ms.take(first_messages(ms, len as int).len() as int),
{
    assert(first_messages(ms, len as int) =~= ms.take(
        first_messages(ms, len as int).len() as int,
    ));
}

} // verus!
