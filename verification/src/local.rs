use vstd::prelude::*;
use crate::types::{ClockError, Message, MessageView, Role, Timestamp, current_time, messages_view};
use crate::text::{chars_of, string_of};
use crate::keywords::{keyword_score, query_keywords, query_char_ok, extract_keywords, score_content, strings_view};
use crate::rank::{is_ranking, top_of, select_top};

verus! {

/// The view of the sessions: each session's id with its messages, oldest first.
pub type SessionsView = Seq<(Seq<char>, Seq<MessageView>)>;

/// No two sessions share an id.
pub open spec fn distinct_ids(v: SessionsView) -> bool {
    forall|i: int, j: int| 0 <= i < j < v.len() ==> (#[trigger] v[i]).0 != (#[trigger] v[j]).0
}

/// A session with this id exists.
pub open spec fn has_session(v: SessionsView, sid: Seq<char>) -> bool {
    exists|i: int| 0 <= i < v.len() && (#[trigger] v[i]).0 == sid
}

/// The position of the session with this id.
pub open spec fn session_index(v: SessionsView, sid: Seq<char>) -> int {
    choose|i: int| 0 <= i < v.len() && (#[trigger] v[i]).0 == sid
}

/// The messages of the session with this id, oldest first (none if there is
/// no such session).
pub open spec fn session_messages(v: SessionsView, sid: Seq<char>) -> Seq<MessageView> {
    if has_session(v, sid) {
        v[session_index(v, sid)].1
    } else {
        Seq::empty()
    }
}

/// The role that a stored role label stands for: "assistant" is the model,
/// anything else the user.
pub open spec fn role_of_label(label: Seq<char>) -> Role {
    if label == seq!['a', 's', 's', 'i', 's', 't', 'a', 'n', 't'] {
        Role::LLM
    } else {
        Role::User
    }
}

/// The message that saving `content` under `label` at time `ts` appends to the
/// session: its id is the session's length after the append.
pub open spec fn saved_message(
    v: SessionsView,
    sid: Seq<char>,
    label: Seq<char>,
    content: Seq<char>,
    ts: Timestamp,
) -> MessageView {
    MessageView {
        id: Some((session_messages(v, sid).len() + 1) as u64),
        session_id: sid,
        role: role_of_label(label),
        content,
        timestamp: ts,
        tokens: None,
    }
}

/// The sessions after `m` is appended to session `sid` (created if missing, at
/// the end).
pub open spec fn after_save(v: SessionsView, sid: Seq<char>, m: MessageView) -> SessionsView {
    if has_session(v, sid) {
        let k = session_index(v, sid);
        v.update(k, (sid, v[k].1.push(m)))
    } else {
        v.push((sid, seq![m]))
    }
}

/// The sessions after session `sid` is given the messages `ms` (replacing
/// what it had, or created at the end).
pub open spec fn after_load(v: SessionsView, sid: Seq<char>, ms: Seq<MessageView>) -> SessionsView {
    if has_session(v, sid) {
        v.update(session_index(v, sid), (sid, ms))
    } else {
        v.push((sid, ms))
    }
}

/// The sessions after session `sid` is removed.
pub open spec fn after_clear(v: SessionsView, sid: Seq<char>) -> SessionsView {
    if has_session(v, sid) {
        v.remove(session_index(v, sid))
    } else {
        v
    }
}

/// The last `limit` messages (all of them if there are fewer), oldest first.
pub open spec fn most_recent(ms: Seq<MessageView>, limit: nat) -> Seq<MessageView> {
    if limit < ms.len() {
        ms.subrange(ms.len() - limit, ms.len() as int)
    } else {
        ms
    }
}

/// The messages whose id is not `id`, in order.
pub open spec fn without_id(ms: Seq<MessageView>, id: u64) -> Seq<MessageView>
    decreases ms.len(),
{
    if ms.len() == 0 {
        Seq::empty()
    } else {
        without_id(ms.drop_last(), id) + if ms.last().id == Some(id) {
            Seq::empty()
        } else {
            seq![ms.last()]
        }
    }
}

/// The sessions after every message with id `id` is removed; sessions left
/// empty stay.
pub open spec fn after_delete(v: SessionsView, id: u64) -> SessionsView {
    v.map_values(|p: (Seq<char>, Seq<MessageView>)| (p.0, without_id(p.1, id)))
}

/// The ids of the sessions that hold a message with id `id`, in order: the
/// sessions that deleting `id` changes.
pub open spec fn sessions_with_id(v: SessionsView, id: u64) -> Seq<Seq<char>>
    decreases v.len(),
{
    if v.len() == 0 {
        Seq::empty()
    } else {
        sessions_with_id(v.drop_last(), id) + if has_message_id(v.last().1, id) {
            seq![v.last().0]
        } else {
            Seq::empty()
        }
    }
}

/// The messages of a session that match at least one keyword, in order.
pub open spec fn keyword_candidates(ms: Seq<MessageView>, kws: Seq<Seq<char>>) -> Seq<MessageView>
    decreases ms.len(),
{
    if ms.len() == 0 {
        Seq::empty()
    } else {
        keyword_candidates(ms.drop_last(), kws) + if keyword_score(ms.last().content, kws) > 0 {
            seq![ms.last()]
        } else {
            Seq::empty()
        }
    }
}

/// The scores of the keyword candidates, in the same order.
pub open spec fn candidate_scores(ms: Seq<MessageView>, kws: Seq<Seq<char>>) -> Seq<u64>
    decreases ms.len(),
{
    if ms.len() == 0 {
        Seq::empty()
    } else {
        candidate_scores(ms.drop_last(), kws) + if keyword_score(ms.last().content, kws) > 0 {
            seq![keyword_score(ms.last().content, kws) as u64]
        } else {
            Seq::empty()
        }
    }
}

/// `r` is what a keyword search of the messages `ms` by the keywords `kws`
/// returns: the `top_k` messages that match the most keywords, best first,
/// messages with equal scores in their stored order.
pub open spec fn is_keyword_result(
    ms: Seq<MessageView>,
    kws: Seq<Seq<char>>,
    top_k: nat,
    r: Seq<MessageView>,
) -> bool {
    exists|order: Seq<usize>|
        is_ranking(candidate_scores(ms, kws), order) && r == top_of(
            keyword_candidates(ms, kws),
            order,
            top_k,
        )
}

/// Some message of `ms` has id `id`.
pub open spec fn has_message_id(ms: Seq<MessageView>, id: u64) -> bool {
    exists|j: int| 0 <= j < ms.len() && (#[trigger] ms[j]).id == Some(id)
}

/// Message `j` of session `k` is the first message with id `id`, looking
/// through the sessions in order.
pub open spec fn is_update_target(v: SessionsView, id: u64, k: int, j: int) -> bool {
    &&& 0 <= k < v.len()
    &&& 0 <= j < v[k].1.len()
    &&& v[k].1[j].id == Some(id)
    &&& forall|k2: int| 0 <= k2 < k ==> !has_message_id(#[trigger] v[k2].1, id)
    &&& forall|j2: int| 0 <= j2 < j ==> (#[trigger] v[k].1[j2]).id != Some(id)
}

/// The sessions after message `j` of session `k` gets the content `c`.
pub open spec fn after_update(v: SessionsView, k: int, j: int, c: Seq<char>) -> SessionsView {
    v.update(k, (v[k].0, v[k].1.update(j, MessageView { content: c, ..v[k].1[j] })))
}

pub proof fn lemma_session_index(v: SessionsView, sid: Seq<char>, i: int)
    requires
        distinct_ids(v),
        0 <= i < v.len(),
        v[i].0 == sid,
    ensures
        has_session(v, sid),
        session_index(v, sid) == i,
        session_messages(v, sid) == v[i].1,
{
    assert(has_session(v, sid));
    let k = session_index(v, sid);
    if k != i {
        if k < i {
            assert(v[k].0 != v[i].0);
        } else {
            assert(v[i].0 != v[k].0);
        }
    }
}


/// The role that a stored label stands for: "assistant" is the model, any
/// other label the user.
pub fn role_from_label(label: &str) -> (r: Role)
    ensures
        r == role_of_label(label@),
{
    let l = String::from_str(label);
    let assistant = String::from_str("assistant");
    proof {
        reveal_strlit("assistant");
        assert(assistant@ =~= seq!['a', 's', 's', 'i', 's', 't', 'a', 'n', 't']);
    }
    if l == assistant {
        Role::LLM
    } else {
        Role::User
    }
}

/// The messages whose id is not `id`, in order.
pub fn without_message(messages: &Vec<Message>, id: u64) -> (r: Vec<Message>)
    ensures
        messages_view(r@) == without_id(messages_view(messages@), id),
{
    let ghost ms = messages_view(messages@);
    let mut r: Vec<Message> = Vec::new();
    let mut i: usize = 0;
    while i < messages.len()
        invariant
            ms == messages_view(messages@),
            i <= messages@.len(),
            messages_view(r@) == without_id(ms.take(i as int), id),
        decreases messages@.len() - i,
    {
        proof {
            assert(ms.take(i + 1).drop_last() =~= ms.take(i as int));
            assert(ms.take(i + 1).last() == messages@[i as int]@);
        }
        if messages[i].id != Some(id) {
            let ghost before = r@;
            r.push(messages[i].duplicate());
            proof {
                assert(messages_view(r@) =~= messages_view(before).push(messages@[i as int]@));
            }
        }
        proof {
            assert(messages_view(r@) =~= without_id(ms.take(i + 1), id));
        }
        i += 1;
    }
    proof {
        assert(ms.take(i as int) =~= ms);
    }
    r
}

/// The extension of the files that hold sessions, after the dot.
pub open spec fn json_extension() -> Seq<char> {
    seq!['j', 's', 'o', 'n']
}

/// The name of the file that holds a session: the id followed by ".json".
pub open spec fn spec_session_file_name(sid: Seq<char>) -> Seq<char> {
    sid + seq!['.'] + json_extension()
}

/// The position of the last '.' in `s`, or -1 if there is none.
pub open spec fn last_dot(s: Seq<char>) -> int
    decreases s.len(),
{
    if s.len() == 0 {
        -1
    } else if s.last() == '.' {
        s.len() - 1
    } else {
        last_dot(s.drop_last())
    }
}

/// The session that a file of the storage directory holds: the file name
/// split at its last dot has a non-empty stem and the extension "json" (a name
/// whose only dot leads it has no extension).
pub open spec fn session_of_file_name(name: Seq<char>) -> Option<Seq<char>> {
    let p = last_dot(name);
    if p > 0 && name.subrange(p + 1, name.len() as int) == json_extension() {
        Some(name.subrange(0, p))
    } else {
        None
    }
}

pub proof fn lemma_last_dot_bounds(s: Seq<char>)
    ensures
        -1 <= last_dot(s) < s.len(),
        last_dot(s) >= 0 ==> s[last_dot(s)] == '.',
        forall|k: int| last_dot(s) < k < s.len() ==> s[k] != '.',
    decreases s.len(),
{
    if s.len() > 0 && s.last() != '.' {
        lemma_last_dot_bounds(s.drop_last());
        assert forall|k: int| last_dot(s) < k < s.len() implies s[k] != '.' by {
            if k < s.len() - 1 {
                assert(s.drop_last()[k] == s[k]);
            }
        }
    }
}

/// The name of the file that holds the session: the id followed by ".json".
pub fn session_file_name(session_id: &str) -> (name: String)
    ensures
        name@ == spec_session_file_name(session_id@),
{
    let mut name = String::from_str(session_id);
    name.append(".json");
    proof {
        reveal_strlit(".json");
        assert(".json"@ =~= seq!['.'] + json_extension());
        assert(name@ =~= spec_session_file_name(session_id@));
    }
    name
}

/// The id of the session that a file of the storage directory holds, if its
/// name marks it as one (see `session_of_file_name`).
pub fn session_id_from_file_name(name: &str) -> (sid: Option<String>)
    ensures
        match sid {
            Some(s) => session_of_file_name(name@) == Some(s@),
            None => session_of_file_name(name@) is None,
        },
{
    let chars = chars_of(name);
    let ghost s = name@;
    let n = chars.len();
    proof {
        lemma_last_dot_bounds(s);
    }
    let mut p: usize = n;
    assert(s.take(n as int) =~= s);
    while p > 0 && chars[p - 1] != '.'
        invariant
            chars@ == s,
            n == s.len(),
            p <= n,
            last_dot(s) == last_dot(s.take(p as int)),
        decreases p,
    {
        proof {
            assert(s.take(p as int).drop_last() =~= s.take(p - 1));
        }
        p -= 1;
    }
    if p == 0 {
        proof {
            assert(s.take(0) =~= Seq::<char>::empty());
        }
        return None;
    }
    let dot = p - 1;
    proof {
        assert(s.take(p as int).last() == '.');
        assert(last_dot(s) == dot);
    }
    if dot == 0 || n - p != 4 {
        proof {
            if dot != 0 {
                assert(s.subrange(p as int, n as int).len() != json_extension().len());
            }
        }
        return None;
    }
    if chars[p] == 'j' && chars[p + 1] == 's' && chars[p + 2] == 'o' && chars[p + 3] == 'n' {
        proof {
            assert(s.subrange(p as int, n as int) =~= json_extension());
        }
        let stem = string_of(&chars[0..dot]);
        proof {
            assert(chars@.subrange(0, dot as int) =~= s.subrange(0, dot as int));
        }
        Some(stem)
    } else {
        proof {
            let ext = s.subrange(p as int, n as int);
            if ext == json_extension() {
                assert(ext[0] == 'j' && ext[1] == 's' && ext[2] == 'o' && ext[3] == 'n');
            }
        }
        None
    }
}

/// A session's file name leads back to the session: for every non-empty
/// session id, the file named after it is read back as that session.
pub proof fn lemma_file_name_round_trip(sid: Seq<char>)
    requires
        sid.len() > 0,
    ensures
        session_of_file_name(spec_session_file_name(sid)) == Some(sid),
{
    let name = spec_session_file_name(sid);
    let n: int = sid.len() as int;
    let s4 = sid + seq!['.', 'j', 's', 'o'];
    let s3 = sid + seq!['.', 'j', 's'];
    let s2 = sid + seq!['.', 'j'];
    let s1 = sid + seq!['.'];
    assert(name.drop_last() =~= s4);
    assert(s4.drop_last() =~= s3);
    assert(s3.drop_last() =~= s2);
    assert(s2.drop_last() =~= s1);
    assert(s1.last() == '.');
    assert(last_dot(s1) == n);
    assert(s2.last() == 'j');
    assert(last_dot(s2) == n);
    assert(s3.last() == 's');
    assert(last_dot(s3) == n);
    assert(s4.last() == 'o');
    assert(last_dot(s4) == n);
    assert(name.last() == 'n');
    assert(last_dot(name) == n);
    assert(name.subrange(n + 1, name.len() as int) =~= json_extension());
    assert(name.subrange(0, n) =~= sid);
}

/// One conversation: its id and its messages, oldest first.
struct Session {
    id: String,
    messages: Vec<Message>,
}

/// Conversations kept in memory, one per session id.
pub struct LocalDatabase {
    sessions: Vec<Session>,
}

impl View for LocalDatabase {
    type V = SessionsView;

    closed spec fn view(&self) -> SessionsView {
        self.sessions@.map_values(|s: Session| (s.id@, messages_view(s.messages@)))
    }
}

impl LocalDatabase {
    /// Every session id occurs once.
    pub open spec fn wf(&self) -> bool {
        distinct_ids(self@)
    }

    /// A store without sessions.
    pub fn new() -> (db: LocalDatabase)
        ensures
            db@ == SessionsView::empty(),
            db.wf(),
    {
        let db = LocalDatabase { sessions: Vec::new() };
        assert(db@ =~= SessionsView::empty());
        db
    }

    /// The position of the session with this id, if there is one.
    fn find_session(&self, sid: &String) -> (r: Option<usize>)
        requires
            self.wf(),
        ensures
            match r {
                Some(i) => i < self@.len() && self@[i as int].0 == sid@ && session_index(self@, sid@) == i
                    && has_session(self@, sid@),
                None => !has_session(self@, sid@),
            },
    {
        let mut i: usize = 0;
        while i < self.sessions.len()
            invariant
                self.wf(),
                i <= self.sessions@.len(),
                self@.len() == self.sessions@.len(),
                forall|k: int| 0 <= k < self.sessions@.len() ==> #[trigger] self@[k] == (
                    self.sessions@[k].id@,
                    messages_view(self.sessions@[k].messages@),
                ),
                forall|k: int| 0 <= k < i ==> (#[trigger] self@[k]).0 != sid@,
            decreases self.sessions@.len() - i,
        {
            if self.sessions[i].id == *sid {
                proof {
                    lemma_session_index(self@, sid@, i as int);
                }
                return Some(i);
            }
            i += 1;
        }
        None
    }

    /// Appends a message stamped `timestamp` to the session (created if
    /// missing). Its id is the session's length after the append; the label
    /// "assistant" marks a message of the model, any other label one of the
    /// user.
    pub fn save_message_at(&mut self, session_id: &str, role: &str, content: &str, timestamp: Timestamp)
        requires
            old(self).wf(),
            session_messages(old(self)@, session_id@).len() < u64::MAX,
        ensures
            final(self).wf(),
            final(self)@ == after_save(
                old(self)@,
                session_id@,
                saved_message(old(self)@, session_id@, role@, content@, timestamp),
            ),
    {
        let sid = String::from_str(session_id);
        let role_enum = role_from_label(role);
        let ghost v = self@;
        let ghost m = saved_message(v, session_id@, role@, content@, timestamp);
        match self.find_session(&sid) {
            Some(i) => {
                proof {
                    lemma_session_index(v, sid@, i as int);
                }
                let mut s = self.sessions.remove(i);
                let id = s.messages.len() as u64 + 1;
                let mut msg = Message::with_timestamp(String::from_str(session_id), role_enum, String::from_str(content), timestamp);
                msg.id = Some(id);
                proof {
                    assert(msg@ == m);
                }
                let ghost old_msgs = s.messages@;
                s.messages.push(msg);
                proof {
                    assert(messages_view(s.messages@) =~= messages_view(old_msgs).push(m));
                }
                self.sessions.insert(i, s);
                proof {
                    assert(self@ =~= v.update(i as int, (sid@, v[i as int].1.push(m))));
                    assert forall|a: int, b: int| 0 <= a < b < self@.len() implies (#[trigger] self@[a]).0
                        != (#[trigger] self@[b]).0 by {
                        assert(self@[a].0 == v[a].0 && self@[b].0 == v[b].0);
                    }
                }
            },
            None => {
                let mut msg = Message::with_timestamp(String::from_str(session_id), role_enum, String::from_str(content), timestamp);
                msg.id = Some(1);
                proof {
                    assert(session_messages(v, sid@).len() == 0);
                    assert(msg@ == m);
                }
                let mut msgs: Vec<Message> = Vec::new();
                msgs.push(msg);
                self.sessions.push(Session { id: sid, messages: msgs });
                proof {
                    assert(messages_view(msgs@) =~= seq![m]);
                    assert(self@ =~= v.push((session_id@, seq![m])));
                    assert forall|a: int, b: int| 0 <= a < b < self@.len() implies (#[trigger] self@[a]).0
                        != (#[trigger] self@[b]).0 by {
                        if b == v.len() {
                            assert(v[a].0 != session_id@);
                        }
                    }
                }
            },
        }
    }

    /// Appends a message stamped with the current time to the session
    /// (created if missing), as `save_message_at` does; when the clock cannot
    /// give a timestamp (see `current_time`) the store is left as it was and
    /// the error comes back.
    pub fn save_message(&mut self, session_id: &str, role: &str, content: &str) -> (r: Result<(), ClockError>)
        requires
            old(self).wf(),
            session_messages(old(self)@, session_id@).len() < u64::MAX,
        ensures
            final(self).wf(),
            match r {
                Ok(()) => exists|ts: Timestamp|
                    ts.secs >= 0 && ts.nanos < 1_000_000_000 && final(self)@ == after_save(
                        old(self)@,
                        session_id@,
                        saved_message(old(self)@, session_id@, role@, content@, ts),
                    ),
                Err(_) => final(self)@ == old(self)@,
            },
    {
        let ts = current_time()?;
        self.save_message_at(session_id, role, content, ts);
        Ok(())
    }

    /// Gives the session exactly these messages, replacing what it held, or
    /// adds it at the end if it is new.
    pub fn load_session(&mut self, session_id: String, messages: Vec<Message>)
        requires
            old(self).wf(),
        ensures
            final(self).wf(),
            final(self)@ == after_load(old(self)@, session_id@, messages_view(messages@)),
    {
        let ghost v = self@;
        let ghost ms = messages_view(messages@);
        match self.find_session(&session_id) {
            Some(i) => {
                proof {
                    lemma_session_index(v, session_id@, i as int);
                }
                let _old = self.sessions.remove(i);
                self.sessions.insert(i, Session { id: session_id, messages });
                proof {
                    assert(self@ =~= v.update(i as int, (v[i as int].0, ms)));
                    assert forall|a: int, b: int| 0 <= a < b < self@.len() implies (#[trigger] self@[a]).0
                        != (#[trigger] self@[b]).0 by {
                        assert(self@[a].0 == v[a].0 && self@[b].0 == v[b].0);
                    }
                }
            },
            None => {
                let ghost sid = session_id@;
                self.sessions.push(Session { id: session_id, messages });
                proof {
                    assert(self@ =~= v.push((sid, ms)));
                    assert forall|a: int, b: int| 0 <= a < b < self@.len() implies (#[trigger] self@[a]).0
                        != (#[trigger] self@[b]).0 by {
                        if b == v.len() {
                            assert(v[a].0 != sid);
                        }
                    }
                }
            },
        }
    }

    /// Removes the session and its messages.
    pub fn clear_session(&mut self, session_id: &str)
        requires
            old(self).wf(),
        ensures
            final(self).wf(),
            final(self)@ == after_clear(old(self)@, session_id@),
    {
        let sid = String::from_str(session_id);
        let ghost v = self@;
        match self.find_session(&sid) {
            Some(i) => {
                let _gone = self.sessions.remove(i);
                proof {
                    assert(self@ =~= v.remove(i as int));
                    assert forall|a: int, b: int| 0 <= a < b < self@.len() implies (#[trigger] self@[a]).0
                        != (#[trigger] self@[b]).0 by {
                        if a < i {
                            if b < i {
                                assert(self@[a] == v[a] && self@[b] == v[b]);
                            } else {
                                assert(self@[a] == v[a] && self@[b] == v[b + 1]);
                            }
                        } else {
                            assert(self@[a] == v[a + 1] && self@[b] == v[b + 1]);
                        }
                    }
                }
            },
            None => {},
        }
    }

    /// The ids of all sessions, in the order they were first stored.
    pub fn get_all_sessions(&self) -> (ids: Vec<String>)
        ensures
            strings_view(ids@) == self@.map_values(|p: (Seq<char>, Seq<MessageView>)| p.0),
    {
        let mut ids: Vec<String> = Vec::new();
        let mut i: usize = 0;
        while i < self.sessions.len()
            invariant
                i <= self.sessions@.len(),
                self@.len() == self.sessions@.len(),
                forall|k: int| 0 <= k < self.sessions@.len() ==> #[trigger] self@[k] == (
                    self.sessions@[k].id@,
                    messages_view(self.sessions@[k].messages@),
                ),
                strings_view(ids@) =~= self@.take(i as int).map_values(|p: (Seq<char>, Seq<MessageView>)| p.0),
            decreases self.sessions@.len() - i,
        {
            let ghost before = ids@;
            ids.push(self.sessions[i].id.clone());
            proof {
                assert(strings_view(ids@) =~= strings_view(before).push(self@[i as int].0));
                assert(self@.take(i + 1) =~= self@.take(i as int).push(self@[i as int]));
            }
            i += 1;
        }
        proof {
            assert(self@.take(i as int) =~= self@);
        }
        ids
    }

    /// The most recent `limit` messages of the session, oldest first.
    pub fn get_recent_messages(&self, session_id: &str, limit: usize) -> (r: Vec<Message>)
        requires
            self.wf(),
        ensures
            messages_view(r@) == most_recent(session_messages(self@, session_id@), limit as nat),
    {
        let sid = String::from_str(session_id);
        let mut r: Vec<Message> = Vec::new();
        match self.find_session(&sid) {
            Some(i) => {
                proof {
                    lemma_session_index(self@, sid@, i as int);
                }
                let msgs = &self.sessions[i].messages;
                let ghost ms = messages_view(msgs@);
                assert(ms == session_messages(self@, session_id@));
                let n = msgs.len();
                let start: usize = if n > limit { n - limit } else { 0 };
                let mut j: usize = start;
                while j < n
                    invariant
                        n == msgs@.len(),
                        ms == messages_view(msgs@),
                        start <= j <= n,
                        messages_view(r@) =~= ms.subrange(start as int, j as int),
                    decreases n - j,
                {
                    let ghost before = r@;
                    r.push(msgs[j].duplicate());
                    proof {
                        assert(messages_view(r@) =~= messages_view(before).push(msgs@[j as int]@));
                    }
                    j += 1;
                }
                proof {
                    if !(limit < ms.len()) {
                        assert(ms.subrange(0, n as int) =~= ms);
                    }
                }
                r
            },
            None => {
                assert(messages_view(r@) =~= Seq::<MessageView>::empty());
                r
            },
        }
    }

    /// Searches the session by the keywords of `query` (see
    /// `extract_keywords`): a message scores one point for each keyword that
    /// occurs in it, ignoring case; the `top_k` messages with a positive score
    /// come back, highest score first, messages with equal scores in their
    /// stored order.
    pub fn search_keywords(&self, session_id: &str, query: &str, top_k: usize) -> (r: Vec<Message>)
        requires
            self.wf(),
            forall|i: int| 0 <= i < query@.len() ==> query_char_ok(#[trigger] query@[i]),
        ensures
            is_keyword_result(
                session_messages(self@, session_id@),
                query_keywords(query@),
                top_k as nat,
                messages_view(r@),
            ),
    {
        let kws = extract_keywords(query);
        let ghost kv = query_keywords(query@);
        let sid = String::from_str(session_id);
        match self.find_session(&sid) {
            Some(i) => {
                proof {
                    lemma_session_index(self@, sid@, i as int);
                }
                let msgs = &self.sessions[i].messages;
                let ghost ms = messages_view(msgs@);
                assert(ms == session_messages(self@, session_id@));
                let mut cands: Vec<Message> = Vec::new();
                let mut keys: Vec<u64> = Vec::new();
                let mut j: usize = 0;
                while j < msgs.len()
                    invariant
                        ms == messages_view(msgs@),
                        strings_view(kws@) == kv,
                        j <= msgs@.len(),
                        messages_view(cands@) == keyword_candidates(ms.take(j as int), kv),
                        keys@ == candidate_scores(ms.take(j as int), kv),
                        cands@.len() == keys@.len(),
                    decreases msgs@.len() - j,
                {
                    let score = score_content(msgs[j].content.as_str(), &kws);
                    let ghost before_c = cands@;
                    let ghost before_k = keys@;
                    proof {
                        assert(ms.take(j + 1).drop_last() =~= ms.take(j as int));
                        assert(ms.take(j + 1).last() == msgs@[j as int]@);
                    }
                    if score > 0 {
                        cands.push(msgs[j].duplicate());
                        keys.push(score);
                        proof {
                            assert(messages_view(cands@) =~= messages_view(before_c).push(msgs@[j as int]@));
                            assert(keys@ =~= before_k.push(score));
                            assert(messages_view(cands@) =~= keyword_candidates(ms.take(j + 1), kv));
                            assert(keys@ =~= candidate_scores(ms.take(j + 1), kv));
                        }
                    } else {
                        proof {
                            assert(messages_view(cands@) =~= keyword_candidates(ms.take(j + 1), kv));
                            assert(keys@ =~= candidate_scores(ms.take(j + 1), kv));
                        }
                    }
                    j += 1;
                }
                proof {
                    assert(ms.take(j as int) =~= ms);
                }
                select_top(&cands, &keys, top_k)
            },
            None => {
                let r: Vec<Message> = Vec::new();
                proof {
                    let ms = session_messages(self@, session_id@);
                    assert(ms =~= Seq::<MessageView>::empty());
                    let order = Seq::<usize>::empty();
                    assert(candidate_scores(ms, kv) =~= Seq::<u64>::empty());
                    assert(keyword_candidates(ms, kv) =~= Seq::<MessageView>::empty());
                    assert(is_ranking(candidate_scores(ms, kv), order));
                    assert(messages_view(r@) =~= top_of(keyword_candidates(ms, kv), order, top_k as nat));
                }
                r
            },
        }
    }

    /// Semantic search is not available on this store: it answers as
    /// `search_keywords` does.
    pub fn search_semantic(&self, session_id: &str, query: &str, top_k: usize) -> (r: Vec<Message>)
        requires
            self.wf(),
            forall|i: int| 0 <= i < query@.len() ==> query_char_ok(#[trigger] query@[i]),
        ensures
            is_keyword_result(
                session_messages(self@, session_id@),
                query_keywords(query@),
                top_k as nat,
                messages_view(r@),
            ),
    {
        self.search_keywords(session_id, query, top_k)
    }

    /// Removes every message with id `id` from every session (sessions left
    /// empty stay). Returns the ids of the sessions that held such a message,
    /// in order: the ones whose stored copy must be rewritten, including those
    /// left empty.
    pub fn delete_message(&mut self, id: u64) -> (persist: Vec<String>)
        requires
            old(self).wf(),
        ensures
            final(self).wf(),
            final(self)@ == after_delete(old(self)@, id),
            strings_view(persist@) == sessions_with_id(old(self)@, id),
    {
        let ghost v = self@;
        let mut kept: Vec<Session> = Vec::new();
        let mut persist: Vec<String> = Vec::new();
        let mut i: usize = 0;
        while i < self.sessions.len()
            invariant
                v == self@,
                i <= self.sessions@.len(),
                self@.len() == self.sessions@.len(),
                forall|k: int| 0 <= k < self.sessions@.len() ==> #[trigger] self@[k] == (
                    self.sessions@[k].id@,
                    messages_view(self.sessions@[k].messages@),
                ),
                kept@.map_values(|s: Session| (s.id@, messages_view(s.messages@))) =~= after_delete(
                    v.take(i as int),
                    id,
                ),
                strings_view(persist@) == sessions_with_id(v.take(i as int), id),
            decreases self.sessions@.len() - i,
        {
            let s = &self.sessions[i];
            let filtered = without_message(&s.messages, id);
            let ghost kv_before = kept@.map_values(|s: Session| (s.id@, messages_view(s.messages@)));
            let ghost p_before = persist@;
            proof {
                lemma_without_id_len(v[i as int].1, id);
                assert(messages_view(s.messages@) == v[i as int].1);
            }
            if filtered.len() != s.messages.len() {
                persist.push(s.id.clone());
            }
            kept.push(Session { id: s.id.clone(), messages: filtered });
            proof {
                let kv = kept@.map_values(|s: Session| (s.id@, messages_view(s.messages@)));
                let entry = (v[i as int].0, without_id(v[i as int].1, id));
                assert(kv =~= kv_before.push(entry));
                assert(v.take(i + 1) =~= v.take(i as int).push(v[i as int]));
                assert(after_delete(v.take(i + 1), id) =~= after_delete(v.take(i as int), id).push(entry));
                assert(v.take(i + 1).drop_last() =~= v.take(i as int));
                if has_message_id(v[i as int].1, id) {
                    assert(strings_view(persist@) =~= strings_view(p_before).push(v[i as int].0));
                } else {
                    assert(strings_view(persist@) =~= strings_view(p_before));
                }
            }
            i += 1;
        }
        self.sessions = kept;
        proof {
            assert(v.take(i as int) =~= v);
            assert forall|a: int, b: int| 0 <= a < b < self@.len() implies (#[trigger] self@[a]).0
                != (#[trigger] self@[b]).0 by {
                assert(self@[a].0 == v[a].0 && self@[b].0 == v[b].0);
            }
        }
        persist
    }

    /// Gives the first message with id `id` (looking through the sessions in
    /// order, then through the session's messages) the content `content`.
    /// Returns the id of the session it changed, whose stored copy is
    /// rewritten, or `None` when no message has that id.
    pub fn update_message(&mut self, id: u64, content: &str) -> (changed: Option<String>)
        requires
            old(self).wf(),
        ensures
            final(self).wf(),
            match changed {
                Some(sid) => exists|k: int, j: int|
                    #[trigger] is_update_target(old(self)@, id, k, j) && sid@ == old(self)@[k].0
                        && final(self)@ == after_update(old(self)@, k, j, content@),
                None => (forall|k: int| 0 <= k < old(self)@.len() ==> !has_message_id(
                    #[trigger] old(self)@[k].1,
                    id,
                )) && final(self)@ == old(self)@,
            },
    {
        let ghost v = self@;
        let mut k: usize = 0;
        while k < self.sessions.len()
            invariant
                v == self@,
                v == old(self)@,
                self.wf(),
                k <= self.sessions@.len(),
                self@.len() == self.sessions@.len(),
                forall|a: int| 0 <= a < self.sessions@.len() ==> #[trigger] self@[a] == (
                    self.sessions@[a].id@,
                    messages_view(self.sessions@[a].messages@),
                ),
                forall|k2: int| 0 <= k2 < k ==> !has_message_id(#[trigger] v[k2].1, id),
            decreases self.sessions@.len() - k,
        {
            let ghost ms = v[k as int].1;
            let mut j: usize = 0;
            let n = self.sessions[k].messages.len();
            while j < n
                invariant
                    v == self@,
                    v == old(self)@,
                    self.wf(),
                    self@.len() == self.sessions@.len(),
                    forall|a: int| 0 <= a < self.sessions@.len() ==> #[trigger] self@[a] == (
                        self.sessions@[a].id@,
                        messages_view(self.sessions@[a].messages@),
                    ),
                    forall|k2: int| 0 <= k2 < k ==> !has_message_id(#[trigger] v[k2].1, id),
                    ms == v[k as int].1,
                    k < self.sessions@.len(),
                    n == self.sessions@[k as int].messages@.len(),
                    ms == messages_view(self.sessions@[k as int].messages@),
                    j <= n,
                    forall|j2: int| 0 <= j2 < j ==> (#[trigger] ms[j2]).id != Some(id),
                decreases n - j,
            {
                if self.sessions[k].messages[j].id == Some(id) {
                    proof {
                        assert(is_update_target(v, id, k as int, j as int));
                    }
                    let mut s = self.sessions.remove(k);
                    let mut m = s.messages.remove(j);
                    m.content = String::from_str(content);
                    let ghost mv = m@;
                    s.messages.insert(j, m);
                    proof {
                        assert(messages_view(s.messages@) =~= ms.update(
                            j as int,
                            MessageView { content: content@, ..ms[j as int] },
                        ));
                    }
                    let sid = s.id.clone();
                    self.sessions.insert(k, s);
                    proof {
                        assert(self@ =~= after_update(v, k as int, j as int, content@));
                        assert forall|a: int, b: int| 0 <= a < b < self@.len() implies (#[trigger] self@[a]).0
                            != (#[trigger] self@[b]).0 by {
                            assert(self@[a].0 == v[a].0 && self@[b].0 == v[b].0);
                        }
                    }
                    proof {
                        assert(sid@ == v[k as int].0);
                        assert(v == old(self)@);
                        assert(is_update_target(old(self)@, id, k as int, j as int) && sid@ == old(self)@[k as int].0
                            && self@ == after_update(old(self)@, k as int, j as int, content@));
                    }
                    return Some(sid);
                }
                j += 1;
            }
            proof {
                assert(!has_message_id(ms, id));
            }
            k += 1;
        }
        None
    }

    /// The number of messages of the session (zero if there is none).
    pub fn get_message_count(&self, session_id: &str) -> (n: usize)
        requires
            self.wf(),
        ensures
            n == session_messages(self@, session_id@).len(),
    {
        let sid = String::from_str(session_id);
        match self.find_session(&sid) {
            Some(i) => {
                proof {
                    lemma_session_index(self@, sid@, i as int);
                    assert(self@[i as int].1 == messages_view(self.sessions@[i as int].messages@));
                }
                self.sessions[i].messages.len()
            },
            None => 0,
        }
    }
}

} // verus!

verus! {

/// Storing a message appends it to its own session and leaves every other
/// session as it was; session ids stay distinct.
pub proof fn lemma_save_appends(v: SessionsView, sid: Seq<char>, m: MessageView, other: Seq<char>)
    requires
        distinct_ids(v),
        other != sid,
    ensures
        distinct_ids(after_save(v, sid, m)),
        has_session(after_save(v, sid, m), sid),
        session_messages(after_save(v, sid, m), sid) == session_messages(v, sid).push(m),
        session_messages(after_save(v, sid, m), other) == session_messages(v, other),
{
    let v2 = after_save(v, sid, m);
    if has_session(v, sid) {
        let k = session_index(v, sid);
        assert(v2[k].0 == sid);
        assert forall|a: int, b: int| 0 <= a < b < v2.len() implies (#[trigger] v2[a]).0 != (#[trigger] v2[b]).0 by {
            assert(v2[a].0 == v[a].0 && v2[b].0 == v[b].0);
        }
        lemma_session_index(v2, sid, k);
        if has_session(v, other) {
            let o = session_index(v, other);
            assert(v2[o] == v[o]);
            lemma_session_index(v2, other, o);
        } else {
            assert forall|i: int| 0 <= i < v2.len() implies (#[trigger] v2[i]).0 != other by {
                assert(v2[i].0 == v[i].0);
            }
        }
    } else {
        let k = v.len() as int;
        assert(v2[k].0 == sid);
        assert forall|a: int, b: int| 0 <= a < b < v2.len() implies (#[trigger] v2[a]).0 != (#[trigger] v2[b]).0 by {
            if b == k {
                assert(v[a].0 != sid);
            }
        }
        lemma_session_index(v2, sid, k);
        assert(session_messages(v, sid) =~= Seq::<MessageView>::empty());
        assert(seq![m] =~= Seq::<MessageView>::empty().push(m));
        if has_session(v, other) {
            let o = session_index(v, other);
            assert(v2[o] == v[o]);
            lemma_session_index(v2, other, o);
        } else {
            assert forall|i: int| 0 <= i < v2.len() implies (#[trigger] v2[i]).0 != other by {
                if i < k {
                    assert(v2[i].0 == v[i].0);
                }
            }
        }
    }
}

/// A message just stored is what a recall of the single most recent message
/// returns; a recency recall returns at most `limit` messages.
pub proof fn lemma_recent_sees_latest(ms: Seq<MessageView>, m: MessageView, limit: nat)
    ensures
        most_recent(ms.push(m), 1) == seq![m],
        most_recent(ms, limit).len() == if limit < ms.len() { limit } else { ms.len() },
        limit > 0 ==> most_recent(ms.push(m), limit).last() == m,
{
    let s = ms.push(m);
    if 1 < s.len() {
        assert(s.subrange(s.len() - 1, s.len() as int) =~= seq![m]);
    } else {
        assert(s =~= seq![m]);
    }
}

/// Clearing a session removes it and its messages and leaves every other
/// session as it was.
pub proof fn lemma_clear_removes(v: SessionsView, sid: Seq<char>, other: Seq<char>)
    requires
        distinct_ids(v),
        other != sid,
    ensures
        distinct_ids(after_clear(v, sid)),
        !has_session(after_clear(v, sid), sid),
        session_messages(after_clear(v, sid), sid).len() == 0,
        session_messages(after_clear(v, sid), other) == session_messages(v, other),
{
    let v2 = after_clear(v, sid);
    if has_session(v, sid) {
        let k = session_index(v, sid);
        assert forall|a: int, b: int| 0 <= a < b < v2.len() implies (#[trigger] v2[a]).0 != (#[trigger] v2[b]).0 by {
            let a0 = if a < k { a } else { a + 1 };
            let b0 = if b < k { b } else { b + 1 };
            assert(v2[a] == v[a0] && v2[b] == v[b0]);
        }
        assert forall|i: int| 0 <= i < v2.len() implies (#[trigger] v2[i]).0 != sid by {
            let i0 = if i < k { i } else { i + 1 };
            assert(v2[i] == v[i0]);
        }
        if has_session(v, other) {
            let o = session_index(v, other);
            let o2 = if o < k { o } else { o - 1 };
            assert(v2[o2] == v[o]);
            lemma_session_index(v2, other, o2);
        } else {
            assert forall|i: int| 0 <= i < v2.len() implies (#[trigger] v2[i]).0 != other by {
                let i0 = if i < k { i } else { i + 1 };
                assert(v2[i] == v[i0]);
            }
        }
    }
}

/// After a deletion no message with that id remains, and every message with
/// another id is kept, in order.
pub proof fn lemma_without_id(ms: Seq<MessageView>, id: u64)
    ensures
        forall|j: int| 0 <= j < without_id(ms, id).len() ==> (#[trigger] without_id(ms, id)[j]).id != Some(id),
        forall|m: MessageView| #[trigger] without_id(ms, id).contains(m) <==> (ms.contains(m) && m.id != Some(id)),
    decreases ms.len(),
{
    if ms.len() > 0 {
        let init = ms.drop_last();
        lemma_without_id(init, id);
        let w = without_id(ms, id);
        let wi = without_id(init, id);
        let tail = if ms.last().id == Some(id) {
            Seq::<MessageView>::empty()
        } else {
            seq![ms.last()]
        };
        assert(w == wi + tail);
        assert forall|j: int| 0 <= j < wi.len() implies w[j] == wi[j] by {}
        assert forall|m: MessageView| #[trigger] w.contains(m) <==> (ms.contains(m) && m.id != Some(id)) by {
            if w.contains(m) {
                let j = choose|j: int| 0 <= j < w.len() && w[j] == m;
                if j < wi.len() {
                    assert(wi[j] == m);
                    assert(wi.contains(m));
                    let t = choose|t: int| 0 <= t < init.len() && init[t] == m;
                    assert(ms[t] == m);
                } else {
                    assert(w[j] == tail[j - wi.len()]);
                    assert(m == ms.last());
                    assert(ms[ms.len() - 1] == m);
                }
            }
            if ms.contains(m) && m.id != Some(id) {
                let t = choose|t: int| 0 <= t < ms.len() && ms[t] == m;
                if t < ms.len() - 1 {
                    assert(init[t] == m);
                    assert(init.contains(m));
                    assert(wi.contains(m));
                    let j = choose|j: int| 0 <= j < wi.len() && wi[j] == m;
                    assert(w[j] == m);
                } else {
                    assert(m == ms.last());
                    assert(tail == seq![m]);
                    assert(w[w.len() - 1] == m);
                }
            }
        }
        assert forall|j: int| 0 <= j < w.len() implies (#[trigger] w[j]).id != Some(id) by {
            if j < wi.len() {
                assert(w[j] == wi[j]);
            }
        }
    }
}

/// Removing the messages with id `id` shortens a list exactly when it holds
/// such a message.
pub proof fn lemma_without_id_len(ms: Seq<MessageView>, id: u64)
    ensures
        without_id(ms, id).len() <= ms.len(),
        (without_id(ms, id).len() == ms.len()) == !has_message_id(ms, id),
    decreases ms.len(),
{
    if ms.len() > 0 {
        let init = ms.drop_last();
        lemma_without_id_len(init, id);
        if has_message_id(init, id) {
            let j = choose|j: int| 0 <= j < init.len() && (#[trigger] init[j]).id == Some(id);
            assert(ms[j] == init[j]);
        }
        if ms.last().id == Some(id) {
            assert(ms[ms.len() - 1].id == Some(id));
        }
        if has_message_id(ms, id) && ms.last().id != Some(id) {
            let j = choose|j: int| 0 <= j < ms.len() && (#[trigger] ms[j]).id == Some(id);
            assert(init[j] == ms[j]);
        }
    }
}

/// Deleting by id leaves no message with that id in any session.
pub proof fn lemma_delete_removes_id(v: SessionsView, id: u64)
    ensures
        after_delete(v, id).len() == v.len(),
        forall|k: int, j: int|
            0 <= k < v.len() && 0 <= j < after_delete(v, id)[k].1.len() ==> (#[trigger] after_delete(v, id)[k].1[j]).id
                != Some(id),
{
    assert forall|k: int, j: int|
        0 <= k < v.len() && 0 <= j < after_delete(v, id)[k].1.len() implies (#[trigger] after_delete(v, id)[k].1[j]).id
            != Some(id) by {
        lemma_without_id(v[k].1, id);
        assert(after_delete(v, id)[k].1 == without_id(v[k].1, id));
    }
}

/// Updating a message changes only its content: every session keeps its id
/// and its number of messages.
pub proof fn lemma_update_keeps_shape(v: SessionsView, id: u64, k: int, j: int, c: Seq<char>)
    requires
        is_update_target(v, id, k, j),
    ensures
        after_update(v, k, j, c).len() == v.len(),
        forall|a: int| 0 <= a < v.len() ==> (#[trigger] after_update(v, k, j, c)[a]).0 == v[a].0
            && after_update(v, k, j, c)[a].1.len() == v[a].1.len(),
        after_update(v, k, j, c)[k].1[j].content == c,
        after_update(v, k, j, c)[k].1[j].id == Some(id),
{
}

/// The keyword candidates are the messages with a positive score, in their
/// stored order, and their scores are listed alongside.
pub proof fn lemma_candidates(ms: Seq<MessageView>, kws: Seq<Seq<char>>)
    requires
        kws.len() <= usize::MAX,
    ensures
        keyword_candidates(ms, kws).len() == candidate_scores(ms, kws).len(),
        keyword_candidates(ms, kws).len() <= ms.len(),
        forall|i: int| 0 <= i < keyword_candidates(ms, kws).len() ==> {
            &&& keyword_score((#[trigger] keyword_candidates(ms, kws)[i]).content, kws) > 0
            &&& candidate_scores(ms, kws)[i] == keyword_score(keyword_candidates(ms, kws)[i].content, kws)
            &&& ms.contains(keyword_candidates(ms, kws)[i])
        },
    decreases ms.len(),
{
    if ms.len() > 0 {
        let init = ms.drop_last();
        lemma_candidates(init, kws);
        crate::keywords::lemma_keyword_score_bound(ms.last().content, kws);
        let c = keyword_candidates(ms, kws);
        let ci = keyword_candidates(init, kws);
        assert forall|i: int| 0 <= i < c.len() implies {
            &&& keyword_score((#[trigger] c[i]).content, kws) > 0
            &&& candidate_scores(ms, kws)[i] == keyword_score(c[i].content, kws)
            &&& ms.contains(c[i])
        } by {
            if i < ci.len() {
                assert(c[i] == ci[i]);
                assert(candidate_scores(ms, kws)[i] == candidate_scores(init, kws)[i]);
                let t = choose|t: int| 0 <= t < init.len() && init[t] == ci[i];
                assert(ms[t] == c[i]);
            } else {
                assert(c[i] == ms.last());
                assert(ms[ms.len() - 1] == c[i]);
            }
        }
    }
}

/// What a keyword search returns: at most `top_k` messages of the session,
/// each matching at least one keyword, ordered by score from highest down.
pub proof fn lemma_keyword_result_properties(
    ms: Seq<MessageView>,
    kws: Seq<Seq<char>>,
    top_k: nat,
    r: Seq<MessageView>,
)
    requires
        kws.len() <= usize::MAX,
        is_keyword_result(ms, kws, top_k, r),
    ensures
        r.len() <= top_k,
        r.len() == if top_k < keyword_candidates(ms, kws).len() {
            top_k
        } else {
            keyword_candidates(ms, kws).len()
        },
        forall|i: int| 0 <= i < r.len() ==> keyword_score((#[trigger] r[i]).content, kws) > 0 && ms.contains(r[i]),
        forall|i: int, j: int|
            0 <= i < j < r.len() ==> keyword_score((#[trigger] r[i]).content, kws) >= keyword_score(
                (#[trigger] r[j]).content,
                kws,
            ),
{
    lemma_candidates(ms, kws);
    let keys = candidate_scores(ms, kws);
    let cands = keyword_candidates(ms, kws);
    let order = choose|order: Seq<usize>| is_ranking(keys, order) && r == top_of(cands, order, top_k);
    assert forall|i: int| 0 <= i < r.len() implies keyword_score((#[trigger] r[i]).content, kws) > 0 && ms.contains(
        r[i],
    ) by {
        assert(r[i] == cands[order[i] as int]);
        assert(order[i] < cands.len());
    }
    assert forall|i: int, j: int| 0 <= i < j < r.len() implies keyword_score((#[trigger] r[i]).content, kws)
        >= keyword_score((#[trigger] r[j]).content, kws) by {
        assert(r[i] == cands[order[i] as int]);
        assert(r[j] == cands[order[j] as int]);
        assert(crate::rank::precedes(keys, order[i] as int, order[j] as int));
    }
}

/// A keyword search has one answer: any two results for the same messages,
/// keywords and limit are equal.
pub proof fn lemma_keyword_result_unique(
    ms: Seq<MessageView>,
    kws: Seq<Seq<char>>,
    top_k: nat,
    r1: Seq<MessageView>,
    r2: Seq<MessageView>,
)
    requires
        is_keyword_result(ms, kws, top_k, r1),
        is_keyword_result(ms, kws, top_k, r2),
    ensures
        r1 == r2,
{
    let keys = candidate_scores(ms, kws);
    let cands = keyword_candidates(ms, kws);
    let o1 = choose|order: Seq<usize>| is_ranking(keys, order) && r1 == top_of(cands, order, top_k);
    let o2 = choose|order: Seq<usize>| is_ranking(keys, order) && r2 == top_of(cands, order, top_k);
    crate::rank::lemma_ranking_unique(keys, o1, o2);
}

/// The name of a role, used as its label, is read back as that role.
pub proof fn lemma_role_label_round_trip(role: Role)
    ensures
        role_of_label(role.spec_name()) == role,
{
    if role == Role::User {
        assert(role.spec_name() != seq!['a', 's', 's', 'i', 's', 't', 'a', 'n', 't']) by {
            assert(role.spec_name().len() == 4);
        }
    }
}

} // verus!

verus! {

/// The sessions after each saved session is loaded in turn.
pub open spec fn load_all(v: SessionsView, saved: SessionsView) -> SessionsView
    decreases saved.len(),
{
    if saved.len() == 0 {
        v
    } else {
        after_load(load_all(v, saved.drop_last()), saved.last().0, saved.last().1)
    }
}

/// Loading a session gives it exactly the loaded messages and leaves every
/// other session as it was.
pub proof fn lemma_load_sets(v: SessionsView, sid: Seq<char>, ms: Seq<MessageView>, other: Seq<char>)
    requires
        distinct_ids(v),
        other != sid,
    ensures
        distinct_ids(after_load(v, sid, ms)),
        session_messages(after_load(v, sid, ms), sid) == ms,
        session_messages(after_load(v, sid, ms), other) == session_messages(v, other),
{
    let v2 = after_load(v, sid, ms);
    let k = if has_session(v, sid) { session_index(v, sid) } else { v.len() as int };
    assert(v2[k] == (sid, ms));
    assert forall|a: int, b: int| 0 <= a < b < v2.len() implies (#[trigger] v2[a]).0 != (#[trigger] v2[b]).0 by {
        if b == v.len() {
            assert(v[a].0 != sid);
        } else if a < v.len() && b < v.len() {
            assert(v2[a].0 == v[a].0 && v2[b].0 == v[b].0);
        }
    }
    lemma_session_index(v2, sid, k);
    if has_session(v, other) {
        let o = session_index(v, other);
        assert(v2[o] == v[o]);
        lemma_session_index(v2, other, o);
    } else {
        assert forall|i: int| 0 <= i < v2.len() implies (#[trigger] v2[i]).0 != other by {
            if i < v.len() {
                assert(v2[i].0 == v[i].0);
            }
        }
    }
}

/// Sessions written out and loaded back, in order, into an empty store are
/// the sessions that were written.
pub proof fn lemma_reload(saved: SessionsView)
    requires
        distinct_ids(saved),
    ensures
        load_all(SessionsView::empty(), saved) == saved,
    decreases saved.len(),
{
    if saved.len() > 0 {
        let init = saved.drop_last();
        assert(distinct_ids(init)) by {
            assert forall|a: int, b: int| 0 <= a < b < init.len() implies (#[trigger] init[a]).0
                != (#[trigger] init[b]).0 by {
                assert(init[a] == saved[a] && init[b] == saved[b]);
            }
        }
        lemma_reload(init);
        let last = saved.last();
        assert(!has_session(init, last.0)) by {
            if has_session(init, last.0) {
                let i = choose|i: int| 0 <= i < init.len() && (#[trigger] init[i]).0 == last.0;
                assert(saved[i].0 != saved[saved.len() - 1].0);
            }
        }
        assert(init.push(last) =~= saved);
    }
}

} // verus!

verus! {

/// A list without a message of id `id` is left as it is by removing that id.
pub proof fn lemma_without_absent_id(ms: Seq<MessageView>, id: u64)
    requires
        !has_message_id(ms, id),
    ensures
        without_id(ms, id) == ms,
    decreases ms.len(),
{
    if ms.len() > 0 {
        let init = ms.drop_last();
        assert(!has_message_id(init, id)) by {
            if has_message_id(init, id) {
                let j = choose|j: int| 0 <= j < init.len() && (#[trigger] init[j]).id == Some(id);
                assert(ms[j] == init[j]);
            }
        }
        lemma_without_absent_id(init, id);
        assert(ms[ms.len() - 1].id != Some(id));
        assert(init.push(ms.last()) =~= ms);
    }
}

/// A deletion lists exactly the sessions it changes: a session is listed
/// when it held a message with the id, and every session not listed is left
/// as it was. Rewriting the listed sessions therefore keeps every stored copy
/// equal to the store, sessions left empty included.
pub proof fn lemma_delete_lists_changed(v: SessionsView, id: u64)
    requires
        distinct_ids(v),
    ensures
        forall|k: int| 0 <= k < v.len() ==> (sessions_with_id(v, id).contains(#[trigger] v[k].0) <==> has_message_id(
            v[k].1,
            id,
        )),
        forall|k: int| 0 <= k < v.len() && !has_message_id(v[k].1, id) ==> #[trigger] after_delete(v, id)[k] == v[k],
    decreases v.len(),
{
    assert forall|k: int| 0 <= k < v.len() && !has_message_id(v[k].1, id) implies #[trigger] after_delete(v, id)[k]
        == v[k] by {
        lemma_without_absent_id(v[k].1, id);
    }
    if v.len() > 0 {
        let init = v.drop_last();
        assert(distinct_ids(init)) by {
            assert forall|a: int, b: int| 0 <= a < b < init.len() implies (#[trigger] init[a]).0
                != (#[trigger] init[b]).0 by {
                assert(init[a] == v[a] && init[b] == v[b]);
            }
        }
        lemma_delete_lists_changed(init, id);
        let si = sessions_with_id(init, id);
        let last = v.last();
        let tail = if has_message_id(last.1, id) { seq![last.0] } else { Seq::<Seq<char>>::empty() };
        assert(sessions_with_id(v, id) == si + tail);
        assert(!si.contains(last.0)) by {
            if si.contains(last.0) {
                let j = choose|j: int| 0 <= j < si.len() && si[j] == last.0;
                lemma_sessions_with_id_from(init, id, j);
                let k = choose|k: int| 0 <= k < init.len() && init[k].0 == si[j];
                assert(v[k].0 != v[v.len() - 1].0);
            }
        }
        assert forall|k: int| 0 <= k < v.len() implies (sessions_with_id(v, id).contains(#[trigger] v[k].0)
            <==> has_message_id(v[k].1, id)) by {
            let all = sessions_with_id(v, id);
            if k < v.len() - 1 {
                assert(v[k] == init[k]);
                assert(v[k].0 != last.0);
                if si.contains(v[k].0) {
                    let j = choose|j: int| 0 <= j < si.len() && si[j] == v[k].0;
                    assert(all[j] == v[k].0);
                }
                if all.contains(v[k].0) {
                    let j = choose|j: int| 0 <= j < all.len() && all[j] == v[k].0;
                    if j < si.len() {
                        assert(si[j] == v[k].0);
                    } else {
                        assert(all[j] == last.0);
                    }
                }
            } else {
                if has_message_id(last.1, id) {
                    assert(all[all.len() - 1] == last.0);
                }
                if all.contains(last.0) {
                    let j = choose|j: int| 0 <= j < all.len() && all[j] == last.0;
                    if j < si.len() {
                        assert(si[j] == last.0);
                    }
                }
            }
        }
    }
}

/// Every listed session id is the id of some session of the store.
proof fn lemma_sessions_with_id_from(v: SessionsView, id: u64, j: int)
    requires
        0 <= j < sessions_with_id(v, id).len(),
    ensures
        exists|k: int| 0 <= k < v.len() && v[k].0 == sessions_with_id(v, id)[j],
    decreases v.len(),
{
    if v.len() > 0 {
        let init = v.drop_last();
        let si = sessions_with_id(init, id);
        if j < si.len() {
            lemma_sessions_with_id_from(init, id, j);
            let k = choose|k: int| 0 <= k < init.len() && init[k].0 == si[j];
            assert(v[k] == init[k]);
        } else {
            assert(v[v.len() - 1].0 == sessions_with_id(v, id)[j]);
        }
    }
}

} // verus!

verus! {

/// Storing a message and recalling the most recent one gives it back: the
/// session grows by one, the recall of one message is the stored message with
/// the role of its label ("user" or "assistant" read back as those roles), its
/// content and session, and every other session is left as it was.
pub proof fn lemma_store_then_recall(
    v: SessionsView,
    sid: Seq<char>,
    label: Seq<char>,
    content: Seq<char>,
    ts: Timestamp,
    other: Seq<char>,
)
    requires
        distinct_ids(v),
        other != sid,
    ensures
        session_messages(after_save(v, sid, saved_message(v, sid, label, content, ts)), sid).len()
            == session_messages(v, sid).len() + 1,
        most_recent(session_messages(after_save(v, sid, saved_message(v, sid, label, content, ts)), sid), 1)
            == seq![saved_message(v, sid, label, content, ts)],
        saved_message(v, sid, label, content, ts).role == role_of_label(label),
        saved_message(v, sid, label, content, ts).content == content,
        saved_message(v, sid, label, content, ts).session_id == sid,
        session_messages(after_save(v, sid, saved_message(v, sid, label, content, ts)), other)
            == session_messages(v, other),
        role_of_label(Role::User.spec_name()) == Role::User,
        role_of_label(Role::LLM.spec_name()) == Role::LLM,
{
    let m = saved_message(v, sid, label, content, ts);
    lemma_save_appends(v, sid, m, other);
    lemma_recent_sees_latest(session_messages(v, sid), m, 1);
    lemma_role_label_round_trip(Role::User);
    lemma_role_label_round_trip(Role::LLM);
}

} // verus!

verus! {

/// After loading the sessions `saved` (distinct ids) into `v`, a session
/// holds what `saved` gives it, or what it held in `v` if `saved` does not
/// name it.
pub proof fn lemma_load_all_lookup(v: SessionsView, saved: SessionsView, sid: Seq<char>)
    requires
        distinct_ids(v),
        distinct_ids(saved),
    ensures
        distinct_ids(load_all(v, saved)),
        session_messages(load_all(v, saved), sid) == if has_session(saved, sid) {
            session_messages(saved, sid)
        } else {
            session_messages(v, sid)
        },
    decreases saved.len(),
{
    if saved.len() > 0 {
        let init = saved.drop_last();
        let last = saved.last();
        let n = saved.len() - 1;
        assert(distinct_ids(init)) by {
            assert forall|a: int, b: int| 0 <= a < b < init.len() implies (#[trigger] init[a]).0
                != (#[trigger] init[b]).0 by {
                assert(init[a] == saved[a] && init[b] == saved[b]);
            }
        }
        lemma_load_all_lookup(v, init, sid);
        let w = load_all(v, init);
        assert(load_all(v, saved) == after_load(w, last.0, last.1));
        if sid == last.0 {
            let other = seq!['.'] + sid;
            assert(other.len() != sid.len());
            lemma_load_sets(w, last.0, last.1, other);
            lemma_session_index(saved, sid, n);
        } else {
            lemma_load_sets(w, last.0, last.1, sid);
            if has_session(init, sid) {
                let i = session_index(init, sid);
                assert(saved[i] == init[i]);
                lemma_session_index(saved, sid, i);
                lemma_session_index(init, sid, i);
            } else {
                assert forall|i: int| 0 <= i < saved.len() implies (#[trigger] saved[i]).0 != sid by {
                    if i < n {
                        assert(saved[i] == init[i]);
                    }
                }
            }
        }
    }
}

/// Sessions written out and loaded back into an empty store in any order
/// (each written session loaded once) give every session exactly the
/// messages it was written with, and no other session.
pub proof fn lemma_reload_any_order(saved: SessionsView, loaded: SessionsView, sid: Seq<char>)
    requires
        distinct_ids(saved),
        distinct_ids(loaded),
        forall|i: int| 0 <= i < loaded.len() ==> saved.contains(#[trigger] loaded[i]),
        forall|j: int| 0 <= j < saved.len() ==> loaded.contains(#[trigger] saved[j]),
    ensures
        has_session(load_all(SessionsView::empty(), loaded), sid) == has_session(saved, sid),
        session_messages(load_all(SessionsView::empty(), loaded), sid) == session_messages(saved, sid),
{
    let e = SessionsView::empty();
    lemma_load_all_lookup(e, loaded, sid);
    let r = load_all(e, loaded);
    assert(!has_session(e, sid));
    if has_session(saved, sid) {
        let j = session_index(saved, sid);
        lemma_session_index(saved, sid, j);
        assert(loaded.contains(saved[j]));
        let i = choose|i: int| 0 <= i < loaded.len() && loaded[i] == saved[j];
        lemma_session_index(loaded, sid, i);
    } else if has_session(loaded, sid) {
        let i = session_index(loaded, sid);
        assert(saved.contains(loaded[i]));
        let j = choose|j: int| 0 <= j < saved.len() && saved[j] == loaded[i];
        assert(saved[j].0 == sid);
    }
    lemma_has_session_after_load(e, loaded, sid);
}

/// After loading, a session exists exactly when it existed before or the
/// loaded sessions name it.
pub proof fn lemma_has_session_after_load(v: SessionsView, saved: SessionsView, sid: Seq<char>)
    ensures
        has_session(load_all(v, saved), sid) == (has_session(v, sid) || has_session(saved, sid)),
    decreases saved.len(),
{
    if saved.len() > 0 {
        let init = saved.drop_last();
        let last = saved.last();
        lemma_has_session_after_load(v, init, sid);
        let w = load_all(v, init);
        let w2 = after_load(w, last.0, last.1);
        if has_session(saved, sid) && !has_session(init, sid) {
            let i = choose|i: int| 0 <= i < saved.len() && (#[trigger] saved[i]).0 == sid;
            if i < saved.len() - 1 {
                assert(init[i] == saved[i]);
            }
        }
        if has_session(init, sid) {
            let i = choose|i: int| 0 <= i < init.len() && (#[trigger] init[i]).0 == sid;
            assert(saved[i] == init[i]);
        }
        if has_session(w, last.0) {
            let k = session_index(w, last.0);
            assert(w2[k].0 == last.0);
            if has_session(w, sid) {
                let i = choose|i: int| 0 <= i < w.len() && (#[trigger] w[i]).0 == sid;
                assert(w2[i].0 == sid);
            }
            if has_session(w2, sid) {
                let i = choose|i: int| 0 <= i < w2.len() && (#[trigger] w2[i]).0 == sid;
                if i != k {
                    assert(w[i].0 == sid);
                }
            }
        } else {
            assert(w2[w.len() as int].0 == last.0);
            if has_session(w, sid) {
                let i = choose|i: int| 0 <= i < w.len() && (#[trigger] w[i]).0 == sid;
                assert(w2[i].0 == sid);
            }
            if has_session(w2, sid) {
                let i = choose|i: int| 0 <= i < w2.len() && (#[trigger] w2[i]).0 == sid;
                if i < w.len() {
                    assert(w[i].0 == sid);
                }
            }
        }
        if sid == last.0 {
            assert(saved[saved.len() - 1].0 == sid);
        }
    }
}

} // verus!

verus! {

/// The keyword candidates are exactly the messages of the session that match
/// at least one keyword, whatever their role, in stored order: the filter of
/// the session by a positive score.
pub proof fn lemma_candidates_are_matching_messages(ms: Seq<MessageView>, kws: Seq<Seq<char>>)
    ensures
        keyword_candidates(ms, kws) == ms.filter(|m: MessageView| keyword_score(m.content, kws) > 0),
        forall|i: int|
            0 <= i < ms.len() && keyword_score(ms[i].content, kws) > 0 ==> #[trigger] keyword_candidates(
                ms,
                kws,
            ).contains(ms[i]),
    decreases ms.len(),
{
    let pred = |m: MessageView| keyword_score(m.content, kws) > 0;
    reveal(Seq::filter);
    if ms.len() > 0 {
        lemma_candidates_are_matching_messages(ms.drop_last(), kws);
        if pred(ms.last()) {
            assert(keyword_candidates(ms, kws) =~= keyword_candidates(ms.drop_last(), kws).push(ms.last()));
        } else {
            assert(keyword_candidates(ms, kws) =~= keyword_candidates(ms.drop_last(), kws));
        }
    }
    assert forall|i: int|
        0 <= i < ms.len() && keyword_score(ms[i].content, kws) > 0 implies #[trigger] keyword_candidates(
        ms,
        kws,
    ).contains(ms[i]) by {
        ms.lemma_filter_contains(pred, i);
    }
}

/// The candidate scores are the scores of the candidates, in the same order.
pub proof fn lemma_candidate_scores_are_scores(ms: Seq<MessageView>, kws: Seq<Seq<char>>)
    ensures
        candidate_scores(ms, kws) == keyword_candidates(ms, kws).map_values(
            |m: MessageView| keyword_score(m.content, kws) as u64,
        ),
    decreases ms.len(),
{
    if ms.len() > 0 {
        lemma_candidate_scores_are_scores(ms.drop_last(), kws);
        assert(candidate_scores(ms, kws) =~= keyword_candidates(ms, kws).map_values(
            |m: MessageView| keyword_score(m.content, kws) as u64,
        ));
    }
}

/// A recency recall is the contiguous end of the session: it holds
/// `min(limit, n)` messages, and its message `i` is the session's message
/// `n - len + i`.
pub proof fn lemma_recent_is_suffix(ms: Seq<MessageView>, limit: nat)
    ensures
        most_recent(ms, limit).len() == if limit < ms.len() { limit } else { ms.len() },
        forall|i: int|
            0 <= i < most_recent(ms, limit).len() ==> #[trigger] most_recent(ms, limit)[i] == ms[ms.len()
                - most_recent(ms, limit).len() + i],
{
}

/// An update changes the target message's content and nothing else: every
/// other message of every session, and every other field of the target, is
/// as it was.
pub proof fn lemma_update_changes_only_target(v: SessionsView, id: u64, k: int, j: int, c: Seq<char>)
    requires
        is_update_target(v, id, k, j),
    ensures
        forall|a: int| 0 <= a < v.len() && a != k ==> #[trigger] after_update(v, k, j, c)[a] == v[a],
        after_update(v, k, j, c)[k].0 == v[k].0,
        after_update(v, k, j, c)[k].1.len() == v[k].1.len(),
        forall|b: int|
            0 <= b < v[k].1.len() && b != j ==> #[trigger] after_update(v, k, j, c)[k].1[b] == v[k].1[b],
        after_update(v, k, j, c)[k].1[j].content == c,
        after_update(v, k, j, c)[k].1[j].id == v[k].1[j].id,
        after_update(v, k, j, c)[k].1[j].session_id == v[k].1[j].session_id,
        after_update(v, k, j, c)[k].1[j].role == v[k].1[j].role,
        after_update(v, k, j, c)[k].1[j].timestamp == v[k].1[j].timestamp,
        after_update(v, k, j, c)[k].1[j].tokens == v[k].1[j].tokens,
{
}

/// Deleting by id keeps the other messages in their order: it is the filter
/// of the session by an id different from `id`.
pub proof fn lemma_delete_keeps_order(ms: Seq<MessageView>, id: u64)
    ensures
        without_id(ms, id) == ms.filter(|m: MessageView| m.id != Some(id)),
    decreases ms.len(),
{
    reveal(Seq::filter);
    if ms.len() > 0 {
        lemma_delete_keeps_order(ms.drop_last(), id);
        if ms.last().id != Some(id) {
            assert(without_id(ms, id) =~= without_id(ms.drop_last(), id).push(ms.last()));
        } else {
            assert(without_id(ms, id) =~= without_id(ms.drop_last(), id));
        }
    }
}

/// Deleting by id from a session and appending a message commute in order:
/// the kept messages of a longer session are those of the shorter one
/// followed by the new message unless it has the id.
pub proof fn lemma_delete_of_appended(ms: Seq<MessageView>, m: MessageView, id: u64)
    ensures
        without_id(ms.push(m), id) == without_id(ms, id) + if m.id == Some(id) {
            Seq::<MessageView>::empty()
        } else {
            seq![m]
        },
{
    let s = ms.push(m);
    assert(s.drop_last() =~= ms);
    assert(s.last() == m);
    if m.id == Some(id) {
        assert(without_id(s, id) =~= without_id(ms, id) + Seq::<MessageView>::empty());
    }
}

} // verus!
