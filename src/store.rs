use vstd::prelude::*;

verus! {

/// Who spoke a message: the only two values the `speaker` column admits.
#[derive(Clone, Copy, Debug, PartialEq, Eq, Structural)]
pub enum Speaker {
    You,
    Agent,
}

/// Why a write to the log was refused.
#[derive(Clone, Copy, Debug, PartialEq, Eq, Structural)]
pub enum StoreError {
    /// A `CHECK` constraint failed: the speaker is neither "You" nor "Agent".
    ConstraintViolation,
    /// The message names a session that does not exist.
    ForeignKeyViolation,
    /// No identity is left to hand out.
    Full,
}

impl Speaker {
    pub open spec fn spec_text(self) -> Seq<char> {
        match self {
            Speaker::You => "You"@,
            Speaker::Agent => "Agent"@,
        }
    }

    /// Reads a speaker column value; anything but the two literals breaks
    /// the column's check constraint.
    pub fn parse(s: &str) -> (r: Result<Speaker, StoreError>)
        ensures
            r == Ok::<Speaker, StoreError>(Speaker::You) <==> s@ == "You"@,
            r == Ok::<Speaker, StoreError>(Speaker::Agent) <==> s@ == "Agent"@,
            r == Err::<Speaker, StoreError>(StoreError::ConstraintViolation) <==> (s@ != "You"@
                && s@ != "Agent"@),
    {
        proof {
            reveal_strlit("You");
            reveal_strlit("Agent");
        }
        assert("You"@.len() == 3 && "Agent"@.len() == 5);
        let given = s.to_owned();
        if given == "You".to_owned() {
            Ok(Speaker::You)
        } else if given == "Agent".to_owned() {
            Ok(Speaker::Agent)
        } else {
            Err(StoreError::ConstraintViolation)
        }
    }

    pub fn as_str(&self) -> (r: &'static str)
        ensures
            r@ == self.spec_text(),
    {
        match self {
            Speaker::You => "You",
            Speaker::Agent => "Agent",
        }
    }
}

/// The columns of a session row that the caller supplies.
#[derive(Debug)]
pub struct SessionFields {
    pub start_time: i64,
    pub end_time: i64,
    pub duration_seconds: i64,
    pub model: String,
    pub input_audio_tokens: i64,
    pub output_audio_tokens: i64,
    pub input_text_tokens: i64,
    pub output_text_tokens: i64,
    pub mic_device: Option<String>,
    pub speaker_device: Option<String>,
    pub created_at: i64,
}

/// A row of the `sessions` table.
#[derive(Debug)]
pub struct Session {
    pub id: i64,
    pub fields: SessionFields,
}

/// A row of the `messages` table.
#[derive(Debug)]
pub struct Message {
    pub id: i64,
    pub session_id: i64,
    pub speaker: Speaker,
    pub text: String,
    pub timestamp: i64,
    pub created_at: i64,
}

fn copy_text(o: &Option<String>) -> (r: Option<String>)
    ensures
        r == *o,
{
    match o {
        Some(s) => Some(s.clone()),
        None => None,
    }
}

impl SessionFields {
    /// Fields for a session from `start_time` to `end_time`, with the
    /// duration they imply, no tokens counted yet and no devices named.
    /// `None` when the end lies before the start or the span does not fit.
    pub fn new(start_time: i64, end_time: i64, model: String, created_at: i64) -> (r: Option<
        SessionFields,
    >)
        ensures
            r is Some <==> (start_time <= end_time && end_time - start_time <= i64::MAX),
            r matches Some(f) ==> {
                &&& f.start_time == start_time
                &&& f.end_time == end_time
                &&& f.duration_seconds == end_time - start_time
                &&& f.model == model
                &&& f.input_audio_tokens == 0
                &&& f.output_audio_tokens == 0
                &&& f.input_text_tokens == 0
                &&& f.output_text_tokens == 0
                &&& f.mic_device is None
                &&& f.speaker_device is None
                &&& f.created_at == created_at
            },
    {
        if start_time > end_time {
            return None;
        }
        let span = end_time as i128 - start_time as i128;
        if span > i64::MAX as i128 {
            return None;
        }
        Some(
            SessionFields {
                start_time,
                end_time,
                duration_seconds: span as i64,
                model,
                input_audio_tokens: 0,
                output_audio_tokens: 0,
                input_text_tokens: 0,
                output_text_tokens: 0,
                mic_device: None,
                speaker_device: None,
                created_at,
            },
        )
    }

    pub fn copy(&self) -> (r: SessionFields)
        ensures
            r == *self,
    {
        SessionFields {
            start_time: self.start_time,
            end_time: self.end_time,
            duration_seconds: self.duration_seconds,
            model: self.model.clone(),
            input_audio_tokens: self.input_audio_tokens,
            output_audio_tokens: self.output_audio_tokens,
            input_text_tokens: self.input_text_tokens,
            output_text_tokens: self.output_text_tokens,
            mic_device: copy_text(&self.mic_device),
            speaker_device: copy_text(&self.speaker_device),
            created_at: self.created_at,
        }
    }
}

impl Session {
    pub fn copy(&self) -> (r: Session)
        ensures
            r == *self,
    {
        Session { id: self.id, fields: self.fields.copy() }
    }
}

impl Message {
    pub fn copy(&self) -> (r: Message)
        ensures
            r == *self,
    {
        Message {
            id: self.id,
            session_id: self.session_id,
            speaker: self.speaker,
            text: self.text.clone(),
            timestamp: self.timestamp,
            created_at: self.created_at,
        }
    }
}

/// The sessions of `ss` other than the one with identity `id`.
pub open spec fn sessions_except(ss: Seq<Session>, id: i64) -> Seq<Session>
    decreases ss.len(),
{
    if ss.len() == 0 {
        ss
    } else {
        let rest = sessions_except(ss.drop_last(), id);
        if ss.last().id == id {
            rest
        } else {
            rest.push(ss.last())
        }
    }
}

/// The messages of `ms` that belong to a session other than `id`, in order.
pub open spec fn messages_except(ms: Seq<Message>, id: i64) -> Seq<Message>
    decreases ms.len(),
{
    if ms.len() == 0 {
        ms
    } else {
        let rest = messages_except(ms.drop_last(), id);
        if ms.last().session_id == id {
            rest
        } else {
            rest.push(ms.last())
        }
    }
}

/// The messages of `ms` that belong to session `id`, in order.
pub open spec fn messages_in(ms: Seq<Message>, id: i64) -> Seq<Message>
    decreases ms.len(),
{
    if ms.len() == 0 {
        ms
    } else {
        let rest = messages_in(ms.drop_last(), id);
        if ms.last().session_id == id {
            rest.push(ms.last())
        } else {
            rest
        }
    }
}

/// `a` comes before `b` in a most-recent-first listing: created later, or
/// created in the same second and inserted later.
pub open spec fn more_recent(a: Session, b: Session) -> bool {
    a.fields.created_at > b.fields.created_at || (a.fields.created_at == b.fields.created_at
        && a.id > b.id)
}

pub open spec fn session_exists(ss: Seq<Session>, id: i64) -> bool {
    exists|j: int| 0 <= j < ss.len() && #[trigger] ss[j].id == id
}

/// Each message kept by `messages_except` belongs to another session and is
/// one of the messages it was given.
pub proof fn lemma_messages_except_members(ms: Seq<Message>, id: i64)
    ensures
        forall|k: int|
            0 <= k < messages_except(ms, id).len() ==> {
                &&& (#[trigger] messages_except(ms, id)[k]).session_id != id
                &&& exists|j: int| 0 <= j < ms.len() && ms[j] == messages_except(ms, id)[k]
            },
    decreases ms.len(),
{
    if ms.len() > 0 {
        let ms0 = ms.drop_last();
        lemma_messages_except_members(ms0, id);
        let e0 = messages_except(ms0, id);
        let e = messages_except(ms, id);
        assert forall|k: int| 0 <= k < e.len() implies {
            &&& (#[trigger] e[k]).session_id != id
            &&& exists|j: int| 0 <= j < ms.len() && ms[j] == e[k]
        } by {
            if k < e0.len() {
                let j = choose|j: int| 0 <= j < ms0.len() && ms0[j] == e0[k];
                assert(ms[j] == e[k]);
            } else {
                assert(ms[ms.len() - 1] == e[k]);
            }
        }
    }
}

/// Deleting a session leaves none of its messages behind.
pub proof fn lemma_cascade_complete(ms: Seq<Message>, id: i64)
    ensures
        messages_in(messages_except(ms, id), id) == Seq::<Message>::empty(),
    decreases ms.len(),
{
    if ms.len() > 0 {
        let ms0 = ms.drop_last();
        lemma_cascade_complete(ms0, id);
        let e0 = messages_except(ms0, id);
        if ms.last().session_id != id {
            assert(e0.push(ms.last()).drop_last() =~= e0);
        }
    }
}

/// With identities in increasing order, removing a session by identity
/// removes exactly the one stored at the position of that identity.
proof fn lemma_sessions_except_remove(ss: Seq<Session>, id: i64, p: int)
    requires
        forall|i: int, j: int| 0 <= i < j < ss.len() ==> #[trigger] ss[i].id < #[trigger] ss[j].id,
        0 <= p < ss.len(),
        ss[p].id == id,
    ensures
        sessions_except(ss, id) == ss.remove(p),
    decreases ss.len(),
{
    let ss0 = ss.drop_last();
    if p == ss.len() - 1 {
        assert forall|j: int| 0 <= j < ss0.len() implies #[trigger] ss0[j].id != id by {
            assert(ss[j].id < ss[p].id);
        }
        lemma_sessions_except_absent(ss0, id);
        assert(ss0 =~= ss.remove(p));
    } else {
        assert(ss[ss.len() - 1].id > ss[p].id);
        lemma_sessions_except_remove(ss0, id, p);
        assert(ss0.remove(p).push(ss.last()) =~= ss.remove(p));
    }
}

proof fn lemma_sessions_except_absent(ss: Seq<Session>, id: i64)
    requires
        forall|j: int| 0 <= j < ss.len() ==> #[trigger] ss[j].id != id,
    ensures
        sessions_except(ss, id) == ss,
    decreases ss.len(),
{
    if ss.len() > 0 {
        let ss0 = ss.drop_last();
        assert forall|j: int| 0 <= j < ss0.len() implies #[trigger] ss0[j].id != id by {
            assert(ss0[j] == ss[j]);
        }
        lemma_sessions_except_absent(ss0, id);
        assert(ss0.push(ss.last()) =~= ss);
    }
}

/// An in-memory image of the `sessions` and `messages` tables that keeps the
/// schema's constraints: store-generated increasing identities, the speaker
/// check, the foreign key from messages to sessions, and its cascade.
pub struct SessionLog {
    sessions: Vec<Session>,
    messages: Vec<Message>,
    next_session_id: i64,
    next_message_id: i64,
}

impl SessionLog {
    pub closed spec fn sessions(&self) -> Seq<Session> {
        self.sessions@
    }

    pub closed spec fn messages(&self) -> Seq<Message> {
        self.messages@
    }

    /// The identity the next inserted session gets.
    pub closed spec fn next_session_id(&self) -> i64 {
        self.next_session_id
    }

    /// The identity the next inserted message gets.
    pub closed spec fn next_message_id(&self) -> i64 {
        self.next_message_id
    }

    pub open spec fn wf(&self) -> bool {
        &&& 1 <= self.next_session_id()
        &&& 1 <= self.next_message_id()
        &&& forall|i: int, j: int|
            0 <= i < j < self.sessions().len() ==> #[trigger] self.sessions()[i].id
                < #[trigger] self.sessions()[j].id
        &&& forall|i: int|
            0 <= i < self.sessions().len() ==> #[trigger] self.sessions()[i].id
                < self.next_session_id()
        &&& forall|i: int|
            0 <= i < self.messages().len() ==> #[trigger] self.messages()[i].id
                < self.next_message_id()
        &&& forall|i: int|
            0 <= i < self.messages().len() ==> session_exists(
                self.sessions(),
                #[trigger] self.messages()[i].session_id,
            )
    }

    /// An empty log, as a freshly migrated store holds it.
    pub fn new() -> (r: SessionLog)
        ensures
            r.wf(),
            r.sessions() == Seq::<Session>::empty(),
            r.messages() == Seq::<Message>::empty(),
            r.next_session_id() == 1,
            r.next_message_id() == 1,
    {
        SessionLog {
            sessions: Vec::new(),
            messages: Vec::new(),
            next_session_id: 1,
            next_message_id: 1,
        }
    }

    /// Inserts a session and returns the identity the log gave it.
    pub fn insert_session(&mut self, fields: SessionFields) -> (r: Result<i64, StoreError>)
        requires
            old(self).wf(),
        ensures
            final(self).wf(),
            final(self).messages() == old(self).messages(),
            final(self).next_message_id() == old(self).next_message_id(),
            r is Ok <==> old(self).next_session_id() < i64::MAX,
            r matches Ok(id) ==> {
                &&& id == old(self).next_session_id()
                &&& final(self).sessions() == old(self).sessions().push(
                    Session { id, fields },
                )
                &&& final(self).next_session_id() == id + 1
            },
            r is Err ==> {
                &&& r == Err::<i64, StoreError>(StoreError::Full)
                &&& final(self).sessions() == old(self).sessions()
                &&& final(self).next_session_id() == old(self).next_session_id()
            },
    {
        if self.next_session_id == i64::MAX {
            return Err(StoreError::Full);
        }
        let id = self.next_session_id;
        let ghost before = self.sessions@;
        self.sessions.push(Session { id, fields });
        self.next_session_id = id + 1;
        assert forall|i: int|
            0 <= i < self.messages@.len() implies session_exists(
            self.sessions@,
            #[trigger] self.messages@[i].session_id,
        ) by {
            let j = choose|j: int|
                0 <= j < before.len() && #[trigger] before[j].id == self.messages@[i].session_id;
            assert(self.sessions@[j] == before[j]);
        }
        Ok(id)
    }

    /// Whether a session with identity `id` is stored.
    pub fn has_session(&self, id: i64) -> (r: bool)
        ensures
            r == session_exists(self.sessions(), id),
    {
        let mut i: usize = 0;
        while i < self.sessions.len()
            invariant
                0 <= i <= self.sessions@.len(),
                forall|j: int| 0 <= j < i ==> #[trigger] self.sessions@[j].id != id,
            decreases self.sessions@.len() - i,
        {
            if self.sessions[i].id == id {
                return true;
            }
            i = i + 1;
        }
        false
    }

    /// Inserts a message of session `session_id` and returns its identity.
    /// A speaker other than "You" or "Agent" breaks the check constraint; a
    /// session that does not exist breaks the foreign key.
    pub fn insert_message(
        &mut self,
        session_id: i64,
        speaker: &str,
        text: String,
        timestamp: i64,
        created_at: i64,
    ) -> (r: Result<i64, StoreError>)
        requires
            old(self).wf(),
        ensures
            final(self).wf(),
            final(self).sessions() == old(self).sessions(),
            final(self).next_session_id() == old(self).next_session_id(),
            r == Err::<i64, StoreError>(StoreError::ConstraintViolation) <==> (speaker@ != "You"@
                && speaker@ != "Agent"@),
            r == Err::<i64, StoreError>(StoreError::ForeignKeyViolation) <==> ((speaker@ == "You"@
                || speaker@ == "Agent"@) && !session_exists(old(self).sessions(), session_id)),
            r == Err::<i64, StoreError>(StoreError::Full) <==> ((speaker@ == "You"@ || speaker@
                == "Agent"@) && session_exists(old(self).sessions(), session_id)
                && old(self).next_message_id() == i64::MAX),
            r is Ok <==> ((speaker@ == "You"@ || speaker@ == "Agent"@) && session_exists(
                old(self).sessions(),
                session_id,
            ) && old(self).next_message_id() < i64::MAX),
            r is Err ==> {
                &&& final(self).messages() == old(self).messages()
                &&& final(self).next_message_id() == old(self).next_message_id()
            },
            r matches Ok(id) ==> {
                &&& id == old(self).next_message_id()
                &&& final(self).next_message_id() == id + 1
                &&& exists|sp: Speaker|
                    sp.spec_text() == speaker@ && final(self).messages() == old(
                        self,
                    ).messages().push(
                        Message { id, session_id, speaker: sp, text, timestamp, created_at },
                    )
            },
    {
        let sp = match Speaker::parse(speaker) {
            Ok(sp) => sp,
            Err(e) => {
                return Err(e);
            },
        };
        if !self.has_session(session_id) {
            return Err(StoreError::ForeignKeyViolation);
        }
        if self.next_message_id == i64::MAX {
            return Err(StoreError::Full);
        }
        let id = self.next_message_id;
        let ghost before = self.messages@;
        let m = Message { id, session_id, speaker: sp, text, timestamp, created_at };
        let ghost gm = m;
        self.messages.push(m);
        self.next_message_id = id + 1;
        proof {
            reveal_strlit("You");
            reveal_strlit("Agent");
            assert(sp.spec_text() == speaker@);
            assert(self.messages@ == before.push(gm));
        }
        Ok(id)
    }
    /// The messages of session `session_id`, in the order they were inserted.
    pub fn messages_of(&self, session_id: i64) -> (r: Vec<Message>)
        ensures
            r@ == messages_in(self.messages(), session_id),
    {
        let ghost ms = self.messages@;
        let mut r: Vec<Message> = Vec::new();
        let mut i: usize = 0;
        while i < self.messages.len()
            invariant
                0 <= i <= ms.len(),
                ms == self.messages@,
                r@ == messages_in(ms.subrange(0, i as int), session_id),
            decreases ms.len() - i,
        {
            assert(ms.subrange(0, i as int + 1).drop_last() =~= ms.subrange(0, i as int));
            assert(ms.subrange(0, i as int + 1).last() == ms[i as int]);
            if self.messages[i].session_id == session_id {
                r.push(self.messages[i].copy());
            }
            i = i + 1;
        }
        assert(ms.subrange(0, ms.len() as int) =~= ms);
        r
    }

    /// Deletes session `id` together with every message that belongs to it.
    /// Returns whether such a session was stored.
    pub fn delete_session(&mut self, id: i64) -> (r: bool)
        requires
            old(self).wf(),
        ensures
            final(self).wf(),
            r == session_exists(old(self).sessions(), id),
            final(self).sessions() == sessions_except(old(self).sessions(), id),
            final(self).messages() == messages_except(old(self).messages(), id),
            final(self).next_session_id() == old(self).next_session_id(),
            final(self).next_message_id() == old(self).next_message_id(),
    {
        let ghost old_log = *self;
        let ghost orig = self.messages@;
        let mut i: usize = 0;
        let ghost mut k: int = 0;
        while i < self.messages.len()
            invariant
                0 <= i <= self.messages@.len(),
                0 <= k <= orig.len(),
                self.messages@.len() - i == orig.len() - k,
                self.messages@.subrange(0, i as int) == messages_except(orig.subrange(0, k), id),
                self.messages@.subrange(i as int, self.messages@.len() as int) == orig.subrange(
                    k,
                    orig.len() as int,
                ),
                self.sessions == old_log.sessions,
                self.next_session_id == old_log.next_session_id,
                self.next_message_id == old_log.next_message_id,
            decreases self.messages@.len() - i,
        {
            let ghost cur = self.messages@;
            proof {
                assert(orig.subrange(0, k + 1).drop_last() =~= orig.subrange(0, k));
                assert(orig.subrange(0, k + 1).last() == orig[k]);
                assert(cur.subrange(i as int, cur.len() as int)[0] == cur[i as int]);
                assert forall|t: int| i <= t < cur.len() implies #[trigger] cur[t] == orig[t - i
                    + k] by {
                    assert(cur.subrange(i as int, cur.len() as int)[t - i] == cur[t]);
                    assert(orig.subrange(k, orig.len() as int)[t - i] == orig[t - i + k]);
                }
            }
            if self.messages[i].session_id == id {
                self.messages.remove(i);
                proof {
                    assert(self.messages@.subrange(0, i as int) =~= cur.subrange(0, i as int));
                    assert(self.messages@.subrange(i as int, self.messages@.len() as int)
                        =~= orig.subrange(k + 1, orig.len() as int));
                }
            } else {
                proof {
                    assert(cur.subrange(0, i as int + 1) =~= cur.subrange(0, i as int).push(
                        cur[i as int],
                    ));
                    assert(cur.subrange(i as int + 1, cur.len() as int) =~= orig.subrange(
                        k + 1,
                        orig.len() as int,
                    ));
                }
                i = i + 1;
            }
            proof {
                k = k + 1;
            }
        }
        proof {
            assert(orig.subrange(0, orig.len() as int) =~= orig);
            assert(self.messages@.subrange(0, i as int) =~= self.messages@);
        }
        let mut p: usize = 0;
        while p < self.sessions.len() && self.sessions[p].id != id
            invariant
                0 <= p <= self.sessions@.len(),
                self.sessions == old_log.sessions,
                forall|j: int| 0 <= j < p ==> #[trigger] self.sessions@[j].id != id,
            decreases self.sessions@.len() - p,
        {
            p = p + 1;
        }
        let ghost ss = old_log.sessions@;
        proof {
            lemma_messages_except_members(orig, id);
        }
        let found = p < self.sessions.len();
        if found {
            proof {
                lemma_sessions_except_remove(ss, id, p as int);
            }
            self.sessions.remove(p);
        } else {
            proof {
                lemma_sessions_except_absent(ss, id);
            }
        }
        let ghost ns = self.sessions@;
        let ghost nm = self.messages@;
        assert forall|i: int| 0 <= i < nm.len() implies session_exists(
            ns,
            #[trigger] nm[i].session_id,
        ) by {
            let j = choose|j: int| 0 <= j < orig.len() && orig[j] == nm[i];
            assert(session_exists(ss, orig[j].session_id));
            let q = choose|q: int| 0 <= q < ss.len() && #[trigger] ss[q].id == orig[j].session_id;
            if found {
                if q < p {
                    assert(ns[q] == ss[q]);
                } else {
                    assert(q != p);
                    assert(ns[q - 1] == ss[q]);
                }
            } else {
                assert(ns[q] == ss[q]);
            }
        }
        assert forall|a: int, b: int| 0 <= a < b < ns.len() implies #[trigger] ns[a].id
            < #[trigger] ns[b].id by {
            let a0 = if found && a >= p { a + 1 } else { a };
            let b0 = if found && b >= p { b + 1 } else { b };
            assert(ns[a] == ss[a0] && ns[b] == ss[b0]);
        }
        assert forall|a: int| 0 <= a < ns.len() implies #[trigger] ns[a].id
            < self.next_session_id by {
            let a0 = if found && a >= p { a + 1 } else { a };
            assert(ns[a] == ss[a0]);
        }
        assert forall|i: int| 0 <= i < nm.len() implies #[trigger] nm[i].id
            < self.next_message_id by {
            let j = choose|j: int| 0 <= j < orig.len() && orig[j] == nm[i];
            assert(old_log.messages()[j].id < old_log.next_message_id());
        }
        found
    }
    /// Every stored session, most recent first: by creation time, descending,
    /// and among sessions created in the same second, the later insertion first.
    pub fn recent_sessions(&self) -> (r: Vec<Session>)
        requires
            self.wf(),
        ensures
            r@.len() == self.sessions().len(),
            forall|i: int| 0 <= i < r@.len() ==> self.sessions().contains(#[trigger] r@[i]),
            forall|j: int| 0 <= j < self.sessions().len() ==> r@.contains(#[trigger] self.sessions()[j]),
            forall|a: int, b: int|
                0 <= a < b < r@.len() ==> more_recent(#[trigger] r@[a], #[trigger] r@[b]),
    {
        let ghost ss = self.sessions@;
        let mut r: Vec<Session> = Vec::new();
        let mut k: usize = 0;
        while k < self.sessions.len()
            invariant
                0 <= k <= ss.len(),
                ss == self.sessions@,
                self.wf(),
                r@.len() == k,
                forall|i: int| 0 <= i < r@.len() ==> exists|j: int| 0 <= j < k && #[trigger] r@[i] == ss[j],
                forall|j: int| 0 <= j < k ==> r@.contains(#[trigger] ss[j]),
                forall|a: int, b: int|
                    0 <= a < b < r@.len() ==> more_recent(#[trigger] r@[a], #[trigger] r@[b]),
            decreases ss.len() - k,
        {
            let x = self.sessions[k].copy();
            let mut pos: usize = 0;
            while pos < r.len() && (r[pos].fields.created_at > x.fields.created_at || (
            r[pos].fields.created_at == x.fields.created_at && r[pos].id > x.id))
                invariant
                    0 <= pos <= r@.len(),
                    forall|a: int| 0 <= a < pos ==> more_recent(#[trigger] r@[a], x),
                decreases r@.len() - pos,
            {
                pos = pos + 1;
            }
            let ghost before = r@;
            proof {
                assert forall|a: int| pos <= a < before.len() implies more_recent(
                    x,
                    #[trigger] before[a],
                ) by {
                    let j = choose|j: int| 0 <= j < k && before[pos as int] == ss[j];
                    assert(ss[j].id < ss[k as int].id);
                    if a > pos {
                        assert(more_recent(before[pos as int], before[a]));
                    }
                }
                before.insert_ensures(pos as int, x);
            }
            r.insert(pos, x);
            proof {
                let n = r@;
                assert(n == before.insert(pos as int, ss[k as int]));
                assert forall|i: int| 0 <= i < n.len() implies exists|j: int|
                    0 <= j < k + 1 && #[trigger] n[i] == ss[j] by {
                    if i < pos {
                        assert(n[i] == before[i]);
                    } else if i > pos {
                        assert(n[i] == before[i - 1]);
                    } else {
                        assert(n[i] == ss[k as int]);
                    }
                }
                assert forall|j: int| 0 <= j < k + 1 implies n.contains(#[trigger] ss[j]) by {
                    if j < k {
                        let t = choose|t: int| 0 <= t < before.len() && before[t] == ss[j];
                        if t < pos {
                            assert(n[t] == ss[j]);
                        } else {
                            assert(n[t + 1] == ss[j]);
                        }
                    } else {
                        assert(n[pos as int] == ss[j]);
                    }
                }
                assert forall|a: int, b: int| 0 <= a < b < n.len() implies more_recent(
                    #[trigger] n[a],
                    #[trigger] n[b],
                ) by {
                    if b < pos {
                        assert(n[a] == before[a] && n[b] == before[b]);
                    } else if b == pos {
                        assert(n[a] == before[a]);
                    } else if a < pos {
                        assert(n[a] == before[a] && n[b] == before[b - 1]);
                        assert(more_recent(before[a], x));
                    } else if a == pos {
                        assert(n[b] == before[b - 1]);
                    } else {
                        assert(n[a] == before[a - 1] && n[b] == before[b - 1]);
                    }
                }
            }
            k = k + 1;
        }
        r
    }
}

} // verus!
