//! The sessions that run, by their ids.
use crate::nntp::config::NntpConfig;
use crate::nzb::file::PostedFile;
use crate::session::PAR2_PRIORITY;
use crate::session::state::Session;
use crate::session::session_files;
use crate::session::state::files_view;
use crate::session::state::lemma_session_files_len;
use crate::session::state::par2_tasks;
use crate::streaming::tasks_view;
use vstd::prelude::*;

verus! {

/// A session with its id and the second at which it was made.
pub struct SessionEntry {
    pub id: u128,
    pub created_at: u64,
    pub session: Session,
}

/// The sessions that run. No two of them have the same id.
pub struct SessionManager {
    sessions: Vec<SessionEntry>,
    nntp_config: Option<NntpConfig>,
}

/// Why the manager does not do what it is asked.
#[derive(Debug, Clone, Copy, PartialEq, Eq, Structural)]
pub enum ManagerError {
    /// There is no session of that id.
    SessionNotFound { session_id: u128 },
    /// The settings of the news server are not set.
    Config,
}

/// How old, in seconds, a session is at the second `now` that was made
/// at `created_at`; not below zero.
pub open spec fn age_at(created_at: u64, now: u64) -> u64 {
    if now > created_at {
        (now - created_at) as u64
    } else {
        0
    }
}

/// Index of the first session at or after `from` whose id is `id`.
pub open spec fn session_at(sessions: Seq<SessionEntry>, id: u128, from: int) -> Option<int>
    decreases sessions.len() - from,
{
    if from < 0 || from >= sessions.len() {
        None
    } else if sessions[from].id == id {
        Some(from)
    } else {
        session_at(sessions, id, from + 1)
    }
}

/// The sessions that are at most `max_age` seconds old at `now`, in
/// their order.
pub open spec fn young(sessions: Seq<SessionEntry>, now: u64, max_age: u64) -> Seq<SessionEntry>
    decreases sessions.len(),
{
    if sessions.len() == 0 {
        Seq::empty()
    } else if age_at(sessions.last().created_at, now) > max_age {
        young(sessions.drop_last(), now, max_age)
    } else {
        young(sessions.drop_last(), now, max_age).push(sessions.last())
    }
}

/// The sessions `after` are the sessions `before` with a session of the
/// id `id` put in: in the place of the session that had the id, or
/// behind all others; the others stay as they are.
pub open spec fn others_stay(before: Seq<SessionEntry>, after: Seq<SessionEntry>, id: u128) -> bool {
    match session_at(before, id, 0) {
        Some(i) => after.len() == before.len() && session_at(after, id, 0) == Some(i)
            && forall|k: int| 0 <= k < before.len() && k != i ==> after[k] == before[k],
        None => after.drop_last() == before && session_at(after, id, 0) == Some(
            before.len() as int,
        ),
    }
}

/// No two sessions have the same id.
pub open spec fn distinct_ids(sessions: Seq<SessionEntry>) -> bool {
    forall|i: int, j: int|
        0 <= i < j < sessions.len() ==> (#[trigger] sessions[i]).id != (#[trigger] sessions[j]).id
}

/// The sessions that are kept are among those that were there.
pub proof fn lemma_young_are_among(sessions: Seq<SessionEntry>, now: u64, max_age: u64)
    ensures
        young(sessions, now, max_age).len() <= sessions.len(),
        forall|k: int|
            0 <= k < young(sessions, now, max_age).len() ==> exists|i: int|
                0 <= i < sessions.len() && sessions[i] == #[trigger] young(
                    sessions,
                    now,
                    max_age,
                )[k],
        distinct_ids(sessions) ==> distinct_ids(young(sessions, now, max_age)),
    decreases sessions.len(),
{
    if sessions.len() > 0 {
        let head = sessions.drop_last();
        lemma_young_are_among(head, now, max_age);
        let kept = young(sessions, now, max_age);
        let before = young(head, now, max_age);
        assert forall|k: int| 0 <= k < kept.len() implies exists|i: int|
            0 <= i < sessions.len() && sessions[i] == #[trigger] kept[k] by {
            if k < before.len() {
                let i = choose|i: int| 0 <= i < head.len() && head[i] == before[k];
                assert(sessions[i] == kept[k]);
            } else {
                assert(sessions[sessions.len() - 1] == kept[k]);
            }
        }
        if distinct_ids(sessions) {
            assert(distinct_ids(head)) by {
                assert forall|i: int, j: int| 0 <= i < j < head.len() implies (#[trigger] head[i]).id
                    != (#[trigger] head[j]).id by {
                    assert(sessions[i].id != sessions[j].id);
                }
            }
            assert forall|a: int, b: int| 0 <= a < b < kept.len() implies (#[trigger] kept[a]).id
                != (#[trigger] kept[b]).id by {
                if b == before.len() {
                    let i = choose|i: int| 0 <= i < head.len() && head[i] == before[a];
                    assert(sessions[i].id != sessions[sessions.len() - 1].id);
                }
            }
        }
    }
}

impl SessionManager {
    /// The sessions that run, in the order in which they were made.
    pub closed spec fn spec_sessions(&self) -> Seq<SessionEntry> {
        self.sessions@
    }

    /// The settings of the news server, once they are set.
    pub closed spec fn spec_config(&self) -> Option<NntpConfig> {
        self.nntp_config
    }

    /// The session of the id `session_id`, with its id and the second
    /// at which it was made.
    pub open spec fn created(&self, session_id: u128) -> SessionEntry {
        self.spec_sessions()[session_at(self.spec_sessions(), session_id, 0).unwrap()]
    }

    /// The manager holds what it should: no two sessions have the same
    /// id.
    pub open spec fn wf(&self) -> bool {
        distinct_ids(self.spec_sessions())
    }

    /// A manager without sessions and without settings.
    pub fn new() -> (m: SessionManager)
        ensures
            m.spec_sessions().len() == 0,
            m.spec_config() is None,
            m.wf(),
    {
        SessionManager { sessions: Vec::new(), nntp_config: None }
    }

    /// Sets the settings of the news server.
    pub fn set_nntp_config(&mut self, config: NntpConfig)
        ensures
            final(self).spec_config() == Some(config),
            final(self).spec_sessions() == old(self).spec_sessions(),
    {
        self.nntp_config = Some(config);
    }

    /// Index of the session of the id `session_id`.
    pub fn position(&self, session_id: u128) -> (r: Option<usize>)
        ensures
            match r {
                Some(i) => session_at(self.spec_sessions(), session_id, 0) == Some(i as int) && i
                    < self.spec_sessions().len(),
                None => session_at(self.spec_sessions(), session_id, 0) is None,
            },
    {
        let mut i: usize = 0;
        while i < self.sessions.len()
            invariant
                i <= self.sessions@.len(),
                session_at(self.sessions@, session_id, 0) == session_at(
                    self.sessions@,
                    session_id,
                    i as int,
                ),
            decreases self.sessions@.len() - i,
        {
            if self.sessions[i].id == session_id {
                return Some(i);
            }
            i += 1;
        }
        None
    }

    /// Makes a session for the files of a posting, with the recovery
    /// files queued, under the id `session_id`, at the second `now`. A
    /// session that had the id makes way for it, in its place; else the
    /// new session comes behind the others.
    pub fn create_session(&mut self, session_id: u128, now: u64, files: &[PostedFile]) -> (r: u128)
        requires
            old(self).wf(),
            files@.len() <= u32::MAX - PAR2_PRIORITY,
        ensures
            r == session_id,
            final(self).wf(),
            final(self).spec_config() == old(self).spec_config(),
            others_stay(old(self).spec_sessions(), final(self).spec_sessions(), session_id),
            final(self).created(session_id).id == session_id,
            final(self).created(session_id).created_at == now,
            files_view(final(self).created(session_id).session.par2_files@) == session_files(
                files_view(files@),
                true,
            ),
            files_view(final(self).created(session_id).session.rar_files@) == session_files(
                files_view(files@),
                false,
            ),
            tasks_view(final(self).created(session_id).session.download_queue@) == par2_tasks(
                final(self).created(session_id).session.par2_files@,
            ),
            !final(self).created(session_id).session.stream_ready,
    {
        let mut session = Session::new(files);
        proof {
            lemma_session_files_len(files_view(files@), true);
            assert(files_view(session.par2_files@).len() == session.par2_files@.len());
        }
        session.queue_par2_downloads();
        assert(tasks_view(session.download_queue@) =~= par2_tasks(session.par2_files@));
        let ghost before = self.sessions@;
        let entry = SessionEntry { id: session_id, created_at: now, session };
        match self.position(session_id) {
            Some(i) => {
                proof {
                    lemma_found(before, session_id, 0);
                }
                self.sessions.set(i, entry);
                proof {
                    let after = self.sessions@;
                    assert forall|a: int, b: int| 0 <= a < b < after.len() implies (
                    #[trigger] after[a]).id != (#[trigger] after[b]).id by {
                        assert(before[a].id != before[b].id);
                    }
                    lemma_first_of_id(after, session_id, 0, i as int);
                }
            },
            None => {
                proof {
                    lemma_absent(before, session_id, 0);
                }
                self.sessions.push(entry);
                proof {
                    assert(self.sessions@.drop_last() =~= before);
                    lemma_first_of_id(self.sessions@, session_id, 0, before.len() as int);
                }
            },
        }
        session_id
    }

    /// The session of the id `session_id`.
    pub fn get_session(&self, session_id: u128) -> (r: Result<&Session, ManagerError>)
        ensures
            match session_at(self.spec_sessions(), session_id, 0) {
                Some(i) => r matches Ok(s) && *s == self.spec_sessions()[i].session,
                None => r == Err::<&Session, ManagerError>(
                    ManagerError::SessionNotFound { session_id },
                ),
            },
    {
        match self.position(session_id) {
            Some(i) => Ok(&self.sessions[i].session),
            None => Err(ManagerError::SessionNotFound { session_id }),
        }
    }

    /// Whether the downloader of the session `session_id` can start:
    /// the settings of the news server are set, and the session is
    /// there.
    pub fn start_session_downloader(&self, session_id: u128) -> (r: Result<(), ManagerError>)
        ensures
            r == if self.spec_config() is None {
                Err::<(), ManagerError>(ManagerError::Config)
            } else if session_at(self.spec_sessions(), session_id, 0) is None {
                Err(ManagerError::SessionNotFound { session_id })
            } else {
                Ok(())
            },
    {
        if self.nntp_config.is_none() {
            return Err(ManagerError::Config);
        }
        match self.position(session_id) {
            Some(_) => Ok(()),
            None => Err(ManagerError::SessionNotFound { session_id }),
        }
    }

    /// Ends the sessions that are more than `max_age_seconds` old at the
    /// second `now`, and tells how many they were.
    pub fn cleanup_sessions(&mut self, now: u64, max_age_seconds: u64) -> (removed: usize)
        ensures
            final(self).spec_sessions() == young(old(self).spec_sessions(), now, max_age_seconds),
            removed == old(self).spec_sessions().len() - final(self).spec_sessions().len(),
            final(self).spec_config() == old(self).spec_config(),
            old(self).wf() ==> final(self).wf(),
    {
        let ghost all = self.sessions@;
        let total: usize = self.sessions.len();
        let mut kept: Vec<SessionEntry> = Vec::new();
        let mut rest: Vec<SessionEntry> = Vec::new();
        std::mem::swap(&mut rest, &mut self.sessions);
        let mut i: usize = 0;
        assert(all.subrange(0, 0) =~= Seq::<SessionEntry>::empty());
        proof {
            lemma_young_are_among(all, now, max_age_seconds);
        }
        while rest.len() > 0
            invariant
                i + rest@.len() == all.len(),
                total == all.len(),
                rest@ == all.subrange(i as int, all.len() as int),
                kept@ == young(all.subrange(0, i as int), now, max_age_seconds),
                kept@.len() <= i,
                self.nntp_config == old(self).nntp_config,
            decreases rest@.len(),
        {
            let ghost next = all.subrange(0, i + 1);
            assert(next.drop_last() =~= all.subrange(0, i as int));
            assert(next.last() == all[i as int]);
            let entry = rest.remove(0);
            assert(entry == all[i as int]);
            assert(rest@ =~= all.subrange(i + 1, all.len() as int));
            let age: u64 = if now > entry.created_at {
                now - entry.created_at
            } else {
                0
            };
            if age <= max_age_seconds {
                kept.push(entry);
            }
            i += 1;
        }
        assert(all.subrange(0, i as int) =~= all);
        let removed: usize = total - kept.len();
        self.sessions = kept;
        removed
    }

    /// How many sessions run.
    pub fn session_count(&self) -> (n: usize)
        ensures
            n == self.spec_sessions().len(),
    {
        self.sessions.len()
    }
}

/// A session that is not found from `from` on is none of those from
/// there on.
proof fn lemma_absent(sessions: Seq<SessionEntry>, id: u128, from: int)
    requires
        0 <= from,
        session_at(sessions, id, from) is None,
    ensures
        forall|k: int| from <= k < sessions.len() ==> (#[trigger] sessions[k]).id != id,
    decreases sessions.len() - from,
{
    if from < sessions.len() {
        lemma_absent(sessions, id, from + 1);
    }
}

/// A session that is found is one of those from `from` on, and has the
/// id.
proof fn lemma_found(sessions: Seq<SessionEntry>, id: u128, from: int)
    requires
        0 <= from,
    ensures
        session_at(sessions, id, from) matches Some(i) ==> from <= i < sessions.len()
            && sessions[i].id == id,
    decreases sessions.len() - from,
{
    if from < sessions.len() && sessions[from].id != id {
        lemma_found(sessions, id, from + 1);
    }
}

/// Where no session before `at` has the id and the session at `at` has
/// it, that session is the one that is found.
proof fn lemma_first_of_id(sessions: Seq<SessionEntry>, id: u128, from: int, at: int)
    requires
        0 <= from <= at < sessions.len(),
        sessions[at].id == id,
        forall|k: int| from <= k < at ==> (#[trigger] sessions[k]).id != id,
    ensures
        session_at(sessions, id, from) == Some(at),
    decreases at - from,
{
    if from < at {
        lemma_first_of_id(sessions, id, from + 1, at);
    }
}

} // verus!
