//! Session lifecycle and output collection. A `PtySession` records what the
//! supervisor knows of one forked shell: its pid, its pty master
//! descriptor, and whether it is still alive. The platform side (forking,
//! the non-blocking reads, the exit checks) happens outside the library
//! and hands in plain values: a `ReadEvent` per session and poll pass.
//! The collector logic here decides, deterministically and in session
//! order, which sessions report output or end-of-stream, and marks dead
//! sessions so they are never read again.

use vstd::prelude::*;

verus! {

/// The result of one non-blocking read of a session's master descriptor,
/// as the platform reported it.
#[derive(Debug)]
pub enum ReadEvent {
    /// The read returned these bytes.
    Data(Vec<u8>),
    /// Nothing to read this pass.
    WouldBlock,
    /// End of stream: the child's side of the pty is gone.
    Eof,
    /// The read failed with a descriptor error other than end-of-stream.
    Failed,
}

/// What one poll pass reports for a session that produced output or
/// reached end-of-stream.
#[derive(Debug)]
pub struct CollectedOutput {
    pub session_id: u32,
    pub bytes: Vec<u8>,
    pub eof: bool,
}

impl CollectedOutput {
    /// The report as plain values.
    pub open spec fn view(self) -> (u32, Seq<u8>, bool) {
        (self.session_id, self.bytes@, self.eof)
    }
}

/// One forked shell attached to a pty, as the supervisor tracks it.
#[derive(Debug)]
pub struct PtySession {
    pub id: u32,
    pub child_pid: i32,
    pub master_fd: i32,
    pub shell_path: String,
    pub alive: bool,
}

/// Processing one read event: the session afterwards and the report, if
/// any, as plain values. A dead session is left untouched and reports
/// nothing; end-of-stream and read failures mark the session dead;
/// end-of-stream alone is reported with the `eof` marker.
pub open spec fn spec_step(s: PtySession, ev: ReadEvent) -> (PtySession, Option<(u32, Seq<
    u8,
>, bool)>) {
    if !s.alive {
        (s, None)
    } else {
        match ev {
            ReadEvent::Data(b) => (
                s,
                if b@.len() > 0 {
                    Some((s.id, b@, false))
                } else {
                    None
                },
            ),
            ReadEvent::WouldBlock => (s, None),
            ReadEvent::Eof => (PtySession { alive: false, ..s }, Some((s.id, Seq::empty(), true))),
            ReadEvent::Failed => (PtySession { alive: false, ..s }, None),
        }
    }
}

impl PtySession {
    /// A freshly spawned session: alive, with the handles the fork
    /// returned.
    pub fn new(id: u32, child_pid: i32, master_fd: i32, shell_path: String) -> (s: PtySession)
        ensures
            s.id == id,
            s.child_pid == child_pid,
            s.master_fd == master_fd,
            s.shell_path@ == shell_path@,
            s.alive,
    {
        PtySession { id, child_pid, master_fd, shell_path, alive: true }
    }

    /// Is the child still running, per the lifecycle events recorded so
    /// far?
    pub fn is_alive(&self) -> (r: bool)
        ensures
            r == self.alive,
    {
        self.alive
    }

    /// Should this session's descriptor be read this pass? A dead
    /// session is never read again.
    pub fn wants_read(&self) -> (r: bool)
        ensures
            r == self.alive,
    {
        self.alive
    }

    /// Record that the non-blocking exit check reaped the child, or that
    /// it was terminated. Idempotent: a dead session stays dead.
    pub fn mark_dead(&mut self)
        ensures
            *final(self) == (PtySession { alive: false, ..*old(self) }),
    {
        self.alive = false;
    }

    /// Process one read event: the exact executable mirror of
    /// `spec_step`.
    pub fn on_read_event(&mut self, ev: ReadEvent) -> (r: Option<CollectedOutput>)
        ensures
            *final(self) == spec_step(*old(self), ev).0,
            match r {
                Some(c) => spec_step(*old(self), ev).1 == Some(c@),
                None => spec_step(*old(self), ev).1 is None,
            },
    {
        if !self.alive {
            return None;
        }
        match ev {
            ReadEvent::Data(b) => if b.len() > 0 {
                Some(CollectedOutput { session_id: self.id, bytes: b, eof: false })
            } else {
                None
            },
            ReadEvent::WouldBlock => None,
            ReadEvent::Eof => {
                self.alive = false;
                Some(CollectedOutput { session_id: self.id, bytes: Vec::new(), eof: true })
            },
            ReadEvent::Failed => {
                self.alive = false;
                None
            },
        }
    }
}

/// The collector pass over whole session lists: the sessions afterwards
/// and the reports, in session order.
pub open spec fn spec_collect(ss: Seq<PtySession>, evs: Seq<ReadEvent>) -> (Seq<PtySession>, Seq<
    (u32, Seq<u8>, bool),
>)
    decreases ss.len(),
{
    if ss.len() == 0 || evs.len() == 0 {
        (ss, Seq::empty())
    } else {
        let (s1, rep) = spec_step(ss[0], evs[0]);
        let (rest, reps) = spec_collect(
            ss.subrange(1, ss.len() as int),
            evs.subrange(1, evs.len() as int),
        );
        (
            seq![s1] + rest,
            match rep {
                Some(t) => seq![t] + reps,
                None => reps,
            },
        )
    }
}

/// One non-blocking collector pass: process one read event per session,
/// in session (pane id) order, so the reports are reproducible for the
/// same inputs. Sessions that reached end-of-stream come back marked
/// dead; only sessions that produced data or end-of-stream are reported.
pub fn collect(sessions: Vec<PtySession>, events: Vec<ReadEvent>) -> (r: (Vec<PtySession>, Vec<
    CollectedOutput,
>))
    requires
        sessions@.len() == events@.len(),
    ensures
        r.0@ == spec_collect(sessions@, events@).0,
        r.1@.len() == spec_collect(sessions@, events@).1.len(),
        forall|k: int| 0 <= k < r.1@.len() ==> (#[trigger] r.1@[k])@ == spec_collect(
            sessions@,
            events@,
        ).1[k],
    decreases sessions@.len(),
{
    let mut sessions = sessions;
    let mut events = events;
    if sessions.len() == 0 {
        (sessions, Vec::new())
    } else {
        let ghost ss0 = sessions@;
        let ghost evs0 = events@;
        let mut s = sessions.remove(0);
        let ev = events.remove(0);
        let rep = s.on_read_event(ev);
        let (mut rest_ss, mut reps) = collect(sessions, events);
        rest_ss.insert(0, s);
        proof {
            assert(rest_ss@ =~= seq![spec_step(ss0[0], evs0[0]).0] + spec_collect(
                ss0.subrange(1, ss0.len() as int),
                evs0.subrange(1, evs0.len() as int),
            ).0);
        }
        match rep {
            Some(c) => {
                reps.insert(0, c);
                (rest_ss, reps)
            },
            None => (rest_ss, reps),
        }
    }
}

/// The session and the number of end-of-stream reports after processing a
/// sequence of read events in order.
pub open spec fn spec_run(s: PtySession, evs: Seq<ReadEvent>) -> (PtySession, int)
    decreases evs.len(),
{
    if evs.len() == 0 {
        (s, 0)
    } else {
        let (s1, rep) = spec_step(s, evs[0]);
        let (s2, n) = spec_run(s1, evs.subrange(1, evs.len() as int));
        (
            s2,
            n + match rep {
                Some(t) => if t.2 {
                    1int
                } else {
                    0int
                },
                None => 0int,
            },
        )
    }
}

/// A dead session is inert: reading it reports nothing and changes
/// nothing, however many events arrive.
pub proof fn lemma_dead_session_inert(s: PtySession, evs: Seq<ReadEvent>)
    requires
        !s.alive,
    ensures
        spec_run(s, evs) == (s, 0int),
    decreases evs.len(),
{
    if evs.len() != 0 {
        lemma_dead_session_inert(s, evs.subrange(1, evs.len() as int));
    }
}

/// Over any sequence of reads a session delivers at most one
/// end-of-stream report, and once one was delivered the session is dead.
pub proof fn lemma_eof_at_most_once(s: PtySession, evs: Seq<ReadEvent>)
    ensures
        spec_run(s, evs).1
            <= if s.alive {
            1int
        } else {
            0int
        },
        spec_run(s, evs).1 >= 1 ==> !spec_run(s, evs).0.alive,
    decreases evs.len(),
{
    if evs.len() != 0 {
        let (s1, rep) = spec_step(s, evs[0]);
        lemma_eof_at_most_once(s1, evs.subrange(1, evs.len() as int));
        if rep is Some && rep.unwrap().2 {
            lemma_dead_session_inert(s1, evs.subrange(1, evs.len() as int));
        }
    }
}

/// A live session whose child reaches end-of-stream delivers exactly one
/// end-of-stream report: the reads before it yielded data or nothing,
/// the read at it reports the marker and kills the session, and a dead
/// session is never reported again.
pub proof fn lemma_eof_exactly_once(s: PtySession, evs: Seq<ReadEvent>, i: int)
    requires
        s.alive,
        0 <= i < evs.len(),
        evs[i] is Eof,
        forall|j: int| 0 <= j < i ==> ((#[trigger] evs[j]) is Data || evs[j] is WouldBlock),
    ensures
        spec_run(s, evs).1 == 1,
        !spec_run(s, evs).0.alive,
    decreases evs.len(),
{
    let tail = evs.subrange(1, evs.len() as int);
    if i == 0 {
        let (s1, rep) = spec_step(s, evs[0]);
        lemma_dead_session_inert(s1, tail);
    } else {
        let (s1, rep) = spec_step(s, evs[0]);
        assert(evs[0] is Data || evs[0] is WouldBlock);
        assert(s1.alive);
        assert(tail[i - 1] is Eof);
        assert forall|j: int| 0 <= j < i - 1 implies ((#[trigger] tail[j]) is Data || tail[j]
            is WouldBlock) by {
            assert(tail[j] == evs[j + 1]);
        }
        lemma_eof_exactly_once(s1, tail, i - 1);
    }
}

} // verus!
