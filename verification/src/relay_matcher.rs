//! The relay server's logic: the peer-matching table and the per-session
//! transition rules that decide registration, pairing, forwarding and
//! cleanup. The relay never inspects the bytes it forwards.

use crate::relay_protocol::{RelayMessage, RelayMessageV, Role};
use crate::strutil::str_eq;
use vstd::prelude::*;

verus! {

/// One waiting registration: a session that announced its role under a code
/// hash and has no peer yet.
pub struct Registration {
    pub code_hash: String,
    pub role: Role,
    pub session: u64,
}

/// The mathematical shape of a registration.
pub struct RegistrationV {
    pub code_hash: Seq<char>,
    pub role: Role,
    pub session: u64,
}

impl View for Registration {
    type V = RegistrationV;

    open spec fn view(&self) -> RegistrationV {
        RegistrationV { code_hash: self.code_hash@, role: self.role, session: self.session }
    }
}

/// Some entry of the table carries this code hash.
pub open spec fn seq_has(t: Seq<RegistrationV>, h: Seq<char>) -> bool {
    exists|i: int| 0 <= i < t.len() && #[trigger] t[i].code_hash == h
}

/// The index of the entry carrying this code hash.
pub open spec fn seq_idx(t: Seq<RegistrationV>, h: Seq<char>) -> int {
    choose|i: int| 0 <= i < t.len() && #[trigger] t[i].code_hash == h
}

/// The entry carrying this code hash.
pub open spec fn seq_entry(t: Seq<RegistrationV>, h: Seq<char>) -> RegistrationV {
    t[seq_idx(t, h)]
}

/// The relay's one shared structure: for each code hash, at most one waiting
/// registration. Pairing is one-shot — a match removes the entry.
pub struct PeerTable {
    pub entries: Vec<Registration>,
}

impl View for PeerTable {
    type V = Seq<RegistrationV>;

    open spec fn view(&self) -> Seq<RegistrationV> {
        self.entries@.map_values(|r: Registration| r@)
    }
}

/// What a registration attempt decided.
#[derive(Clone, Copy, Debug, PartialEq, Eq, Structural)]
pub enum RegisterOutcome {
    /// No peer yet: the registration waits in the table.
    Waiting,
    /// A peer of the other role was waiting: the pair is fixed.
    Matched { peer_session: u64 },
    /// A peer of the same role is already waiting: the newcomer is refused.
    DuplicateRole,
}

impl PeerTable {
    /// Each code hash occurs at most once: no hash ever holds two waiting
    /// registrations, in particular never two of the same role.
    pub open spec fn wf(self) -> bool {
        forall|i: int, j: int|
            0 <= i < j < self@.len() ==> #[trigger] self@[i].code_hash != #[trigger] self@[j].code_hash
    }

    pub open spec fn has_entry(self, h: Seq<char>) -> bool {
        seq_has(self@, h)
    }

    pub open spec fn idx_of(self, h: Seq<char>) -> int {
        seq_idx(self@, h)
    }

    pub open spec fn entry_of(self, h: Seq<char>) -> RegistrationV {
        seq_entry(self@, h)
    }

    /// An empty table.
    pub fn new() -> (r: PeerTable)
        ensures
            r.wf(),
            r@ == Seq::<RegistrationV>::empty(),
    {
        let t = PeerTable { entries: Vec::new() };
        proof {
            assert(t@ =~= Seq::<RegistrationV>::empty());
        }
        t
    }

    /// Finds the entry under a code hash, if one waits there.
    fn find(&self, code_hash: &String) -> (r: Option<usize>)
        ensures
            match r {
                Some(i) => i < self@.len() && self@[i as int].code_hash == code_hash@,
                None => !self.has_entry(code_hash@),
            },
    {
        let n = self.entries.len();
        let mut i: usize = 0;
        while i < n
            invariant
                n == self.entries@.len(),
                i <= n,
                forall|j: int| 0 <= j < i ==> #[trigger] self@[j].code_hash != code_hash@,
            decreases n - i,
        {
            if str_eq(self.entries[i].code_hash.as_str(), code_hash.as_str()) {
                return Some(i);
            }
            i += 1;
        }
        None
    }

    /// Handles one `Register` arrival atomically: consult the table under the
    /// code hash, and either wait, pair with the waiting peer of the other
    /// role (removing its entry — pairing is one-shot), or refuse a
    /// same-role duplicate, leaving the original untouched.
    pub fn register(&mut self, session: u64, role: Role, code_hash: String) -> (r: RegisterOutcome)
        requires
            old(self).wf(),
        ensures
            final(self).wf(),
            !old(self).has_entry(code_hash@) ==> (r == RegisterOutcome::Waiting && final(self)@
                == old(self)@.push(
                (RegistrationV { code_hash: code_hash@, role, session }),
            )),
            old(self).has_entry(code_hash@) && old(self).entry_of(code_hash@).role != role ==> (r
                == (RegisterOutcome::Matched {
                peer_session: old(self).entry_of(code_hash@).session,
            }) && final(self)@ == old(self)@.remove(old(self).idx_of(code_hash@))
                && !(final(self).has_entry(code_hash@))),
            old(self).has_entry(code_hash@) && old(self).entry_of(code_hash@).role == role ==> (r
                == RegisterOutcome::DuplicateRole && final(self)@ == old(self)@),
    {
        let found = self.find(&code_hash);
        match found {
            None => {
                let ghost t0 = self@;
                self.entries.push(Registration { code_hash, role, session });
                proof {
                    assert(self@ =~= t0.push(self.entries@[t0.len() as int]@));
                    assert forall|i: int, j: int| 0 <= i < j < self@.len() implies #[trigger] self@[i].code_hash
                        != #[trigger] self@[j].code_hash by {
                        if j == self@.len() - 1 {
                            assert(!seq_has(t0, self@[j].code_hash));
                        }
                    }
                }
                RegisterOutcome::Waiting
            },
            Some(i) => {
                proof {
                    assert(seq_has(self@, code_hash@));
                    let k = self.idx_of(code_hash@);
                    assert(0 <= k < self@.len() && self@[k].code_hash == code_hash@);
                    assert(i as int == k);
                }
                if self.entries[i].role != role {
                    let peer_session = self.entries[i].session;
                    let ghost t0 = self@;
                    let ghost k = self.idx_of(code_hash@);
                    self.entries.remove(i);
                    proof {
                        assert(self@ =~= t0.remove(k));
                        assert forall|a: int|
                            0 <= a < self@.len() implies #[trigger] self@[a] == if a < k {
                            t0[a]
                        } else {
                            t0[a + 1]
                        } by {}
                        assert forall|a: int, b: int|
                            0 <= a < b < self@.len() implies #[trigger] self@[a].code_hash
                            != #[trigger] self@[b].code_hash by {}
                        assert(!seq_has(self@, code_hash@)) by {
                            if seq_has(self@, code_hash@) {
                                let w = choose|i2: int|
                                    0 <= i2 < self@.len() && #[trigger] self@[i2].code_hash
                                        == code_hash@;
                                if w < k {
                                    assert(t0[w].code_hash == t0[k].code_hash);
                                } else {
                                    assert(t0[w + 1].code_hash == t0[k].code_hash);
                                }
                            }
                        }
                    }
                    RegisterOutcome::Matched { peer_session }
                } else {
                    RegisterOutcome::DuplicateRole
                }
            },
        }
    }

    /// Removes a waiting session's own entry on disconnect; an entry that was
    /// already paired away, or that a later registration now owns, is left
    /// alone.
    pub fn remove_waiting(&mut self, session: u64, code_hash: &String)
        requires
            old(self).wf(),
        ensures
            final(self).wf(),
            (old(self).has_entry(code_hash@) && old(self).entry_of(code_hash@).session == session)
                ==> (final(self)@ == old(self)@.remove(old(self).idx_of(code_hash@))
                && !(final(self).has_entry(code_hash@))),
            !(old(self).has_entry(code_hash@) && old(self).entry_of(code_hash@).session == session)
                ==> final(self)@ == old(self)@,
    {
        let found = self.find(code_hash);
        match found {
            None => {},
            Some(i) => {
                proof {
                    let k = self.idx_of(code_hash@);
                    assert(0 <= k < self@.len() && self@[k].code_hash == code_hash@);
                    assert(i as int == k);
                }
                if self.entries[i].session == session {
                    let ghost t0 = self@;
                    let ghost k = self.idx_of(code_hash@);
                    self.entries.remove(i);
                    proof {
                        assert(self@ =~= t0.remove(k));
                        assert forall|a: int|
                            0 <= a < self@.len() implies #[trigger] self@[a] == if a < k {
                            t0[a]
                        } else {
                            t0[a + 1]
                        } by {}
                        assert forall|a: int, b: int|
                            0 <= a < b < self@.len() implies #[trigger] self@[a].code_hash
                            != #[trigger] self@[b].code_hash by {}
                        assert(!seq_has(self@, code_hash@)) by {
                            if seq_has(self@, code_hash@) {
                                let w = choose|i2: int|
                                    0 <= i2 < self@.len() && #[trigger] self@[i2].code_hash
                                        == code_hash@;
                                if w < k {
                                    assert(t0[w].code_hash == t0[k].code_hash);
                                } else {
                                    assert(t0[w + 1].code_hash == t0[k].code_hash);
                                }
                            }
                        }
                    }
                }
            },
        }
    }
}

/// One code hash never holds two waiting registrations at once, whatever
/// sequence of registrations built the table: every operation above preserves
/// `wf`, and `wf` rules out two entries — of any roles, so in particular of
/// the same role — under one hash.
pub proof fn lemma_no_duplicate_waiting(t: PeerTable, i: int, j: int)
    requires
        t.wf(),
        0 <= i < j < t@.len(),
    ensures
        t@[i].code_hash != t@[j].code_hash,
{
}

/// Where one relay session stands.
pub enum SessionState {
    /// Connected; no registration seen yet.
    AwaitRegister,
    /// Registered and waiting for a peer of the other role.
    Waiting { code_hash: String, role: Role },
    /// Paired; binary frames flow to the peer session.
    Matched { peer: u64 },
    /// Torn down; nothing more happens.
    Closed,
}

/// The mathematical shape of a session state.
pub enum SessionStateV {
    AwaitRegister,
    Waiting { code_hash: Seq<char>, role: Role },
    Matched { peer: u64 },
    Closed,
}

impl View for SessionState {
    type V = SessionStateV;

    open spec fn view(&self) -> SessionStateV {
        match self {
            SessionState::AwaitRegister => SessionStateV::AwaitRegister,
            SessionState::Waiting { code_hash, role } => (SessionStateV::Waiting {
                code_hash: code_hash@,
                role: *role,
            }),
            SessionState::Matched { peer } => SessionStateV::Matched { peer: *peer },
            SessionState::Closed => SessionStateV::Closed,
        }
    }
}

/// One thing that happened on a relay session's connection.
pub enum RelayEvent {
    /// A control message arrived on the text plane.
    Control(RelayMessage),
    /// An opaque binary frame arrived on the data plane.
    Data(Vec<u8>),
    /// The connection ended.
    Disconnected,
}

/// The mathematical shape of a session event.
pub enum RelayEventV {
    Control(RelayMessageV),
    Data(Seq<u8>),
    Disconnected,
}

impl View for RelayEvent {
    type V = RelayEventV;

    open spec fn view(&self) -> RelayEventV {
        match self {
            RelayEvent::Control(m) => RelayEventV::Control(m@),
            RelayEvent::Data(d) => RelayEventV::Data(d@),
            RelayEvent::Disconnected => RelayEventV::Disconnected,
        }
    }
}

/// What the relay must do after a step.
pub enum RelayAction {
    /// Send a control message back on this session's connection.
    Reply(RelayMessage),
    /// Queue a control message to another session, which thereby learns it
    /// was paired.
    Notify(u64, RelayMessage),
    /// Queue an opaque binary frame to the peer session, verbatim and in
    /// arrival order.
    Forward(u64, Vec<u8>),
    /// Close this session's connection.
    Close,
}

/// The mathematical shape of a relay action.
pub enum RelayActionV {
    Reply(RelayMessageV),
    Notify(u64, RelayMessageV),
    Forward(u64, Seq<u8>),
    Close,
}

impl View for RelayAction {
    type V = RelayActionV;

    open spec fn view(&self) -> RelayActionV {
        match self {
            RelayAction::Reply(m) => RelayActionV::Reply(m@),
            RelayAction::Notify(s, m) => RelayActionV::Notify(*s, m@),
            RelayAction::Forward(s, d) => RelayActionV::Forward(*s, d@),
            RelayAction::Close => RelayActionV::Close,
        }
    }
}

/// The reply sent to a same-role duplicate registration.
pub open spec fn dup_role_text() -> Seq<char> {
    "duplicate role"@
}

/// The reply sent when the first control message is not a registration.
pub open spec fn expected_register_text() -> Seq<char> {
    "Expected Register message"@
}

/// What one session step decides: the session's next state, the table after
/// the step, and the actions the relay performs, in order.
pub open spec fn relay_step_spec(
    state: SessionStateV,
    session: u64,
    event: RelayEventV,
    table: Seq<RegistrationV>,
) -> (SessionStateV, Seq<RegistrationV>, Seq<RelayActionV>) {
    match (state, event) {
        (SessionStateV::AwaitRegister, RelayEventV::Control(m)) => match m {
            RelayMessageV::Register { role, code_hash } => {
                if !seq_has(table, code_hash) {
                    (
                        SessionStateV::Waiting { code_hash, role },
                        table.push((RegistrationV { code_hash, role, session })),
                        Seq::empty(),
                    )
                } else if seq_entry(table, code_hash).role != role {
                    (
                        SessionStateV::Matched { peer: seq_entry(table, code_hash).session },
                        table.remove(seq_idx(table, code_hash)),
                        seq![
                            RelayActionV::Reply(RelayMessageV::Matched),
                            RelayActionV::Notify(
                                seq_entry(table, code_hash).session,
                                RelayMessageV::Matched,
                            ),
                        ],
                    )
                } else {
                    (
                        SessionStateV::Closed,
                        table,
                        seq![
                            RelayActionV::Reply(
                                (RelayMessageV::Error { message: dup_role_text() }),
                            ),
                            RelayActionV::Close,
                        ],
                    )
                }
            },
            RelayMessageV::Ping => (
                SessionStateV::AwaitRegister,
                table,
                seq![RelayActionV::Reply(RelayMessageV::Pong)],
            ),
            _ => (
                SessionStateV::Closed,
                table,
                seq![
                    RelayActionV::Reply(
                        (RelayMessageV::Error { message: expected_register_text() }),
                    ),
                    RelayActionV::Close,
                ],
            ),
        },
        (SessionStateV::AwaitRegister, RelayEventV::Data(_)) => (
            SessionStateV::AwaitRegister,
            table,
            Seq::empty(),
        ),
        (SessionStateV::AwaitRegister, RelayEventV::Disconnected) => (
            SessionStateV::Closed,
            table,
            Seq::empty(),
        ),
        (SessionStateV::Waiting { code_hash, role }, RelayEventV::Control(m)) => match m {
            RelayMessageV::Ping => (
                SessionStateV::Waiting { code_hash, role },
                table,
                seq![RelayActionV::Reply(RelayMessageV::Pong)],
            ),
            _ => (SessionStateV::Waiting { code_hash, role }, table, Seq::empty()),
        },
        (SessionStateV::Waiting { code_hash, role }, RelayEventV::Data(_)) => (
            SessionStateV::Waiting { code_hash, role },
            table,
            Seq::empty(),
        ),
        (SessionStateV::Waiting { code_hash, role }, RelayEventV::Disconnected) => (
            SessionStateV::Closed,
            if seq_has(table, code_hash) && seq_entry(table, code_hash).session == session {
                table.remove(seq_idx(table, code_hash))
            } else {
                table
            },
            Seq::empty(),
        ),
        (SessionStateV::Matched { peer }, RelayEventV::Control(m)) => match m {
            RelayMessageV::Ping => (
                SessionStateV::Matched { peer },
                table,
                seq![RelayActionV::Reply(RelayMessageV::Pong)],
            ),
            _ => (SessionStateV::Matched { peer }, table, Seq::empty()),
        },
        (SessionStateV::Matched { peer }, RelayEventV::Data(d)) => (
            SessionStateV::Matched { peer },
            table,
            seq![RelayActionV::Forward(peer, d)],
        ),
        (SessionStateV::Matched { peer }, RelayEventV::Disconnected) => (
            SessionStateV::Closed,
            table,
            Seq::empty(),
        ),
        (SessionStateV::Closed, _) => (SessionStateV::Closed, table, Seq::empty()),
    }
}

/// Drives one relay session by one event: registration consults the table
/// atomically; a match pairs exactly once, notifying each side exactly once;
/// a duplicate role is refused and the original left waiting; matched
/// sessions forward frames verbatim in order; a waiting session's disconnect
/// removes only its own entry.
pub fn relay_step(
    state: SessionState,
    session: u64,
    event: RelayEvent,
    table: &mut PeerTable,
) -> (r: (SessionState, Vec<RelayAction>))
    requires
        old(table).wf(),
    ensures
        final(table).wf(),
        ({
            let (s2, t2, acts) = relay_step_spec(state@, session, event@, old(table)@);
            r.0@ == s2 && final(table)@ == t2 && r.1@.map_values(|a: RelayAction| a@) == acts
        }),
{
    let mut actions: Vec<RelayAction> = Vec::new();
    let next = match (state, event) {
        (SessionState::AwaitRegister, RelayEvent::Control(m)) => match m {
            RelayMessage::Register { role, code_hash } => {
                let ghost h = code_hash@;
                let state_hash = code_hash.clone();
                let outcome = table.register(session, role, code_hash);
                match outcome {
                    RegisterOutcome::Waiting => SessionState::Waiting {
                        code_hash: state_hash,
                        role,
                    },
                    RegisterOutcome::Matched { peer_session } => {
                        actions.push(RelayAction::Reply(RelayMessage::Matched));
                        actions.push(
                            RelayAction::Notify(peer_session, RelayMessage::Matched),
                        );
                        SessionState::Matched { peer: peer_session }
                    },
                    RegisterOutcome::DuplicateRole => {
                        actions.push(
                            RelayAction::Reply(
                                (RelayMessage::Error {
                                    message: String::from_str("duplicate role"),
                                }),
                            ),
                        );
                        actions.push(RelayAction::Close);
                        SessionState::Closed
                    },
                }
            },
            RelayMessage::Ping => {
                actions.push(RelayAction::Reply(RelayMessage::Pong));
                SessionState::AwaitRegister
            },
            _ => {
                actions.push(
                    RelayAction::Reply(
                        (RelayMessage::Error {
                            message: String::from_str("Expected Register message"),
                        }),
                    ),
                );
                actions.push(RelayAction::Close);
                SessionState::Closed
            },
        },
        (SessionState::AwaitRegister, RelayEvent::Data(_)) => SessionState::AwaitRegister,
        (SessionState::AwaitRegister, RelayEvent::Disconnected) => SessionState::Closed,
        (SessionState::Waiting { code_hash, role }, RelayEvent::Control(m)) => match m {
            RelayMessage::Ping => {
                actions.push(RelayAction::Reply(RelayMessage::Pong));
                SessionState::Waiting { code_hash, role }
            },
            _ => SessionState::Waiting { code_hash, role },
        },
        (SessionState::Waiting { code_hash, role }, RelayEvent::Data(_)) => {
            SessionState::Waiting { code_hash, role }
        },
        (SessionState::Waiting { code_hash, role: _ }, RelayEvent::Disconnected) => {
            table.remove_waiting(session, &code_hash);
            SessionState::Closed
        },
        (SessionState::Matched { peer }, RelayEvent::Control(m)) => match m {
            RelayMessage::Ping => {
                actions.push(RelayAction::Reply(RelayMessage::Pong));
                SessionState::Matched { peer }
            },
            _ => SessionState::Matched { peer },
        },
        (SessionState::Matched { peer }, RelayEvent::Data(d)) => {
            actions.push(RelayAction::Forward(peer, d));
            SessionState::Matched { peer }
        },
        (SessionState::Matched { peer: _ }, RelayEvent::Disconnected) => SessionState::Closed,
        (SessionState::Closed, _) => SessionState::Closed,
    };
    proof {
        let (s2, t2, acts) = relay_step_spec(state@, session, event@, old(table)@);
        assert(actions@.map_values(|a: RelayAction| a@) =~= acts);
        assert(table@ =~= t2);
    }
    (next, actions)
}

/// Each successful pairing notifies each side exactly once — the `Matched`
/// reply to the newcomer and one notification to the waiting peer — and
/// removes the table entry, so the same registration can never pair twice.
pub proof fn lemma_pairing_one_shot(session: u64, m: RelayMessageV, table: Seq<RegistrationV>)
    requires
        m matches RelayMessageV::Register { role, code_hash } && seq_has(table, code_hash)
            && seq_entry(table, code_hash).role != role,
        forall|i: int, j: int|
            0 <= i < j < table.len() ==> #[trigger] table[i].code_hash != #[trigger] table[j].code_hash,
    ensures
        ({
            let h = m->Register_code_hash;
            let peer = seq_entry(table, h).session;
            let (s2, t2, acts) = relay_step_spec(
                SessionStateV::AwaitRegister,
                session,
                RelayEventV::Control(m),
                table,
            );
            &&& acts == seq![
                RelayActionV::Reply(RelayMessageV::Matched),
                RelayActionV::Notify(peer, RelayMessageV::Matched),
            ]
            &&& s2 == (SessionStateV::Matched { peer })
            &&& !seq_has(t2, h)
        }),
{
    let h = m->Register_code_hash;
    let k = seq_idx(table, h);
    assert(0 <= k < table.len() && table[k].code_hash == h);
    let t2 = table.remove(k);
    assert forall|a: int| 0 <= a < t2.len() implies #[trigger] t2[a] == if a < k {
        table[a]
    } else {
        table[a + 1]
    } by {}
    assert(!seq_has(t2, h)) by {
        if seq_has(t2, h) {
            let w = choose|i2: int| 0 <= i2 < t2.len() && #[trigger] t2[i2].code_hash == h;
            if w < k {
                assert(table[w].code_hash == table[k].code_hash);
            } else {
                assert(table[w + 1].code_hash == table[k].code_hash);
            }
        }
    }
}

/// The waiting side's transition when its peer registers: the relay fixed
/// the pairing, so the session is matched from here on.
pub fn on_peer_matched(state: SessionState, peer: u64) -> (r: SessionState)
    ensures
        state@ is Waiting ==> r@ == (SessionStateV::Matched { peer }),
        !(state@ is Waiting) ==> r@ == state@,
{
    match state {
        SessionState::Waiting { code_hash: _, role: _ } => SessionState::Matched { peer },
        other => other,
    }
}

} // verus!
