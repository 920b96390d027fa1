//! The per-connection session protocol handler: a state machine that
//! parses inbound frames into commands or chat, tracks liveness through
//! heartbeats, and decides which events to send to the coordinator. The
//! unverified shell owns the wire and the timers; it feeds frames and
//! clock readings in and performs the returned actions.

use crate::coordinator::ClientMessage;
use crate::coordinator::Disconnect;
use crate::coordinator::Join;
use crate::coordinator::Message;
use crate::text::first_space;
use crate::text::lemma_first_space;
use crate::text::find_space;
use crate::text::str_eq;
use crate::text::trim;
use crate::text::trim_spec;
use vstd::prelude::*;
use vstd::string::StrSliceExecFns;
use vstd::string::StringExecFns;

verus! {

/// How often (in time units) a liveness probe is sent to the peer.
pub const HEARTBEAT_INTERVAL: u64 = 5;

/// How long (in time units) the peer may stay silent before the session
/// is closed.
pub const CLIENT_TIMEOUT: u64 = 10;

/// Lifecycle of one session.
pub enum Phase {
    /// Waiting for the coordinator to assign an id.
    Connecting,
    /// Normal operation.
    Active,
    /// Tearing down; no further frames are processed.
    Closing,
    /// Gone; the disconnect notice has been issued.
    Closed,
}

/// One inbound frame, as the transport hands it over.
pub enum Frame {
    /// Liveness probe from the peer, with its payload.
    Ping(Vec<u8>),
    /// Liveness reply from the peer.
    Pong(Vec<u8>),
    /// A text frame.
    Text(String),
    /// A binary frame: accepted but not decoded.
    Binary(Vec<u8>),
    /// The peer closed the connection.
    Close,
    /// A continuation frame: a protocol error that ends the session.
    Continuation,
    /// Nothing to do.
    Nop,
    /// A transport-level read error: ends the session.
    Invalid,
}

/// What the shell must do after a session step, in order.
pub enum Action {
    /// Write this line to the session's own connection.
    Reply(Message),
    /// Send a liveness reply carrying the probe's payload.
    Pong(Vec<u8>),
    /// Send a liveness probe to the peer.
    Probe,
    /// Forward a chat line to the coordinator (fire and forget).
    SendChat(ClientMessage),
    /// Forward a join request to the coordinator (fire and forget).
    SendJoin(Join),
    /// Ask the coordinator for the room list and block this session's
    /// inbound processing until the reply is in (see `rooms_reply`).
    RequestRooms,
    /// Tell the coordinator this session is gone.
    SendDisconnect(Disconnect),
    /// Close the connection and stop the session.
    Stop,
}

/// One connection's protocol state.
pub struct SessionState {
    /// The id the coordinator assigned (0 until registration completes).
    pub id: u64,
    /// Where in its lifecycle the session stands.
    pub phase: Phase,
    /// The session's own record of the room it occupies.
    pub room: String,
    /// Display name, unset until the client picks one.
    pub name: Option<String>,
    /// Time (in time units) of the last liveness sign from the peer.
    pub hb: u64,
    /// Whether the disconnect notice has already been issued.
    pub notified: bool,
}

/// The command word of a trimmed text line: everything before the first
/// space (the whole line when it has no space).
pub open spec fn cmd_of(m: Seq<char>) -> Seq<char> {
    m.subrange(0, first_space(m))
}

/// The argument of a trimmed text line: everything after the first space,
/// or nothing when the line has no space.
pub open spec fn arg_of(m: Seq<char>) -> Option<Seq<char>> {
    if first_space(m) < m.len() {
        Some(m.subrange(first_space(m) + 1, m.len() as int))
    } else {
        None
    }
}

/// The chat line forwarded to the room: the trimmed text, prefixed with
/// `"<name>: "` when a display name is set.
pub open spec fn chat_text(name: Option<String>, m: Seq<char>) -> Seq<char> {
    match name {
        Some(n) => n@ + ": "@ + m,
        None => m,
    }
}

/// What one text frame does: commands start with `/`; anything else is
/// chat. Only `/join` and `/name` change the session's state.
pub open spec fn text_post(
    pre: SessionState,
    post: SessionState,
    t: Seq<char>,
    acts: Seq<Action>,
) -> bool {
    let m = trim_spec(t);
    if m.len() > 0 && m[0] == '/' {
        let c = cmd_of(m);
        if c == "/list"@ {
            &&& post == pre
            &&& acts.len() == 1
            &&& acts[0] is RequestRooms
        } else if c == "/join"@ {
            match arg_of(m) {
                Some(a) => {
                    &&& post.room@ == a
                    &&& post.name == pre.name
                    &&& acts.len() == 2
                    &&& acts[0] matches Action::SendJoin(j) && j.id == pre.id && j.name@ == a
                    &&& acts[1] matches Action::Reply(msg) && msg.0@ == "joined"@
                },
                None => {
                    &&& post == pre
                    &&& acts.len() == 1
                    &&& acts[0] matches Action::Reply(msg) && msg.0@
                        == "!!! room name is required"@
                },
            }
        } else if c == "/name"@ {
            match arg_of(m) {
                Some(a) => {
                    &&& post.room == pre.room
                    &&& post.name matches Some(n) && n@ == a
                    &&& acts.len() == 0
                },
                None => {
                    &&& post == pre
                    &&& acts.len() == 1
                    &&& acts[0] matches Action::Reply(msg) && msg.0@ == "!!! name is required"@
                },
            }
        } else {
            &&& post == pre
            &&& acts.len() == 1
            &&& acts[0] matches Action::Reply(msg) && msg.0@ == "!!! unknown command: \""@ + m
                + "\""@
        }
    } else {
        &&& post == pre
        &&& acts.len() == 1
        &&& acts[0] matches Action::SendChat(cm) && cm.id == pre.id && cm.room@ == pre.room@
            && cm.msg@ == chat_text(pre.name, m)
    }
}

/// What one frame does to the session.
pub open spec fn frame_post(
    pre: SessionState,
    post: SessionState,
    frame: Frame,
    now: u64,
    acts: Seq<Action>,
) -> bool {
    match frame {
        Frame::Ping(payload) => {
            &&& post == SessionState { hb: now, ..pre }
            &&& acts.len() == 1
            &&& acts[0] matches Action::Pong(p) && p@ == payload@
        },
        Frame::Pong(_) => {
            &&& post == SessionState { hb: now, ..pre }
            &&& acts.len() == 0
        },
        Frame::Text(t) => {
            &&& text_post(pre, post, t@, acts)
            &&& post.id == pre.id
            &&& post.phase == pre.phase
            &&& post.hb == pre.hb
            &&& post.notified == pre.notified
        },
        Frame::Binary(_) => post == pre && acts.len() == 0,
        Frame::Close => {
            &&& post == SessionState { phase: Phase::Closing, ..pre }
            &&& acts.len() == 1
            &&& acts[0] is Stop
        },
        Frame::Continuation => {
            &&& post == SessionState { phase: Phase::Closing, ..pre }
            &&& acts.len() == 1
            &&& acts[0] is Stop
        },
        Frame::Nop => post == pre && acts.len() == 0,
        Frame::Invalid => {
            &&& post == SessionState { phase: Phase::Closing, ..pre }
            &&& acts.len() == 1
            &&& acts[0] is Stop
        },
    }
}

impl SessionState {
    /// A session that just accepted a connection at time `now`: not yet
    /// registered, sitting in the default room, no display name.
    pub fn new(now: u64) -> (s: SessionState)
        ensures
            s.phase is Connecting,
            s.id == 0,
            s.room@ == "Main"@,
            s.name is None,
            s.hb == now,
            !s.notified,
    {
        SessionState {
            id: 0,
            phase: Phase::Connecting,
            room: String::from_str("Main"),
            name: None,
            hb: now,
            notified: false,
        }
    }

    /// The registration outcome arrives: the assigned id activates the
    /// session; a failed registration closes it (fatal to this session
    /// only). Returns whether the session goes on.
    pub fn on_registered(&mut self, res: Option<u64>) -> (ok: bool)
        requires
            old(self).phase is Connecting,
        ensures
            match res {
                Some(id) => {
                    &&& *final(self) == SessionState { id, phase: Phase::Active, ..*old(self) }
                    &&& ok
                },
                None => {
                    &&& *final(self) == SessionState { phase: Phase::Closing, ..*old(self) }
                    &&& !ok
                },
            },
    {
        match res {
            Some(id) => {
                self.id = id;
                self.phase = Phase::Active;
                true
            },
            None => {
                self.phase = Phase::Closing;
                false
            },
        }
    }

    /// One inbound frame during normal operation.
    pub fn handle_frame(&mut self, frame: Frame, now: u64) -> (acts: Vec<Action>)
        requires
            old(self).phase is Active,
        ensures
            frame_post(*old(self), *final(self), frame, now, acts@),
    {
        match frame {
            Frame::Ping(payload) => {
                self.hb = now;
                let mut acts: Vec<Action> = Vec::new();
                acts.push(Action::Pong(payload));
                acts
            },
            Frame::Pong(_) => {
                self.hb = now;
                Vec::new()
            },
            Frame::Text(t) => self.handle_text(t.as_str()),
            Frame::Binary(_) => Vec::new(),
            Frame::Close => {
                self.phase = Phase::Closing;
                let mut acts: Vec<Action> = Vec::new();
                acts.push(Action::Stop);
                acts
            },
            Frame::Continuation => {
                self.phase = Phase::Closing;
                let mut acts: Vec<Action> = Vec::new();
                acts.push(Action::Stop);
                acts
            },
            Frame::Nop => Vec::new(),
            Frame::Invalid => {
                self.phase = Phase::Closing;
                let mut acts: Vec<Action> = Vec::new();
                acts.push(Action::Stop);
                acts
            },
        }
    }

    /// One text frame: trim it, then interpret a leading `/` as a command
    /// and anything else as chat for the session's current room.
    pub fn handle_text(&mut self, text: &str) -> (acts: Vec<Action>)
        ensures
            text_post(*old(self), *final(self), text@, acts@),
            final(self).id == old(self).id,
            final(self).phase == old(self).phase,
            final(self).hb == old(self).hb,
            final(self).notified == old(self).notified,
    {
        let m = trim(text);
        let n = m.unicode_len();
        let mut acts: Vec<Action> = Vec::new();
        if n > 0 && m.get_char(0) == '/' {
            let fs = find_space(m);
            proof {
                lemma_first_space(m@);
            }
            let cmd = m.substring_char(0, fs);
            if str_eq(cmd, "/list") {
                acts.push(Action::RequestRooms);
            } else if str_eq(cmd, "/join") {
                if fs < n {
                    let a = m.substring_char(fs + 1, n);
                    self.room = String::from_str(a);
                    acts.push(Action::SendJoin(Join { id: self.id, name: self.room.clone() }));
                    acts.push(Action::Reply(Message(String::from_str("joined"))));
                } else {
                    acts.push(
                        Action::Reply(Message(String::from_str("!!! room name is required"))),
                    );
                }
            } else if str_eq(cmd, "/name") {
                if fs < n {
                    let a = m.substring_char(fs + 1, n);
                    self.name = Some(String::from_str(a));
                } else {
                    acts.push(Action::Reply(Message(String::from_str("!!! name is required"))));
                }
            } else {
                let mut t = String::from_str("!!! unknown command: \"");
                t.append(m);
                t.append("\"");
                acts.push(Action::Reply(Message(t)));
            }
        } else {
            let out = match &self.name {
                Some(nm) => {
                    let mut t = nm.clone();
                    t.append(": ");
                    t.append(m);
                    t
                },
                None => String::from_str(m),
            };
            acts.push(
                Action::SendChat(ClientMessage { id: self.id, msg: out, room: self.room.clone() }),
            );
        }
        acts
    }

    /// One heartbeat tick at time `now`: a peer silent for longer than the
    /// timeout gets the session closed (with the disconnect notice issued
    /// here, once); otherwise a probe goes out.
    pub fn heartbeat(&mut self, now: u64) -> (acts: Vec<Action>)
        requires
            old(self).phase is Active,
            old(self).hb <= now,
        ensures
            if now - old(self).hb > CLIENT_TIMEOUT {
                &&& *final(self) == SessionState {
                    phase: Phase::Closing,
                    notified: true,
                    ..*old(self)
                }
                &&& acts@.len() == 2
                &&& acts@[0] matches Action::SendDisconnect(d) && d.id == old(self).id
                &&& acts@[1] is Stop
            } else {
                &&& *final(self) == *old(self)
                &&& acts@.len() == 1
                &&& acts@[0] is Probe
            },
    {
        let mut acts: Vec<Action> = Vec::new();
        if now - self.hb > CLIENT_TIMEOUT {
            self.phase = Phase::Closing;
            self.notified = true;
            acts.push(Action::SendDisconnect(Disconnect { id: self.id }));
            acts.push(Action::Stop);
        } else {
            acts.push(Action::Probe);
        }
        acts
    }

    /// The coordinator's reply to `/list`: one line per room name, in the
    /// order the coordinator gave them.
    pub fn rooms_reply(&self, rooms: Vec<String>) -> (acts: Vec<Action>)
        ensures
            acts@.len() == rooms@.len(),
            forall|k: int|
                0 <= k < rooms@.len() ==> (#[trigger] acts@[k] matches Action::Reply(msg)
                    && msg.0@ == rooms@[k]@),
    {
        let mut acts: Vec<Action> = Vec::new();
        let mut i: usize = 0;
        while i < rooms.len()
            invariant
                0 <= i <= rooms@.len(),
                acts@.len() == i,
                forall|k: int|
                    0 <= k < i ==> (#[trigger] acts@[k] matches Action::Reply(msg) && msg.0@
                        == rooms@[k]@),
            decreases rooms@.len() - i,
        {
            acts.push(Action::Reply(Message(rooms[i].clone())));
            i = i + 1;
        }
        acts
    }

    /// Teardown: issue the disconnect notice exactly once, whichever path
    /// (close frame, protocol error, heartbeat timeout, forced stop) got
    /// the session here. A second call is a no-op.
    pub fn on_stopping(&mut self) -> (d: Option<Disconnect>)
        ensures
            final(self).phase is Closed,
            final(self).notified,
            final(self).id == old(self).id,
            final(self).room == old(self).room,
            final(self).name == old(self).name,
            final(self).hb == old(self).hb,
            match d {
                Some(dd) => !old(self).notified && dd.id == old(self).id,
                None => old(self).notified,
            },
    {
        self.phase = Phase::Closed;
        if self.notified {
            None
        } else {
            self.notified = true;
            Some(Disconnect { id: self.id })
        }
    }
}

} // verus!
