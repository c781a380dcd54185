//! Connections and the broker's decisions. Each operation takes the
//! registry and a connection, updates them, and returns the frames that
//! the transport must deliver; the transport performs them.
//!
//! Channel teardown: a channel is erased from the registry as soon as it
//! has neither a primary nor a member, that is when its last participant
//! leaves. Nothing else erases it.
use vstd::prelude::*;
use crate::channel::{ChannelState, ids, member_map, lemma_member_map_at, texts};
use crate::params::JoinError;
use crate::protocol::{
    Command, FrameError, decode_frame, frame_fields, error_text, json_array,
    whois_text, ack_text, secondary_ack_text, list_reply, whois_reply, ack_reply,
    secondary_ack_reply, lemma_command_names_distinct,
};
use crate::registry::{Registry, fresh_channel};

verus! {

/// How a connection takes part in its channel.
#[derive(PartialEq, Eq, Structural, Clone, Copy, Debug)]
pub enum Role {
    /// A member of a symmetric channel.
    Member,
    /// The primary of an asymmetric channel; the channel bears its identity.
    Primary,
    /// A secondary attached to a primary's channel.
    Secondary,
}

/// The lifecycle of a connection after its join succeeded.
#[derive(PartialEq, Eq, Structural, Clone, Copy, Debug)]
pub enum ConnState {
    /// Command frames are processed.
    Active,
    /// Shutting down: no frame is processed, deliveries still are.
    Closing,
    /// Terminal; the connection has left its channel.
    Closed,
}

/// What a connection is.
pub struct ConnView {
    pub id: u64,
    pub identity: Seq<char>,
    pub channel: Seq<char>,
    pub role: Role,
    pub state: ConnState,
}

/// One live session: its transport handle, the identity and channel it
/// joined, its role and its lifecycle state.
pub struct Connection {
    id: u64,
    identity: String,
    channel: String,
    role: Role,
    state: ConnState,
}

impl View for Connection {
    type V = ConnView;

    closed spec fn view(&self) -> ConnView {
        ConnView {
            id: self.id,
            identity: self.identity@,
            channel: self.channel@,
            role: self.role,
            state: self.state,
        }
    }
}

impl Connection {
    pub fn id(&self) -> (r: u64)
        ensures
            r == self@.id,
    {
        self.id
    }

    pub fn identity(&self) -> (r: &String)
        ensures
            r@ == self@.identity,
    {
        &self.identity
    }

    pub fn channel(&self) -> (r: &String)
        ensures
            r@ == self@.channel,
    {
        &self.channel
    }

    pub fn role(&self) -> (r: Role)
        ensures
            r == self@.role,
    {
        self.role
    }

    pub fn state(&self) -> (r: ConnState)
        ensures
            r == self@.state,
    {
        self.state
    }

    /// Enters `Closing` on a close frame or a local shutdown; from then on
    /// frames are ignored. The connection stays registered until `close`.
    pub fn begin_close(&mut self)
        ensures
            final(self)@ == (ConnView {
                state: if old(self)@.state == ConnState::Active {
                    ConnState::Closing
                } else {
                    old(self)@.state
                },
                ..old(self)@
            }),
    {
        if self.state == ConnState::Active {
            self.state = ConnState::Closing;
        }
    }
}

/// A frame for the transport to deliver.
pub enum Outbound {
    /// A text frame for connection `to`.
    Text { to: u64, text: String },
    /// A close of connection `to` with a reason.
    Close { to: u64, reason: String },
}

/// What a frame for the transport is.
pub enum Delivery {
    Text { to: u64, text: Seq<char> },
    Close { to: u64, reason: Seq<char> },
}

impl View for Outbound {
    type V = Delivery;

    open spec fn view(&self) -> Delivery {
        match self {
            Outbound::Text { to, text } => Delivery::Text { to: *to, text: text@ },
            Outbound::Close { to, reason } => Delivery::Close { to: *to, reason: reason@ },
        }
    }
}

/// The views of a sequence of outbound frames.
pub open spec fn deliveries(v: Seq<Outbound>) -> Seq<Delivery> {
    v.map_values(|o: Outbound| o@)
}

/// The reason sent to a connection whose identity was claimed anew.
pub open spec fn replaced_reason() -> Seq<char> {
    "Replaced by new connection"@
}

/// The channel `name` as a join finds it: the existing one, or a new one.
pub open spec fn base(reg: Map<Seq<char>, ChannelState>, name: Seq<char>) -> ChannelState {
    if reg.contains_key(name) {
        reg[name]
    } else {
        fresh_channel(name, None)
    }
}

/// The table after `conn` joined channel `name` as member `identity`.
pub open spec fn with_member(
    reg: Map<Seq<char>, ChannelState>,
    name: Seq<char>,
    identity: Seq<char>,
    conn: u64,
) -> Map<Seq<char>, ChannelState> {
    reg.insert(
        name,
        ChannelState { members: base(reg, name).members.insert(identity, conn), ..base(reg, name) },
    )
}

/// The table after `conn` became the primary of channel `name`.
pub open spec fn with_primary(reg: Map<Seq<char>, ChannelState>, name: Seq<char>, conn: u64) -> Map<
    Seq<char>,
    ChannelState,
> {
    reg.insert(name, ChannelState { primary: Some(conn), ..base(reg, name) })
}

/// The frames of a successful join: the forced close of the connection it
/// replaces, if any, then the acknowledgment.
pub open spec fn join_frames(prior: Option<u64>, conn: u64, ack: Seq<char>) -> Seq<Delivery> {
    match prior {
        Some(p) => seq![
            Delivery::Close { to: p, reason: replaced_reason() },
            Delivery::Text { to: conn, text: ack },
        ],
        None => seq![Delivery::Text { to: conn, text: ack }],
    }
}

/// The connection that held `identity` in channel `name`, if any.
pub open spec fn member_holder(reg: Map<Seq<char>, ChannelState>, name: Seq<char>, identity: Seq<char>) -> Option<u64> {
    if base(reg, name).members.contains_key(identity) {
        Some(base(reg, name).members[identity])
    } else {
        None
    }
}

/// Whether the connection is the one registered in its channel.
pub open spec fn holds(reg: Map<Seq<char>, ChannelState>, c: ConnView) -> bool {
    &&& reg.contains_key(c.channel)
    &&& if c.role == Role::Primary {
        reg[c.channel].primary == Some(c.id)
    } else {
        reg[c.channel].members.contains_key(c.identity) && reg[c.channel].members[c.identity] == c.id
    }
}

/// The channel once the connection left it.
pub open spec fn vacated(ch: ChannelState, c: ConnView) -> ChannelState {
    if c.role == Role::Primary {
        ChannelState { primary: None, ..ch }
    } else {
        ChannelState { members: ch.members.remove(c.identity), ..ch }
    }
}

/// A channel with neither primary nor member.
pub open spec fn is_vacant(ch: ChannelState) -> bool {
    ch.primary is None && ch.members.dom().len() == 0
}

/// The table once the connection left: it leaves only while it is the
/// registered one, and a channel left vacant is erased.
pub open spec fn without(reg: Map<Seq<char>, ChannelState>, c: ConnView) -> Map<Seq<char>, ChannelState> {
    if holds(reg, c) {
        if is_vacant(vacated(reg[c.channel], c)) {
            reg.remove(c.channel)
        } else {
            reg.insert(c.channel, vacated(reg[c.channel], c))
        }
    } else {
        reg
    }
}

/// `outs` sends `msg` once to each member: one frame per identity, to the
/// connection registered under it, in some order.
pub open spec fn fan_out(members: Map<Seq<char>, u64>, msg: Seq<char>, outs: Seq<Delivery>) -> bool {
    exists|order: Seq<Seq<char>>|
        {
            &&& order.no_duplicates()
            &&& order.to_set() == members.dom()
            &&& outs.len() == order.len()
            &&& forall|k: int|
                0 <= k < outs.len() ==> #[trigger] outs[k] == (Delivery::Text {
                    to: members[order[k]],
                    text: msg,
                })
        }
}

/// `outs` is the reply to `list`: one frame to `to` holding the JSON array
/// of the member identities, each once, in some order.
pub open spec fn list_frame(members: Map<Seq<char>, u64>, to: u64, outs: Seq<Delivery>) -> bool {
    exists|order: Seq<Seq<char>>|
        {
            &&& order.no_duplicates()
            &&& order.to_set() == members.dom()
            &&& outs == seq![Delivery::Text { to, text: json_array(order) }]
        }
}

/// One reply frame to the sender.
pub open spec fn reply(c: ConnView, text: Seq<char>) -> Seq<Delivery> {
    seq![Delivery::Text { to: c.id, text }]
}

/// The frames owed for a decoded frame from connection `c`. Frames are
/// processed only from an active connection that is still registered.
/// Secondaries may only broadcast.
pub open spec fn frame_response(
    reg: Map<Seq<char>, ChannelState>,
    c: ConnView,
    fields: Option<(Option<Seq<char>>, Option<Seq<char>>)>,
    outs: Seq<Delivery>,
) -> bool {
    if !(c.state == ConnState::Active && holds(reg, c)) {
        outs.len() == 0
    } else {
        match fields {
            None => outs == reply(c, error_text(FrameError::InvalidJson)),
            Some((None, _)) => outs == reply(c, error_text(FrameError::InvalidCommandFormat)),
            Some((Some(cmd), msg)) => if cmd == "list"@ && c.role != Role::Secondary {
                list_frame(reg[c.channel].members, c.id, outs)
            } else if cmd == "whois"@ && c.role != Role::Secondary {
                outs == reply(c, whois_text(c.identity))
            } else if cmd == "broadcast"@ {
                match msg {
                    Some(m) => fan_out(reg[c.channel].members, m, outs),
                    None => outs.len() == 0,
                }
            } else {
                outs == reply(c, error_text(FrameError::UnknownCommand))
            },
        }
    }
}

/// A successful join: the new connection and the frames to deliver.
pub struct Joined {
    pub connection: Connection,
    pub outbound: Vec<Outbound>,
}

fn new_connection(id: u64, identity: &str, channel: &str, role: Role) -> (r: Connection)
    ensures
        r@ == (ConnView {
            id,
            identity: identity@,
            channel: channel@,
            role,
            state: ConnState::Active,
        }),
{
    Connection {
        id,
        identity: identity.to_owned(),
        channel: channel.to_owned(),
        role,
        state: ConnState::Active,
    }
}

fn join_outbound(prior: Option<u64>, conn: u64, ack: String) -> (r: Vec<Outbound>)
    ensures
        deliveries(r@) == join_frames(prior, conn, ack@),
{
    let mut r: Vec<Outbound> = Vec::new();
    match prior {
        Some(p) => {
            r.push(Outbound::Close { to: p, reason: "Replaced by new connection".to_owned() });
        },
        None => {},
    }
    r.push(Outbound::Text { to: conn, text: ack });
    assert(deliveries(r@) =~= join_frames(prior, conn, ack@));
    r
}

impl Registry {
    /// Joins connection `conn` to the symmetric channel `channel` as
    /// `identity`, creating the channel on first join. A connection that
    /// held `identity` there is replaced and sent a forced close.
    pub fn join(&mut self, channel: &str, identity: &str, conn: u64) -> (r: Result<Joined, JoinError>)
        requires
            old(self).wf(),
        ensures
            final(self).wf(),
            channel@.len() == 0 ==> (r matches Err(JoinError::MissingParameter(p)) && p@
                == "channel"@),
            channel@.len() > 0 && identity@.len() == 0 ==> (r matches Err(
                JoinError::MissingParameter(p),
            ) && p@ == "id"@),
            r is Err ==> final(self)@ == old(self)@,
            channel@.len() > 0 && identity@.len() > 0 ==> (r matches Ok(j) && j.connection@ == (
            ConnView {
                id: conn,
                identity: identity@,
                channel: channel@,
                role: Role::Member,
                state: ConnState::Active,
            }) && deliveries(j.outbound@) == join_frames(
                member_holder(old(self)@, channel@, identity@),
                conn,
                ack_text(identity@, channel@),
            ) && final(self)@ == with_member(old(self)@, channel@, identity@, conn)),
    {
        if channel.is_empty() {
            return Err(JoinError::MissingParameter("channel".to_owned()));
        }
        if identity.is_empty() {
            return Err(JoinError::MissingParameter("id".to_owned()));
        }
        self.resolve_or_create(channel, None);
        let prior = self.add_member(channel, identity, conn);
        let ack = ack_reply(identity, channel);
        let outbound = join_outbound(prior, conn, ack);
        Ok(Joined { connection: new_connection(conn, identity, channel, Role::Member), outbound })
    }

    /// Joins connection `conn` as the primary `identity` of the
    /// asymmetric channel that bears its name, creating the channel if
    /// needed. A previous primary is replaced and sent a forced close; the
    /// secondaries stay.
    pub fn join_primary(&mut self, identity: &str, conn: u64) -> (r: Result<Joined, JoinError>)
        requires
            old(self).wf(),
        ensures
            final(self).wf(),
            identity@.len() == 0 ==> (r matches Err(JoinError::MissingParameter(p)) && p@ == "id"@
                && final(self)@ == old(self)@),
            identity@.len() > 0 ==> (r matches Ok(j) && j.connection@ == (ConnView {
                id: conn,
                identity: identity@,
                channel: identity@,
                role: Role::Primary,
                state: ConnState::Active,
            }) && deliveries(j.outbound@) == join_frames(
                base(old(self)@, identity@).primary,
                conn,
                ack_text(identity@, identity@),
            ) && final(self)@ == with_primary(old(self)@, identity@, conn)),
    {
        if identity.is_empty() {
            return Err(JoinError::MissingParameter("id".to_owned()));
        }
        self.resolve_or_create(identity, None);
        let prior = self.set_primary(identity, Some(conn));
        let ack = ack_reply(identity, identity);
        let outbound = join_outbound(prior, conn, ack);
        Ok(Joined { connection: new_connection(conn, identity, identity, Role::Primary), outbound })
    }

    /// Joins connection `conn` as secondary `identity` to the channel of
    /// the primary `primary`, which must be connected: otherwise the join
    /// is refused with `ChannelNotFound` and nothing changes. A connection
    /// that held `identity` there is replaced and sent a forced close.
    pub fn join_secondary(&mut self, primary: &str, identity: &str, conn: u64) -> (r: Result<
        Joined,
        JoinError,
    >)
        requires
            old(self).wf(),
        ensures
            final(self).wf(),
            identity@.len() == 0 ==> (r matches Err(JoinError::MissingParameter(p)) && p@ == "id"@),
            identity@.len() > 0 && primary@.len() == 0 ==> (r matches Err(
                JoinError::MissingParameter(p),
            ) && p@ == "streamer_id"@),
            identity@.len() > 0 && primary@.len() > 0 && !(old(self)@.contains_key(primary@)
                && old(self)@[primary@].primary is Some) ==> r matches Err(
                JoinError::ChannelNotFound,
            ),
            r is Err ==> final(self)@ == old(self)@,
            identity@.len() > 0 && primary@.len() > 0 && old(self)@.contains_key(primary@)
                && old(self)@[primary@].primary is Some ==> (r matches Ok(j) && j.connection@ == (
            ConnView {
                id: conn,
                identity: identity@,
                channel: primary@,
                role: Role::Secondary,
                state: ConnState::Active,
            }) && deliveries(j.outbound@) == join_frames(
                member_holder(old(self)@, primary@, identity@),
                conn,
                secondary_ack_text(identity@, primary@),
            ) && final(self)@ == with_member(old(self)@, primary@, identity@, conn)),
    {
        if identity.is_empty() {
            return Err(JoinError::MissingParameter("id".to_owned()));
        }
        if primary.is_empty() {
            return Err(JoinError::MissingParameter("streamer_id".to_owned()));
        }
        let live = match self.lookup(primary) {
            Some(ch) => ch.primary().is_some(),
            None => false,
        };
        if !live {
            return Err(JoinError::ChannelNotFound);
        }
        let prior = self.add_member(primary, identity, conn);
        let ack = secondary_ack_reply(identity, primary);
        let outbound = join_outbound(prior, conn, ack);
        Ok(
            Joined {
                connection: new_connection(conn, identity, primary, Role::Secondary),
                outbound,
            },
        )
    }

    /// Whether `conn` is the connection registered for its role in its
    /// channel.
    pub fn is_registered(&self, conn: &Connection) -> (r: bool)
        requires
            self.wf(),
        ensures
            r == holds(self@, conn@),
    {
        match self.lookup(conn.channel.as_str()) {
            Some(ch) => {
                if conn.role == Role::Primary {
                    match ch.primary() {
                        Some(p) => p == conn.id,
                        None => false,
                    }
                } else {
                    match ch.holder(conn.identity.as_str()) {
                        Some(h) => h == conn.id,
                        None => false,
                    }
                }
            },
            None => false,
        }
    }

    /// Sends `msg` to every member of channel `name` at this instant; a
    /// channel that does not exist has no one to send to.
    pub fn broadcast(&self, name: &str, msg: &str) -> (r: Vec<Outbound>)
        requires
            self.wf(),
        ensures
            self@.contains_key(name@) ==> fan_out(self@[name@].members, msg@, deliveries(r@)),
            !self@.contains_key(name@) ==> r@.len() == 0,
    {
        let ch = match self.lookup(name) {
            Some(ch) => ch,
            None => {
                return Vec::new();
            },
        };
        let msg = msg.to_owned();
        let snap = ch.snapshot();
        let mut r: Vec<Outbound> = Vec::new();
        let mut i: usize = 0;
        while i < snap.len()
            invariant
                i <= snap@.len(),
                r@.len() == i,
                forall|k: int|
                    0 <= k < i ==> #[trigger] r@[k]@ == (Delivery::Text {
                        to: snap@[k].conn,
                        text: msg@,
                    }),
            decreases snap@.len() - i,
        {
            r.push(Outbound::Text { to: snap[i].conn, text: msg.clone() });
            i = i + 1;
        }
        proof {
            let order = ids(snap@);
            vstd::seq_lib::seq_to_set_is_finite(order);
            assert(order.to_set() =~= member_map(snap@).dom());
            assert forall|k: int| 0 <= k < r@.len() implies #[trigger] deliveries(r@)[k]
                == (Delivery::Text { to: member_map(snap@)[order[k]], text: msg@ }) by {
                lemma_member_map_at(snap@, k);
                assert(deliveries(r@)[k] == r@[k]@);
            }
            assert(fan_out(self@[name@].members, msg@, deliveries(r@)));
        }
        r
    }

    /// Answers `list` with the identities of channel `name`.
    fn list_frames(&self, name: &str, to: u64) -> (r: Vec<Outbound>)
        requires
            self.wf(),
            self@.contains_key(name@),
        ensures
            list_frame(self@[name@].members, to, deliveries(r@)),
    {
        let ch = self.lookup(name).unwrap();
        let items = ch.list_members();
        let text = list_reply(&items);
        let mut r: Vec<Outbound> = Vec::new();
        r.push(Outbound::Text { to, text });
        proof {
            let order = texts(items@);
            assert(deliveries(r@) =~= seq![Delivery::Text { to, text: json_array(order) }]);
        }
        r
    }

    /// Processes one inbound text frame of `conn`, returning the frames to
    /// deliver. A bad frame is answered with an error reply; the session
    /// stays open either way.
    pub fn handle_frame(&self, conn: &Connection, text: &str) -> (r: Vec<Outbound>)
        requires
            self.wf(),
        ensures
            frame_response(self@, conn@, frame_fields(text@), deliveries(r@)),
    {
        let mut r: Vec<Outbound> = Vec::new();
        if conn.state != ConnState::Active || !self.is_registered(conn) {
            return r;
        }
        let decoded = decode_frame(text);
        proof {
            lemma_command_names_distinct();
        }
        let secondary = conn.role == Role::Secondary;
        match decoded {
            Err(e) => {
                r.push(Outbound::Text { to: conn.id, text: e.reply() });
                assert(deliveries(r@) =~= reply(conn@, error_text(e)));
            },
            Ok(Command::List) => {
                if secondary {
                    r.push(Outbound::Text { to: conn.id, text: FrameError::UnknownCommand.reply() });
                    assert(deliveries(r@) =~= reply(conn@, error_text(FrameError::UnknownCommand)));
                } else {
                    r = self.list_frames(conn.channel.as_str(), conn.id);
                }
            },
            Ok(Command::Whois) => {
                if secondary {
                    r.push(Outbound::Text { to: conn.id, text: FrameError::UnknownCommand.reply() });
                    assert(deliveries(r@) =~= reply(conn@, error_text(FrameError::UnknownCommand)));
                } else {
                    r.push(Outbound::Text { to: conn.id, text: whois_reply(conn.identity.as_str()) });
                    assert(deliveries(r@) =~= reply(conn@, whois_text(conn@.identity)));
                }
            },
            Ok(Command::Broadcast(None)) => {
                assert(deliveries(r@) =~= Seq::<Delivery>::empty());
            },
            Ok(Command::Broadcast(Some(m))) => {
                r = self.broadcast(conn.channel.as_str(), m.as_str());
            },
        }
        r
    }

    /// Closes `conn`: it leaves its channel if it is still the registered
    /// connection there, a channel left vacant is erased, and the
    /// connection becomes `Closed`. Closing a closed connection does
    /// nothing. Returns whether the connection left its channel.
    pub fn close(&mut self, conn: &mut Connection) -> (left: bool)
        requires
            old(self).wf(),
        ensures
            final(self).wf(),
            final(conn)@ == (ConnView { state: ConnState::Closed, ..old(conn)@ }),
            left == (old(conn)@.state != ConnState::Closed && holds(old(self)@, old(conn)@)),
            final(self)@ == if old(conn)@.state == ConnState::Closed {
                old(self)@
            } else {
                without(old(self)@, old(conn)@)
            },
    {
        if conn.state == ConnState::Closed {
            return false;
        }
        conn.state = ConnState::Closed;
        let left = self.is_registered(conn);
        if !left {
            return false;
        }
        let name = conn.channel.as_str();
        if conn.role == Role::Primary {
            self.set_primary(name, None);
        } else {
            self.release(name, conn.identity.as_str(), conn.id);
        }
        let vacant = match self.lookup(name) {
            Some(ch) => ch.primary().is_none() && ch.member_count() == 0,
            None => false,
        };
        if vacant {
            self.erase(name);
        }
        left
    }
}

/// After `conn` joins channel `name` as member or secondary `identity`,
/// it is the one connection registered under `identity` there: any other
/// connection that held that identity is no longer registered.
pub proof fn join_leaves_one_holder(
    reg: Map<Seq<char>, ChannelState>,
    name: Seq<char>,
    identity: Seq<char>,
    conn: u64,
    c: ConnView,
)
    requires
        c.channel == name,
        c.identity == identity,
        c.role != Role::Primary,
    ensures
        holds(with_member(reg, name, identity, conn), c) <==> c.id == conn,
{
}

/// After `conn` joins as primary `name`, it is the one primary of the
/// channel `name`.
pub proof fn join_leaves_one_primary(reg: Map<Seq<char>, ChannelState>, name: Seq<char>, conn: u64, c: ConnView)
    requires
        c.channel == name,
        c.role == Role::Primary,
    ensures
        holds(with_primary(reg, name, conn), c) <==> c.id == conn,
{
}

/// A fan-out reaches every member once and no one else: each frame goes
/// to the connection of some member, each member gets a frame, and there
/// are as many frames as members.
pub proof fn fan_out_reaches_members(members: Map<Seq<char>, u64>, msg: Seq<char>, outs: Seq<Delivery>)
    requires
        fan_out(members, msg, outs),
    ensures
        outs.len() == members.dom().len(),
        forall|k: int|
            #![trigger outs[k]]
            0 <= k < outs.len() ==> exists|id: Seq<char>|
                members.contains_key(id) && outs[k] == (Delivery::Text { to: #[trigger] members[id], text: msg }),
        forall|id: Seq<char>|
            #[trigger] members.contains_key(id) ==> exists|k: int|
                0 <= k < outs.len() && outs[k] == (Delivery::Text { to: members[id], text: msg }),
{
    let order = choose|order: Seq<Seq<char>>|
        {
            &&& order.no_duplicates()
            &&& order.to_set() == members.dom()
            &&& outs.len() == order.len()
            &&& forall|k: int|
                0 <= k < outs.len() ==> #[trigger] outs[k] == (Delivery::Text {
                    to: members[order[k]],
                    text: msg,
                })
        };
    order.unique_seq_to_set();
    assert forall|k: int| #![trigger outs[k]] 0 <= k < outs.len() implies exists|id: Seq<char>|
        members.contains_key(id) && outs[k] == (Delivery::Text { to: #[trigger] members[id], text: msg }) by {
        assert(order.to_set().contains(order[k]));
        assert(outs[k] == (Delivery::Text { to: members[order[k]], text: msg }));
    }
    assert forall|id: Seq<char>| #[trigger] members.contains_key(id) implies exists|k: int|
        0 <= k < outs.len() && outs[k] == (Delivery::Text { to: members[id], text: msg }) by {
        assert(order.to_set().contains(id));
        let k = choose|k: int| 0 <= k < order.len() && order[k] == id;
        assert(outs[k] == (Delivery::Text { to: members[order[k]], text: msg }));
    }
}

/// Leaving is done once: once a connection left, it is no longer
/// registered, and leaving again changes nothing.
pub proof fn leaving_twice_is_leaving_once(reg: Map<Seq<char>, ChannelState>, c: ConnView)
    ensures
        !holds(without(reg, c), c),
        without(without(reg, c), c) == without(reg, c),
{
}

/// Operations on one channel leave every other channel as it was: joins
/// and leaves change the table at their own channel's name only.
pub proof fn channels_are_isolated(
    reg: Map<Seq<char>, ChannelState>,
    name: Seq<char>,
    identity: Seq<char>,
    conn: u64,
    c: ConnView,
    other: Seq<char>,
)
    requires
        other != name,
        other != c.channel,
    ensures
        with_member(reg, name, identity, conn).contains_key(other) == reg.contains_key(other),
        with_primary(reg, name, conn).contains_key(other) == reg.contains_key(other),
        without(reg, c).contains_key(other) == reg.contains_key(other),
        reg.contains_key(other) ==> with_member(reg, name, identity, conn)[other] == reg[other]
            && with_primary(reg, name, conn)[other] == reg[other] && without(reg, c)[other]
            == reg[other],
{
}

/// A broadcast without a message sends nothing, and a frame that is not
/// JSON is answered with the `Invalid JSON` error alone.
pub proof fn bad_frames_are_answered(
    reg: Map<Seq<char>, ChannelState>,
    c: ConnView,
    fields: Option<(Option<Seq<char>>, Option<Seq<char>>)>,
    outs: Seq<Delivery>,
)
    requires
        frame_response(reg, c, fields, outs),
    ensures
        fields == Some((Some("broadcast"@), None::<Seq<char>>)) ==> outs.len() == 0,
        fields is None && c.state == ConnState::Active && holds(reg, c) ==> outs == reply(
            c,
            error_text(FrameError::InvalidJson),
        ),
{
    lemma_command_names_distinct();
}

/// The connection a frame for the transport goes to.
pub open spec fn recipient(d: Delivery) -> u64 {
    match d {
        Delivery::Text { to, .. } => to,
        Delivery::Close { to, .. } => to,
    }
}

/// Handling a frame from `c` sends only to `c` itself or to a member of
/// `c`'s own channel: no other channel's member receives anything.
pub proof fn frames_stay_in_channel(
    reg: Map<Seq<char>, ChannelState>,
    c: ConnView,
    fields: Option<(Option<Seq<char>>, Option<Seq<char>>)>,
    outs: Seq<Delivery>,
)
    requires
        frame_response(reg, c, fields, outs),
    ensures
        forall|k: int|
            #![trigger outs[k]]
            0 <= k < outs.len() ==> recipient(outs[k]) == c.id || exists|id: Seq<char>|
                reg[c.channel].members.contains_key(id) && #[trigger] reg[c.channel].members[id]
                    == recipient(outs[k]),
{
    lemma_command_names_distinct();
    if c.state == ConnState::Active && holds(reg, c) {
        match fields {
            Some((Some(cmd), Some(m))) => {
                if cmd == "broadcast"@ && !(cmd == "list"@ && c.role != Role::Secondary) && !(cmd
                    == "whois"@ && c.role != Role::Secondary) {
                    fan_out_reaches_members(reg[c.channel].members, m, outs);
                }
            },
            _ => {},
        }
    }
}

/// A join that reuses an identity held by another connection first sends
/// that connection a close with the replacement reason, then acknowledges
/// the new one; the replaced connection gets nothing else.
pub proof fn reused_identity_closes_holder_first(
    reg: Map<Seq<char>, ChannelState>,
    name: Seq<char>,
    identity: Seq<char>,
    prior: u64,
    conn: u64,
    ack: Seq<char>,
)
    requires
        member_holder(reg, name, identity) == Some(prior),
        prior != conn,
    ensures
        join_frames(member_holder(reg, name, identity), conn, ack) == seq![
            Delivery::Close { to: prior, reason: replaced_reason() },
            Delivery::Text { to: conn, text: ack },
        ],
        forall|k: int|
            1 <= k < join_frames(member_holder(reg, name, identity), conn, ack).len() ==> recipient(
                #[trigger] join_frames(member_holder(reg, name, identity), conn, ack)[k],
            ) != prior,
{
}

} // verus!
