//! Taking the messages of the server.

use crate::binary32::Binary32;
use crate::client::loading::LoadingState;
use crate::client::ping::{PingTracker, PingView};
use crate::client::session::{Session, SessionView};
use crate::world::ServerToClient;
use vstd::prelude::*;

verus! {

/// The connection of the player: its session, what it still waits for, and
/// its pings.
pub struct Connection<I> {
    pub session: Session,
    pub loading: LoadingState,
    pub ping: PingTracker<I>,
}

/// What a connection is, with its tables as maps.
#[verifier::reject_recursive_types(I)]
pub ghost struct ConnectionView<I> {
    pub session: SessionView,
    pub loading: LoadingState,
    pub ping: PingView<I>,
}

impl<I> View for Connection<I> {
    type V = ConnectionView<I>;

    open spec fn view(&self) -> ConnectionView<I> {
        ConnectionView { session: self.session@, loading: self.loading, ping: self.ping@ }
    }
}

impl SessionView {
    /// The session after a message; only a welcome and a world matter to it.
    pub open spec fn received(self, message: ServerToClient) -> SessionView {
        match message {
            ServerToClient::Welcome { id, world_size } => self.welcomed(id, world_size),
            ServerToClient::State(world) => self.informed(world@),
            ServerToClient::Pong(_) => self,
            ServerToClient::YouDied => self,
        }
    }

    /// The session after several messages.
    pub open spec fn received_all(self, messages: Seq<ServerToClient>) -> SessionView
        decreases messages.len(),
    {
        if messages.len() == 0 {
            self
        } else {
            self.received_all(messages.drop_last()).received(messages.last())
        }
    }
}

impl<I> ConnectionView<I> {
    /// The connection after a message; `rtt_ms` is the time measured where the
    /// message answers a ping.
    pub open spec fn received(
        self,
        message: ServerToClient,
        rtt_ms: Binary32,
    ) -> ConnectionView<I> {
        ConnectionView {
            session: self.session.received(message),
            loading: match message {
                ServerToClient::Welcome { .. } => self.loading.welcomed(),
                ServerToClient::State(_) => self.loading.informed(),
                _ => self.loading,
            },
            ping: match message {
                ServerToClient::Pong(id) => self.ping.answered(id, rtt_ms),
                _ => self.ping,
            },
        }
    }

    /// Whether `rtt_ms` is a time that `elapsed` gives for the ping that the
    /// message answers, if it answers any.
    pub open spec fn measured<E: Fn(I) -> Binary32>(
        self,
        message: ServerToClient,
        elapsed: &E,
        rtt_ms: Binary32,
    ) -> bool {
        message matches ServerToClient::Pong(id) ==> self.ping.in_flight.contains_key(id)
            ==> call_ensures(elapsed, (self.ping.in_flight[id],), rtt_ms)
    }

    /// Whether a message can be counted.
    pub open spec fn countable(self, message: ServerToClient) -> bool {
        message is State && self.loading.first_state_received ==> self.loading.state_count
            < u32::MAX
    }

    /// The connection after several messages.
    pub open spec fn received_all(
        self,
        messages: Seq<ServerToClient>,
        rtts: Seq<Binary32>,
    ) -> ConnectionView<I>
        decreases messages.len(),
    {
        if messages.len() == 0 {
            self
        } else {
            self.received_all(messages.drop_last(), rtts.drop_last()).received(
                messages.last(),
                rtts.last(),
            )
        }
    }

    /// How many of several messages hold a world.
    pub open spec fn states_in(messages: Seq<ServerToClient>) -> nat
        decreases messages.len(),
    {
        if messages.len() == 0 {
            0
        } else {
            Self::states_in(messages.drop_last()) + if messages.last() is State {
                1nat
            } else {
                0nat
            }
        }
    }

    /// The number of worlds that the client has counted after some more.
    pub open spec fn count_after(self, states: nat) -> nat {
        if self.loading.first_state_received {
            self.loading.state_count as nat + states
        } else {
            states
        }
    }

    proof fn states_in_prefix(messages: Seq<ServerToClient>, n: int)
        requires
            0 <= n <= messages.len(),
        ensures
            Self::states_in(messages.take(n)) <= Self::states_in(messages),
        decreases messages.len() - n,
    {
        if n < messages.len() {
            assert(messages.take(n + 1).drop_last() =~= messages.take(n));
            Self::states_in_prefix(messages, n + 1);
        } else {
            assert(messages.take(n) =~= messages);
        }
    }

    /// Whether each time was measured when its message came.
    pub open spec fn all_measured<E: Fn(I) -> Binary32>(
        self,
        messages: Seq<ServerToClient>,
        elapsed: &E,
        rtts: Seq<Binary32>,
    ) -> bool
        decreases messages.len(),
    {
        rtts.len() == messages.len() && (messages.len() > 0 ==> {
            &&& self.all_measured(messages.drop_last(), elapsed, rtts.drop_last())
            &&& self.received_all(messages.drop_last(), rtts.drop_last()).measured(
                messages.last(),
                elapsed,
                rtts.last(),
            )
        })
    }
}

impl Session {
    /// Takes a message.
    pub fn receive(&mut self, message: ServerToClient)
        ensures
            final(self)@ == old(self)@.received(message),
    {
        match message {
            ServerToClient::Welcome { id, world_size } => {
                self.receive_welcome(id, world_size);
            },
            ServerToClient::State(world) => {
                self.receive_state(world);
            },
            _ => {},
        }
    }

    /// Takes all messages that have come, for a session that is only watched
    /// and not waited for.
    pub fn net_pump(&mut self, messages: Vec<ServerToClient>)
        ensures
            final(self)@ == old(self)@.received_all(messages@),
    {
        let ghost pre = self@;
        let ghost all = messages@;
        assert(all.take(0) =~= Seq::empty());
        for message in walk: messages
            invariant
                walk.seq() == all,
                self@ == pre.received_all(all.take(walk.index())),
        {
            proof {
                let n = walk.index();
                assert(all.take(n + 1).drop_last() =~= all.take(n));
                assert(all.take(n + 1).last() == message);
            }
            self.receive(message);
        }
        assert(all.take(all.len() as int) =~= all);
    }
}

impl<I> Connection<I> {
    /// A connection that has heard nothing yet.
    pub fn new() -> (connection: Self)
        ensures
            connection@ == (ConnectionView {
                session: SessionView::silent(),
                loading: LoadingState::initial(),
                ping: PingView::<I>::unused(),
            }),
    {
        Connection {
            session: Session::new(),
            loading: LoadingState::default(),
            ping: PingTracker::new(),
        }
    }

    /// Takes a message. `elapsed` gives the milliseconds since an instant.
    pub fn receive<E: Fn(I) -> Binary32>(
        &mut self,
        message: ServerToClient,
        elapsed: &E,
    ) -> (rtt_ms: Ghost<Binary32>)
        requires
            forall|start: I| #[trigger] call_requires(elapsed, (start,)),
            old(self)@.countable(message),
        ensures
            old(self)@.measured(message, elapsed, rtt_ms@),
            final(self)@ == old(self)@.received(message, rtt_ms@),
    {
        let ghost mut measured: Binary32 = Binary32 { bits: 0 };
        match &message {
            ServerToClient::Welcome { .. } => {
                self.loading.receive_welcome();
            },
            ServerToClient::State(_) => {
                self.loading.receive_state();
            },
            ServerToClient::Pong(id) => {
                let rtt_ms: Ghost<Binary32> = self.ping.receive_pong(*id, elapsed);
                proof {
                    measured = rtt_ms@;
                }
            },
            ServerToClient::YouDied => {},
        }
        self.session.receive(message);
        Ghost(measured)
    }

    /// Takes all messages that have come.
    pub fn net_pump<E: Fn(I) -> Binary32>(&mut self, messages: Vec<ServerToClient>, elapsed: &E)
        requires
            forall|start: I| #[trigger] call_requires(elapsed, (start,)),
            old(self)@.count_after(ConnectionView::<I>::states_in(messages@)) <= u32::MAX,
        ensures
            exists|rtts: Seq<Binary32>|
                {
                    &&& #[trigger] old(self)@.all_measured(messages@, elapsed, rtts)
                    &&& final(self)@ == old(self)@.received_all(messages@, rtts)
                },
    {
        let ghost pre = self@;
        let ghost all = messages@;
        let ghost mut rtts: Seq<Binary32> = Seq::empty();
        assert(all.take(0) =~= Seq::empty());
        for message in walk: messages
            invariant
                walk.seq() == all,
                forall|start: I| #[trigger] call_requires(elapsed, (start,)),
                pre.count_after(ConnectionView::<I>::states_in(all)) <= u32::MAX,
                self.loading.first_state_received ==> self.loading.state_count
                    == pre.count_after(ConnectionView::<I>::states_in(all.take(walk.index()))),
                !self.loading.first_state_received ==> !pre.loading.first_state_received
                    && ConnectionView::<I>::states_in(all.take(walk.index())) == 0,
                pre.all_measured(all.take(walk.index()), elapsed, rtts),
                self@ == pre.received_all(all.take(walk.index()), rtts),
        {
            let ghost before = rtts;
            let ghost n = walk.index();
            assert(all.take(n + 1).drop_last() =~= all.take(n));
            assert(all.take(n + 1).last() == message);
            proof {
                ConnectionView::<I>::states_in_prefix(all, n + 1);
            }
            let rtt_ms: Ghost<Binary32> = self.receive(message, elapsed);
            proof {
                rtts = rtts.push(rtt_ms@);
                assert(rtts.drop_last() =~= before);
            }
        }
        assert(all.take(all.len() as int) =~= all);
    }
}

} // verus!
