//! What holds of every world that the simulation can reach.

use crate::binary32::Binary32;
use crate::rules::{GameConfig, Heading, HOVER_HEIGHT, TICK_SECONDS};
use crate::sim::{SimView, FULL_TURN, ITEM_HEIGHT};
use crate::world::{Item, ItemId, PlayerId, PlayerView, TurnInput, Vec3};
use vstd::prelude::*;

verus! {

/// One thing that is done to a simulation.
pub ghost enum SimEvent {
    /// A player was added.
    Join { id: PlayerId, x: Binary32, z: Binary32, rotation_y: Binary32 },
    /// A player was removed.
    Leave { id: PlayerId },
    /// A player asked for a turn.
    Ask { id: PlayerId, input: TurnInput },
    /// A tick passed, on which an item may have appeared.
    Tick {
        headings: Map<PlayerId, Heading>,
        meals: Map<PlayerId, ItemId>,
        item: Option<Item>,
    },
}

impl Vec3 {
    /// Whether a place lies between the edges of the world.
    pub open spec fn inside(self, world_size: Binary32) -> bool {
        &&& world_size.opposite().at_most(self.x) && self.x.at_most(world_size)
        &&& world_size.opposite().at_most(self.z) && self.z.at_most(world_size)
    }

    /// Whether a player or a cart can be there: inside, at hover height.
    pub open spec fn hovers(self, world_size: Binary32) -> bool {
        self.inside(world_size) && self.y == (Binary32 { bits: HOVER_HEIGHT })
    }
}

impl PlayerView {
    /// Whether a player hovers in the world at the head of its train, and all
    /// of its train hovers there too.
    pub open spec fn sound(self, world_size: Binary32) -> bool {
        &&& self.position.hovers(world_size)
        &&& self.train.len() > 0
        &&& self.train[0] == self.position
        &&& forall|i: int|
            0 <= i < self.train.len() ==> (#[trigger] self.train[i]).hovers(world_size)
    }
}

impl SimView {
    /// Whether everything is in order: players and items stand under their own
    /// ids, the world is as large as it was configured, every player, dead or
    /// alive, is sound, and every item lies on the ground inside.
    pub open spec fn sound(self) -> bool {
        &&& self.state.keyed()
        &&& self.state.world_size == self.cfg.world_size
        &&& forall|k: PlayerId| #[trigger]
            self.state.players.contains_key(k) ==> self.state.players[k].sound(
                self.cfg.world_size,
            )
        &&& forall|i: ItemId| #[trigger]
            self.state.items.contains_key(i) ==> Self::lies(
                self.state.items[i],
                self.cfg.world_size,
            )
    }

    /// Whether an item lies on the ground inside the world.
    pub open spec fn lies(item: Item, world_size: Binary32) -> bool {
        item.pos.inside(world_size) && item.pos.y == (Binary32 { bits: ITEM_HEIGHT })
    }

    /// Whether the players alive get somewhere in the given directions: the
    /// coordinates that they come to, before any edge is looked at, are
    /// numbers.
    pub open spec fn gets_somewhere(self, headings: Map<PlayerId, Heading>) -> bool {
        forall|k: PlayerId| #[trigger]
            self.lives(k) ==> {
                let place = self.state.players[k].position.moved(
                    headings[k],
                    self.cfg.player_speed,
                    Binary32 { bits: TICK_SECONDS },
                );
                !place.x.nan() && !place.z.nan()
            }
    }

    /// The simulation after one event.
    pub open spec fn met(self, event: SimEvent) -> SimView {
        match event {
            SimEvent::Join { id, x, z, rotation_y } => self.with_player(
                id,
                Self::newcomer(id, x, z, rotation_y),
            ),
            SimEvent::Leave { id } => self.without_player(id),
            SimEvent::Ask { id, input } => self.asked(id, input),
            SimEvent::Tick { headings, meals, item } => match item {
                Some(item) => self.ticked(headings, meals).with_item(item),
                None => self.ticked(headings, meals),
            },
        }
    }

    /// Whether an event can be met: what appears, appears inside the world,
    /// and an item appears exactly when one is due.
    pub open spec fn can_meet(self, event: SimEvent) -> bool {
        let ws = self.cfg.world_size;
        match event {
            SimEvent::Join { id, x, z, rotation_y } => Self::newcomer(
                id,
                x,
                z,
                rotation_y,
            ).position.inside(ws),
            SimEvent::Leave { .. } => true,
            SimEvent::Ask { .. } => true,
            SimEvent::Tick { headings, meals, item } => {
                &&& self.state.tick < u64::MAX
                &&& self.gets_somewhere(headings)
                &&& self.counted().moved(headings).meals_fit(meals)
                &&& item is Some <==> self.item_due()
                &&& item matches Some(item) ==> Self::lies(item, ws)
            },
        }
    }

    /// The simulation after several events.
    pub open spec fn after(self, events: Seq<SimEvent>) -> SimView
        decreases events.len(),
    {
        if events.len() == 0 {
            self
        } else {
            self.after(events.drop_last()).met(events.last())
        }
    }

    /// Whether several events can be met, one after the other.
    pub open spec fn can_meet_all(self, events: Seq<SimEvent>) -> bool
        decreases events.len(),
    {
        events.len() > 0 ==> self.can_meet_all(events.drop_last()) && self.after(
            events.drop_last(),
        ).can_meet(events.last())
    }

    proof fn ticking_keeps_soundness(
        self,
        headings: Map<PlayerId, Heading>,
        meals: Map<PlayerId, ItemId>,
    )
        requires
            self.sound(),
            (Binary32 { bits: 0 }).at_most(self.cfg.world_size),
            self.gets_somewhere(headings),
        ensures
            self.ticked(headings, meals).sound(),
    {
        let ws = self.cfg.world_size;
        let after = self.ticked(headings, meals);
        self.ticking_keeps_keys(headings, meals);
        assert forall|k: PlayerId| #[trigger] after.state.players.contains_key(k) implies
            after.state.players[k].sound(ws) by {
            assert(self.state.players.contains_key(k));
            let before = self.state.players[k];
            let now = after.state.players[k];
            if self.lives(k) {
                let place = before.position.moved(
                    headings[k],
                    self.cfg.player_speed,
                    Binary32 { bits: TICK_SECONDS },
                );
                Binary32::wrapping_stays_inside(place.x, ws);
                Binary32::wrapping_stays_inside(place.z, ws);
                assert(now.position == place.wrapped(ws));
                assert(now.position.hovers(ws));
                assert forall|i: int| 0 <= i < now.train.len() implies (
                #[trigger] now.train[i]).hovers(ws) by {
                    if i > 0 {
                        assert(now.train[i] == before.train[i - 1]);
                    }
                }
            } else {
                assert(now == before);
            }
        }
        assert forall|i: ItemId| #[trigger] after.state.items.contains_key(i) implies Self::lies(
            after.state.items[i],
            ws,
        ) by {
            assert(self.state.items.contains_key(i));
        }
    }

    /// Whatever is done to a sound simulation leaves it sound, of the same
    /// configuration.
    pub proof fn events_keep_soundness(self, event: SimEvent)
        requires
            self.sound(),
            (Binary32 { bits: 0 }).at_most(self.cfg.world_size),
            self.can_meet(event),
        ensures
            self.met(event).sound(),
            self.met(event).cfg == self.cfg,
    {
        let ws = self.cfg.world_size;
        match event {
            SimEvent::Join { id, x, z, rotation_y } => {
                let joined = self.met(event);
                self.appearing_keeps_keys(id, x, z, rotation_y);
                assert forall|k: PlayerId| #[trigger]
                    joined.state.players.contains_key(k) implies joined.state.players[k].sound(
                    ws,
                ) by {
                    if k != id {
                        assert(self.state.players.contains_key(k));
                    }
                }
            },
            SimEvent::Leave { id } => {
                let left = self.met(event);
                assert forall|k: PlayerId| #[trigger]
                    left.state.players.contains_key(k) implies left.state.players[k].sound(ws) by {
                    assert(self.state.players.contains_key(k));
                }
                assert(left.state.keyed());
            },
            SimEvent::Ask { .. } => {},
            SimEvent::Tick { headings, meals, item } => {
                self.ticking_keeps_soundness(headings, meals);
                let ticked = self.ticked(headings, meals);
                if let Some(item) = item {
                    let after = ticked.with_item(item);
                    assert forall|i: ItemId| #[trigger]
                        after.state.items.contains_key(i) implies Self::lies(
                        after.state.items[i],
                        ws,
                    ) && after.state.items[i].id == i by {
                        if i != item.id {
                            assert(ticked.state.items.contains_key(i));
                        }
                    }
                }
            },
        }
    }

    /// Every world that a new one becomes by adding and removing players, by
    /// their inputs and by ticks is sound, wherever coordinates stay numbers.
    pub proof fn every_world_is_sound(cfg: GameConfig, events: Seq<SimEvent>)
        requires
            (Binary32 { bits: 0 }).at_most(cfg.world_size),
            Self::fresh(cfg).can_meet_all(events),
        ensures
            Self::fresh(cfg).after(events).sound(),
            Self::fresh(cfg).after(events).cfg == cfg,
        decreases events.len(),
    {
        if events.len() > 0 {
            Self::every_world_is_sound(cfg, events.drop_last());
            Self::fresh(cfg).after(events.drop_last()).events_keep_soundness(events.last());
        }
    }

    /// What adding a player does is an event that can be met, if the random
    /// numbers come from the range asked for.
    pub proof fn adding_is_joining<D: Fn(Binary32, Binary32) -> Binary32>(
        self,
        draw: &D,
        id: PlayerId,
        x: Binary32,
        z: Binary32,
        rotation_y: Binary32,
    )
        requires
            Self::in_range(draw),
            call_ensures(draw, (self.cfg.world_size.opposite(), self.cfg.world_size), x),
            call_ensures(draw, (self.cfg.world_size.opposite(), self.cfg.world_size), z),
            call_ensures(draw, (Binary32 { bits: 0 }, Binary32 { bits: FULL_TURN }), rotation_y),
        ensures
            self.can_meet(SimEvent::Join { id, x, z, rotation_y }),
            self.met(SimEvent::Join { id, x, z, rotation_y }) == self.with_player(
                id,
                Self::newcomer(id, x, z, rotation_y),
            ),
    {
        self.newcomers_stand_inside(draw, id, x, z, rotation_y);
    }

    /// What a tick does, with the item that may appear on it, is an event that
    /// can be met, if the random numbers come from the range asked for.
    pub proof fn stepping_is_ticking<
        H: Fn(Binary32) -> Heading,
        D: Fn(Binary32, Binary32) -> Binary32,
    >(
        self,
        heading: &H,
        draw: &D,
        headings: Map<PlayerId, Heading>,
        meals: Map<PlayerId, ItemId>,
        after: SimView,
    )
        requires
            self.state.tick < u64::MAX,
            Self::in_range(draw),
            self.gets_somewhere(headings),
            self.may_tick(heading, headings, meals),
            if self.item_due() {
                self.ticked(headings, meals).gains_item(draw, after)
            } else {
                after == self.ticked(headings, meals)
            },
        ensures
            exists|event: SimEvent| #[trigger] self.can_meet(event) && after == self.met(event),
    {
        let ticked = self.ticked(headings, meals);
        let ws = self.cfg.world_size;
        if self.item_due() {
            let (id, x, z) = choose|id: ItemId, x: Binary32, z: Binary32|
                {
                    &&& crate::uuids::is_random_uuid(id)
                    &&& call_ensures(draw, (ws.opposite(), ws), x)
                    &&& call_ensures(draw, (ws.opposite(), ws), z)
                    &&& after == ticked.with_item(#[trigger] Self::item_at(id, x, z))
                };
            let item = Some(Self::item_at(id, x, z));
            let event = SimEvent::Tick { headings, meals, item };
            assert(self.can_meet(event) && after == self.met(event));
        } else {
            let event = SimEvent::Tick { headings, meals, item: None };
            assert(self.can_meet(event) && after == self.met(event));
        }
    }

    /// The simulation after several players were added, one after the other.
    pub open spec fn with_all(self, joins: Seq<(PlayerId, PlayerView)>) -> SimView
        decreases joins.len(),
    {
        if joins.len() == 0 {
            self
        } else {
            self.with_all(joins.drop_last()).with_player(joins.last().0, joins.last().1)
        }
    }

    /// Adding players, however many, keeps the players that were there, the
    /// items, the tick, the sizes, the configuration and the inputs; and if
    /// the new ids are all different and new, there are as many players more.
    pub proof fn adding_keeps_the_rest(self, joins: Seq<(PlayerId, PlayerView)>, other: PlayerId)
        requires
            self.state.players.dom().finite(),
        ensures
            ({
                let after = self.with_all(joins);
                &&& after.cfg == self.cfg
                &&& after.state.items == self.state.items
                &&& after.state.tick == self.state.tick
                &&& after.state.world_size == self.state.world_size
                &&& after.pending_inputs == self.pending_inputs
                &&& (forall|i: int| 0 <= i < joins.len() ==> (#[trigger] joins[i]).0 != other)
                    ==> {
                    &&& after.state.players.contains_key(other)
                        == self.state.players.contains_key(other)
                    &&& after.state.players[other] == self.state.players[other]
                }
                &&& after.state.players.dom().finite()
                &&& Self::all_new(self.state.players.dom(), joins)
                    ==> after.state.players.dom().len() == self.state.players.dom().len()
                    + joins.len()
            }),
        decreases joins.len(),
    {
        if joins.len() > 0 {
            let rest = joins.drop_last();
            let before = self.with_all(rest);
            let last = joins.last();
            self.adding_keeps_the_rest(rest, other);
            self.adding_keeps_the_rest(rest, last.0);
            assert(before.with_player(last.0, last.1).state.players.dom()
                =~= before.state.players.dom().insert(last.0));
            if forall|i: int| 0 <= i < joins.len() ==> (#[trigger] joins[i]).0 != other {
                assert forall|i: int| 0 <= i < rest.len() implies (#[trigger] rest[i]).0
                    != other by {
                    assert(joins[i].0 != other);
                }
                assert(joins[joins.len() - 1].0 != other);
            }
            if Self::all_new(self.state.players.dom(), joins) {
                assert forall|i: int| 0 <= i < rest.len() implies (#[trigger] rest[i]).0
                    != last.0 by {
                    assert(joins[i].0 != joins[joins.len() - 1].0);
                }
                assert(Self::all_new(self.state.players.dom(), rest)) by {
                    assert forall|i: int| 0 <= i < rest.len() implies !self.state.players.dom().contains(
                        (#[trigger] rest[i]).0,
                    ) by {
                        assert(!self.state.players.dom().contains(joins[i].0));
                    }
                    assert forall|i: int, j: int| 0 <= i < j < rest.len() implies (
                    #[trigger] rest[i]).0 != (#[trigger] rest[j]).0 by {
                        assert(joins[i].0 != joins[j].0);
                    }
                }
                assert(!self.state.players.dom().contains(joins[joins.len() - 1].0));
                assert(!before.state.players.contains_key(last.0));
            }
        }
    }

    /// Whether several new ids are all different and none of them is known.
    pub open spec fn all_new(known: Set<PlayerId>, joins: Seq<(PlayerId, PlayerView)>) -> bool {
        &&& forall|i: int| 0 <= i < joins.len() ==> !known.contains((#[trigger] joins[i]).0)
        &&& forall|i: int, j: int|
            0 <= i < j < joins.len() ==> (#[trigger] joins[i]).0 != (#[trigger] joins[j]).0
    }
}

} // verus!
