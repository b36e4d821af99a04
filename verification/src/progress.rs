//! The milestones of the game and the roadmap that leads to a goal.
//!
//! A milestone needs some events to have happened and makes others happen.
//! A roadmap for a goal is found by exploring backwards: the goal needs
//! events, those are made to happen by milestones still at hand, which need
//! events in turn.

use vstd::prelude::*;
use crate::item::ItemInstance;
use crate::random::next_random;
use crate::tower::Level;

verus! {

/// Something that has happened in the game.
#[derive(Copy, Clone, Debug, PartialEq, Eq, Hash, Structural)]
pub enum Event {
    HasAccess(AreaInstance),
    HasItem(ItemInstance),
    GameWon,
}

/// The areas of the tower.
#[derive(Copy, Clone, Debug, PartialEq, Eq, Hash, Structural)]
pub enum AreaInstance {
    FuyoPenthouse,
    MainFrame,
    ObservationDeck,
    Entrance,
    NichireiRestaurant,
    NichireiLabs,
    YasudaLife,
    KayabaIndustries,
    KayabaRoboticsLabs,
    PrimeSecHQ,
}

/// The milestones of the game.
#[derive(Copy, Clone, Debug, PartialEq, Eq, Hash, Structural)]
pub enum MilestoneInstance {
    TheHeist,
    AAA,
    KillKayabaCeo,
    KillYasudaCeo,
    KillPrimeSeqCeo,
    KillNichireiCeo,
    MilestoneCloseHack,
}

/// A step of the game: the events it needs, and those it makes happen.
#[derive(Clone, Debug, PartialEq, Eq)]
pub struct Milestone {
    pub pre: Vec<Event>,
    pub post: Vec<Event>,
}

/// The levels that an area spans.
#[derive(Copy, Clone, Debug, PartialEq, Eq, Structural)]
pub struct Area {
    pub min_level: Level,
    pub max_level: Level,
}

/// The lowest and the highest level of an area.
pub open spec fn span_of(instance: AreaInstance) -> (i32, i32) {
    match instance {
        AreaInstance::FuyoPenthouse => (10i32, 10i32),
        AreaInstance::MainFrame => (5i32, 8i32),
        AreaInstance::ObservationDeck => (9i32, 9i32),
        AreaInstance::Entrance => (0i32, 0i32),
        AreaInstance::NichireiRestaurant => (7i32, 8i32),
        AreaInstance::NichireiLabs => (5i32, 8i32),
        AreaInstance::YasudaLife => (2i32, 3i32),
        AreaInstance::PrimeSecHQ => (4i32, 7i32),
        AreaInstance::KayabaIndustries => (4i32, 7i32),
        AreaInstance::KayabaRoboticsLabs => (6i32, 7i32),
    }
}

impl Area {
    pub fn new(min: Level, max: Level) -> (a: Area)
        ensures
            a == (Area { min_level: min, max_level: max }),
    {
        Area { min_level: min, max_level: max }
    }

    pub fn from_instance(instance: AreaInstance) -> (a: Area)
        ensures
            a.min_level == Level::Tower(span_of(instance).0),
            a.max_level == Level::Tower(span_of(instance).1),
    {
        match instance {
            AreaInstance::FuyoPenthouse => Area::new(Level::Tower(10), Level::Tower(10)),
            AreaInstance::MainFrame => Area::new(Level::Tower(5), Level::Tower(8)),
            AreaInstance::ObservationDeck => Area::new(Level::Tower(9), Level::Tower(9)),
            AreaInstance::Entrance => Area::new(Level::Tower(0), Level::Tower(0)),
            AreaInstance::NichireiRestaurant => Area::new(Level::Tower(7), Level::Tower(8)),
            AreaInstance::NichireiLabs => Area::new(Level::Tower(5), Level::Tower(8)),
            AreaInstance::YasudaLife => Area::new(Level::Tower(2), Level::Tower(3)),
            AreaInstance::PrimeSecHQ => Area::new(Level::Tower(4), Level::Tower(7)),
            AreaInstance::KayabaIndustries => Area::new(Level::Tower(4), Level::Tower(7)),
            AreaInstance::KayabaRoboticsLabs => Area::new(Level::Tower(6), Level::Tower(7)),
        }
    }
}

/// All milestones, in the order in which they are at hand.
pub open spec fn all_milestones() -> Seq<MilestoneInstance> {
    seq![
        MilestoneInstance::TheHeist,
        MilestoneInstance::AAA,
        MilestoneInstance::KillNichireiCeo,
        MilestoneInstance::KillPrimeSeqCeo,
        MilestoneInstance::KillYasudaCeo,
        MilestoneInstance::KillKayabaCeo,
        MilestoneInstance::MilestoneCloseHack,
    ]
}

impl MilestoneInstance {
    pub fn values() -> (all: [MilestoneInstance; 7])
        ensures
            all@ == all_milestones(),
    {
        let all = [
            MilestoneInstance::TheHeist,
            MilestoneInstance::AAA,
            MilestoneInstance::KillNichireiCeo,
            MilestoneInstance::KillPrimeSeqCeo,
            MilestoneInstance::KillYasudaCeo,
            MilestoneInstance::KillKayabaCeo,
            MilestoneInstance::MilestoneCloseHack,
        ];
        assert(all@ =~= all_milestones());
        all
    }
}

/// All areas.
pub open spec fn all_areas() -> Seq<AreaInstance> {
    seq![
        AreaInstance::FuyoPenthouse,
        AreaInstance::MainFrame,
        AreaInstance::ObservationDeck,
        AreaInstance::Entrance,
        AreaInstance::NichireiRestaurant,
        AreaInstance::NichireiLabs,
        AreaInstance::YasudaLife,
        AreaInstance::KayabaIndustries,
        AreaInstance::KayabaRoboticsLabs,
        AreaInstance::PrimeSecHQ,
    ]
}

impl AreaInstance {
    pub fn values() -> (all: [AreaInstance; 10])
        ensures
            all@ == all_areas(),
    {
        let all = [
            AreaInstance::FuyoPenthouse,
            AreaInstance::MainFrame,
            AreaInstance::ObservationDeck,
            AreaInstance::Entrance,
            AreaInstance::NichireiRestaurant,
            AreaInstance::NichireiLabs,
            AreaInstance::YasudaLife,
            AreaInstance::KayabaIndustries,
            AreaInstance::KayabaRoboticsLabs,
            AreaInstance::PrimeSecHQ,
        ];
        assert(all@ =~= all_areas());
        all
    }
}

/// The events that a milestone needs.
pub open spec fn pre_of(instance: MilestoneInstance) -> Seq<Event> {
    match instance {
        MilestoneInstance::TheHeist => seq![Event::HasAccess(AreaInstance::FuyoPenthouse)],
        MilestoneInstance::AAA => seq![Event::HasAccess(AreaInstance::MainFrame)],
        MilestoneInstance::KillKayabaCeo => seq![Event::HasAccess(AreaInstance::KayabaRoboticsLabs)],
        MilestoneInstance::KillYasudaCeo => seq![Event::HasAccess(AreaInstance::YasudaLife)],
        MilestoneInstance::KillPrimeSeqCeo => seq![Event::HasAccess(AreaInstance::PrimeSecHQ)],
        MilestoneInstance::KillNichireiCeo => seq![Event::HasAccess(AreaInstance::NichireiLabs)],
        MilestoneInstance::MilestoneCloseHack => Seq::empty(),
    }
}

/// The events that a milestone makes happen.
pub open spec fn post_of(instance: MilestoneInstance) -> Seq<Event> {
    match instance {
        MilestoneInstance::TheHeist => seq![Event::GameWon],
        MilestoneInstance::AAA => seq![Event::HasAccess(AreaInstance::FuyoPenthouse)],
        MilestoneInstance::KillKayabaCeo => seq![Event::HasAccess(AreaInstance::MainFrame)],
        MilestoneInstance::KillYasudaCeo => seq![Event::HasAccess(AreaInstance::MainFrame)],
        MilestoneInstance::KillPrimeSeqCeo => seq![Event::HasAccess(AreaInstance::MainFrame)],
        MilestoneInstance::KillNichireiCeo => seq![Event::HasAccess(AreaInstance::MainFrame)],
        MilestoneInstance::MilestoneCloseHack => seq![
            Event::HasAccess(AreaInstance::NichireiLabs),
            Event::HasAccess(AreaInstance::KayabaRoboticsLabs),
            Event::HasAccess(AreaInstance::YasudaLife),
            Event::HasAccess(AreaInstance::PrimeSecHQ),
        ],
    }
}

/// The areas among the events, in the same order.
pub open spec fn areas_of(events: Seq<Event>) -> Seq<AreaInstance>
    decreases events.len(),
{
    if events.len() == 0 {
        Seq::empty()
    } else {
        let front = areas_of(events.drop_last());
        match events.last() {
            Event::HasAccess(a) => front.push(a),
            _ => front,
        }
    }
}

/// Those of `events` that are not among `fulfilled`, in the same order.
pub open spec fn missing(events: Seq<Event>, fulfilled: Seq<Event>) -> Seq<Event>
    decreases events.len(),
{
    if events.len() == 0 {
        Seq::empty()
    } else {
        let front = missing(events.drop_last(), fulfilled);
        if fulfilled.contains(events.last()) {
            front
        } else {
            front.push(events.last())
        }
    }
}

/// Whether one of `events` is among `wanted`.
pub open spec fn any_among(events: Seq<Event>, wanted: Seq<Event>) -> bool {
    exists|i: int| 0 <= i < events.len() && wanted.contains(#[trigger] events[i])
}

/// The milestones of `pool` that make one of the events `wanted` happen, in
/// the order of the pool.
pub open spec fn fulfilling(pool: Seq<MilestoneInstance>, wanted: Seq<Event>) -> Seq<
    MilestoneInstance,
>
    decreases pool.len(),
{
    if pool.len() == 0 {
        Seq::empty()
    } else {
        let front = fulfilling(pool.drop_last(), wanted);
        if any_among(post_of(pool.last()), wanted) {
            front.push(pool.last())
        } else {
            front
        }
    }
}

/// The place of the first occurrence of a milestone in a pool, or the
/// length of the pool where it does not occur.
pub open spec fn place_in(pool: Seq<MilestoneInstance>, instance: MilestoneInstance) -> nat
    decreases pool.len(),
{
    if pool.len() == 0 {
        0
    } else if pool[0] == instance {
        0
    } else {
        1 + place_in(pool.skip(1), instance)
    }
}

/// The state of an exploration.
pub struct Exploration {
    /// The milestones still at hand.
    pub pool: Seq<MilestoneInstance>,
    /// The milestones to look at, the next one last.
    pub open: Seq<MilestoneInstance>,
    /// The events made to happen so far.
    pub fulfilled: Seq<Event>,
    /// The milestones of the roadmap so far.
    pub result: Seq<MilestoneInstance>,
}

/// The events that the next milestone to look at still needs, once what it
/// makes happen counts as fulfilled.
pub open spec fn needs(e: Exploration) -> Seq<Event> {
    missing(pre_of(e.open.last()), e.fulfilled + post_of(e.open.last()))
}

/// The roadmap that an exploration ends with, or none where some event
/// that is needed cannot be made to happen.
///
/// The next milestone is looked at. One that is no longer at hand is passed
/// over. Otherwise it joins the roadmap and leaves the pool, what it makes
/// happen counts as fulfilled, and the milestones at hand that make happen
/// what it still needs are looked at next, the last of them first.
pub open spec fn explore(e: Exploration) -> Option<Seq<MilestoneInstance>>
    decreases e.pool.len(), e.open.len(),
{
    if e.open.len() == 0 {
        Some(e.result)
    } else {
        let curr = e.open.last();
        let rest = e.open.drop_last();
        let i = place_in(e.pool, curr) as int;
        if i >= e.pool.len() {
            explore(Exploration { open: rest, ..e })
        } else {
            let pool = e.pool.remove(i);
            let fulfilled = e.fulfilled + post_of(curr);
            let chosen = fulfilling(pool, needs(e));
            if needs(e).len() > 0 && chosen.len() == 0 {
                None
            } else {
                explore(
                    Exploration {
                        pool,
                        open: if needs(e).len() > 0 {
                            rest + chosen
                        } else {
                            rest
                        },
                        fulfilled,
                        result: e.result.push(curr),
                    },
                )
            }
        }
    }
}

/// The roadmap for a goal: the exploration that starts with all milestones
/// at hand and the goal to look at.
pub open spec fn roadmap_of(root: MilestoneInstance) -> Option<Seq<MilestoneInstance>> {
    explore(
        Exploration {
            pool: all_milestones(),
            open: seq![root],
            fulfilled: Seq::empty(),
            result: Seq::empty(),
        },
    )
}

/// How many of the milestones `alive` make `event` happen.
pub open spec fn providers(alive: Seq<MilestoneInstance>, event: Event) -> nat
    decreases alive.len(),
{
    if alive.len() == 0 {
        0
    } else {
        providers(alive.drop_last(), event) + if post_of(alive.last()).contains(event) {
            1nat
        } else {
            0nat
        }
    }
}

/// Whether a milestone is needed among the milestones `alive`: something
/// that it makes happen has fewer than two of them behind it.
pub open spec fn needed(alive: Seq<MilestoneInstance>, instance: MilestoneInstance) -> bool {
    exists|k: int|
        0 <= k < post_of(instance).len() && providers(alive, #[trigger] post_of(instance)[k]) < 2
}

/// Whether the draw for the first of the milestones still to decide is a
/// hit. Where the draws have run out, there is no hit.
pub open spec fn first_hit(hits: Seq<bool>) -> bool {
    hits.len() > 0 && hits[0]
}

/// The draws after the first.
pub open spec fn later<A>(hits: Seq<A>) -> Seq<A> {
    if hits.len() > 0 {
        hits.skip(1)
    } else {
        hits
    }
}

/// The milestones given without the first occurrence of one of them.
pub open spec fn without_first(
    alive: Seq<MilestoneInstance>,
    instance: MilestoneInstance,
) -> Seq<MilestoneInstance> {
    let at = place_in(alive, instance) as int;
    if at < alive.len() {
        alive.remove(at)
    } else {
        alive
    }
}

/// The milestones of `rest` that are kept, where `alive` holds the
/// milestones not dropped so far and `hits` one draw for each milestone of
/// `rest`: a milestone is dropped where its draw is a hit and it is not
/// needed among those alive.
pub open spec fn prune_from(
    alive: Seq<MilestoneInstance>,
    rest: Seq<MilestoneInstance>,
    hits: Seq<bool>,
) -> Seq<MilestoneInstance>
    decreases rest.len(),
{
    if rest.len() == 0 {
        Seq::empty()
    } else if first_hit(hits) && !needed(alive, rest[0]) {
        prune_from(without_first(alive, rest[0]), rest.skip(1), later(hits))
    } else {
        seq![rest[0]] + prune_from(alive, rest.skip(1), later(hits))
    }
}

/// The milestones that are kept of those chosen, for the draws given.
pub open spec fn pruned(chosen: Seq<MilestoneInstance>, hits: Seq<bool>) -> Seq<MilestoneInstance> {
    prune_from(chosen, chosen, hits)
}

/// The roadmap that an exploration ends with where the milestones chosen
/// are pruned, with one sequence of draws for each milestone that needs
/// something. It goes as [`explore`] does, but for the pruning.
pub open spec fn explore_pruned(e: Exploration, hits: Seq<Seq<bool>>) -> Option<
    Seq<MilestoneInstance>,
>
    decreases e.pool.len(), e.open.len(),
{
    if e.open.len() == 0 {
        Some(e.result)
    } else {
        let curr = e.open.last();
        let rest = e.open.drop_last();
        let i = place_in(e.pool, curr) as int;
        if i >= e.pool.len() {
            explore_pruned(Exploration { open: rest, ..e }, hits)
        } else {
            let pool = e.pool.remove(i);
            let fulfilled = e.fulfilled + post_of(curr);
            let chosen = fulfilling(pool, needs(e));
            if needs(e).len() == 0 {
                explore_pruned(
                    Exploration { pool, open: rest, fulfilled, result: e.result.push(curr) },
                    hits,
                )
            } else if chosen.len() == 0 {
                None
            } else {
                let draws = if hits.len() > 0 {
                    hits[0]
                } else {
                    Seq::empty()
                };
                explore_pruned(
                    Exploration {
                        pool,
                        open: rest + pruned(chosen, draws),
                        fulfilled,
                        result: e.result.push(curr),
                    },
                    later(hits),
                )
            }
        }
    }
}

/// The chance of pruning that prunes whenever it can. A chance is counted
/// in parts of this number.
pub const PRUNE_ALWAYS: u32 = 0x80_0000;

/// Whether a draw of 32 random bits is a hit for a chance of pruning: the
/// chance is greater than the lowest 23 bits of the draw.
pub open spec fn is_hit(prune: u32, draw: u32) -> bool {
    prune > (draw & 0x7F_FFFF)
}

/// A roadmap: the milestones that lead to a goal, the goal first.
#[derive(Clone, Debug, PartialEq, Eq)]
pub struct Roadmap {
    pub entries: Vec<MilestoneInstance>,
}

/// Tests whether an event is among the events given.
pub fn event_among(events: &Vec<Event>, event: &Event) -> (b: bool)
    ensures
        b == events@.contains(*event),
{
    let mut i: usize = 0;
    while i < events.len()
        invariant
            i <= events.len(),
            forall|j: int| 0 <= j < i ==> events@[j] != *event,
        decreases events.len() - i,
    {
        if events[i] == *event {
            return true;
        }
        i = i + 1;
    }
    false
}

/// Finds the first occurrence of a milestone in a pool.
pub fn find_in_pool(pool: &Vec<MilestoneInstance>, instance: MilestoneInstance) -> (i: usize)
    ensures
        i == place_in(pool@, instance),
        i <= pool@.len(),
        i < pool@.len() ==> pool@[i as int] == instance,
{
    let mut i: usize = 0;
    assert(pool@.skip(0) == pool@);
    while i < pool.len() && pool[i] != instance
        invariant
            i <= pool.len(),
            place_in(pool@, instance) == i + place_in(pool@.skip(i as int), instance),
        decreases pool.len() - i,
    {
        proof {
            assert(pool@.skip(i as int).skip(1) == pool@.skip(i as int + 1));
            assert(pool@.skip(i as int)[0] == pool@[i as int]);
        }
        i = i + 1;
    }
    proof {
        if i < pool.len() {
            assert(pool@.skip(i as int)[0] == pool@[i as int]);
        }
    }
    i
}

impl Roadmap {
    /// Number of milestones of the roadmap.
    pub fn len(&self) -> (n: usize)
        ensures
            n == self.entries@.len(),
    {
        self.entries.len()
    }

    /// The milestone of that name, if the roadmap has it.
    pub fn get(&self, instance: &MilestoneInstance) -> (r: Option<Milestone>)
        ensures
            r.is_some() == self.entries@.contains(*instance),
            r.is_some() ==> r.unwrap().pre@ == pre_of(*instance) && r.unwrap().post@ == post_of(
                *instance,
            ),
    {
        let i = find_in_pool(&self.entries, *instance);
        if i < self.entries.len() {
            Some(Milestone::new(*instance))
        } else {
            proof {
                lemma_place_in(self.entries@, *instance);
            }
            None
        }
    }
}

/// The roadmap for a goal with pruning: the exploration that starts with
/// all milestones at hand and the goal to look at, for the draws given.
pub open spec fn random_roadmap_of(root: MilestoneInstance, hits: Seq<Seq<bool>>) -> Option<
    Seq<MilestoneInstance>,
> {
    explore_pruned(
        Exploration {
            pool: all_milestones(),
            open: seq![root],
            fulfilled: Seq::empty(),
            result: Seq::empty(),
        },
        hits,
    )
}

/// Where no draw is a hit, every milestone is kept.
pub proof fn lemma_no_hit_keeps_all(
    alive: Seq<MilestoneInstance>,
    rest: Seq<MilestoneInstance>,
    hits: Seq<bool>,
)
    requires
        forall|k: int| 0 <= k < hits.len() ==> !hits[k],
    ensures
        prune_from(alive, rest, hits) == rest,
    decreases rest.len(),
{
    if rest.len() > 0 {
        let next = later(hits);
        assert forall|k: int| 0 <= k < next.len() implies !next[k] by {
            assert(next[k] == hits[k + 1]);
        }
        lemma_no_hit_keeps_all(alive, rest.skip(1), next);
        assert(seq![rest[0]] + rest.skip(1) =~= rest);
    }
}

/// A milestone occurs in a pool exactly where [`place_in`] finds it.
pub proof fn lemma_place_in(pool: Seq<MilestoneInstance>, instance: MilestoneInstance)
    ensures
        place_in(pool, instance) <= pool.len(),
        place_in(pool, instance) < pool.len() <==> pool.contains(instance),
        place_in(pool, instance) < pool.len() ==> pool[place_in(pool, instance) as int]
            == instance,
    decreases pool.len(),
{
    if pool.len() > 0 {
        if pool[0] != instance {
            let rest = pool.skip(1);
            lemma_place_in(rest, instance);
            if pool.contains(instance) {
                let i = choose|i: int| 0 <= i < pool.len() && pool[i] == instance;
                assert(rest[i - 1] == instance);
            }
            if rest.contains(instance) {
                let i = choose|i: int| 0 <= i < rest.len() && rest[i] == instance;
                assert(pool[i + 1] == instance);
            }
            let k = place_in(rest, instance) as int;
            if k < rest.len() {
                assert(pool[k + 1] == rest[k]);
            }
        }
    }
}

impl Milestone {
    pub fn new(instance: MilestoneInstance) -> (m: Milestone)
        ensures
            m.pre@ == pre_of(instance),
            m.post@ == post_of(instance),
    {
        let m = match instance {
            MilestoneInstance::TheHeist => Milestone {
                pre: vec![Event::HasAccess(AreaInstance::FuyoPenthouse)],
                post: vec![Event::GameWon],
            },
            MilestoneInstance::AAA => Milestone {
                pre: vec![Event::HasAccess(AreaInstance::MainFrame)],
                post: vec![Event::HasAccess(AreaInstance::FuyoPenthouse)],
            },
            MilestoneInstance::KillKayabaCeo => Milestone {
                pre: vec![Event::HasAccess(AreaInstance::KayabaRoboticsLabs)],
                post: vec![Event::HasAccess(AreaInstance::MainFrame)],
            },
            MilestoneInstance::KillYasudaCeo => Milestone {
                pre: vec![Event::HasAccess(AreaInstance::YasudaLife)],
                post: vec![Event::HasAccess(AreaInstance::MainFrame)],
            },
            MilestoneInstance::KillPrimeSeqCeo => Milestone {
                pre: vec![Event::HasAccess(AreaInstance::PrimeSecHQ)],
                post: vec![Event::HasAccess(AreaInstance::MainFrame)],
            },
            MilestoneInstance::KillNichireiCeo => Milestone {
                pre: vec![Event::HasAccess(AreaInstance::NichireiLabs)],
                post: vec![Event::HasAccess(AreaInstance::MainFrame)],
            },
            MilestoneInstance::MilestoneCloseHack => Milestone {
                pre: vec![],
                post: vec![
                    Event::HasAccess(AreaInstance::NichireiLabs),
                    Event::HasAccess(AreaInstance::KayabaRoboticsLabs),
                    Event::HasAccess(AreaInstance::YasudaLife),
                    Event::HasAccess(AreaInstance::PrimeSecHQ),
                ],
            },
        };
        assert(m.pre@ =~= pre_of(instance));
        assert(m.post@ =~= post_of(instance));
        m
    }

    /// The areas that the milestone needs access to.
    pub fn areas(&self) -> (areas: Vec<AreaInstance>)
        ensures
            areas@ == areas_of(self.pre@),
    {
        let mut areas: Vec<AreaInstance> = Vec::new();
        let mut i: usize = 0;
        while i < self.pre.len()
            invariant
                i <= self.pre@.len(),
                areas@ == areas_of(self.pre@.take(i as int)),
            decreases self.pre@.len() - i,
        {
            proof {
                let next = self.pre@.take(i as int + 1);
                assert(next.drop_last() == self.pre@.take(i as int));
                assert(next.last() == self.pre@[i as int]);
            }
            if let Event::HasAccess(a) = self.pre[i] {
                areas.push(a);
            }
            i = i + 1;
        }
        assert(self.pre@.take(i as int) == self.pre@);
        areas
    }

    /// The milestones at hand at the start of an exploration: all of them.
    pub fn create_instance_pool() -> (pool: Vec<MilestoneInstance>)
        ensures
            pool@ == all_milestones(),
    {
        let all = MilestoneInstance::values();
        let mut pool: Vec<MilestoneInstance> = Vec::new();
        let mut i: usize = 0;
        while i < 7
            invariant
                i <= 7,
                all@ == all_milestones(),
                pool@ == all@.take(i as int),
            decreases 7 - i,
        {
            pool.push(all[i]);
            assert(all@.take(i as int + 1) == all@.take(i as int).push(all@[i as int]));
            i = i + 1;
        }
        assert(all@.take(7) == all@);
        pool
    }

    /// Looks at the milestone `curr`. Where it is still at hand, it leaves
    /// the pool and joins the roadmap, and what it makes happen counts as
    /// fulfilled. The result holds the events that it still needs.
    pub fn discover_milestone(
        pool: &mut Vec<MilestoneInstance>,
        curr: MilestoneInstance,
        result: &mut Vec<MilestoneInstance>,
        fulfilled: &mut Vec<Event>,
    ) -> (to_fulfill: Vec<Event>)
        ensures
            ({
                let i = place_in(old(pool)@, curr) as int;
                if i < old(pool)@.len() {
                    &&& final(pool)@ == old(pool)@.remove(i)
                    &&& final(result)@ == old(result)@.push(curr)
                    &&& final(fulfilled)@ == old(fulfilled)@ + post_of(curr)
                    &&& to_fulfill@ == missing(pre_of(curr), final(fulfilled)@)
                } else {
                    &&& final(pool)@ == old(pool)@
                    &&& final(result)@ == old(result)@
                    &&& final(fulfilled)@ == old(fulfilled)@
                    &&& to_fulfill@ == Seq::<Event>::empty()
                }
            }),
    {
        let mut to_fulfill: Vec<Event> = Vec::new();
        let i = find_in_pool(pool, curr);
        if i < pool.len() {
            pool.remove(i);
            let milestone = Milestone::new(curr);
            let mut k: usize = 0;
            assert(milestone.post@.take(0) == Seq::<Event>::empty());
            assert(fulfilled@ + Seq::<Event>::empty() == fulfilled@);
            while k < milestone.post.len()
                invariant
                    k <= milestone.post@.len(),
                    fulfilled@ == old(fulfilled)@ + milestone.post@.take(k as int),
                decreases milestone.post@.len() - k,
            {
                fulfilled.push(milestone.post[k]);
                assert(milestone.post@.take(k as int + 1) == milestone.post@.take(k as int).push(
                    milestone.post@[k as int],
                ));
                k = k + 1;
            }
            assert(milestone.post@.take(k as int) == milestone.post@);
            let mut j: usize = 0;
            while j < milestone.pre.len()
                invariant
                    j <= milestone.pre@.len(),
                    to_fulfill@ == missing(milestone.pre@.take(j as int), fulfilled@),
                decreases milestone.pre@.len() - j,
            {
                proof {
                    let next = milestone.pre@.take(j as int + 1);
                    assert(next.drop_last() == milestone.pre@.take(j as int));
                    assert(next.last() == milestone.pre@[j as int]);
                }
                if !event_among(fulfilled, &milestone.pre[j]) {
                    to_fulfill.push(milestone.pre[j]);
                }
                j = j + 1;
            }
            assert(milestone.pre@.take(j as int) == milestone.pre@);
            result.push(curr);
        }
        to_fulfill
    }

    /// The milestones at hand that make one of the events given happen, in
    /// the order of the pool.
    pub fn collect_fulfilling(pool: &Vec<MilestoneInstance>, to_fulfill: &Vec<Event>) -> (chosen: Vec<
        MilestoneInstance,
    >)
        ensures
            chosen@ == fulfilling(pool@, to_fulfill@),
    {
        let mut chosen: Vec<MilestoneInstance> = Vec::new();
        let mut i: usize = 0;
        while i < pool.len()
            invariant
                i <= pool@.len(),
                chosen@ == fulfilling(pool@.take(i as int), to_fulfill@),
            decreases pool@.len() - i,
        {
            proof {
                let next = pool@.take(i as int + 1);
                assert(next.drop_last() == pool@.take(i as int));
                assert(next.last() == pool@[i as int]);
            }
            let milestone = Milestone::new(pool[i]);
            let mut k: usize = 0;
            let mut hit = false;
            while k < milestone.post.len() && !hit
                invariant
                    k <= milestone.post@.len(),
                    milestone.post@ == post_of(pool@[i as int]),
                    !hit ==> forall|j: int|
                        0 <= j < k ==> !to_fulfill@.contains(#[trigger] milestone.post@[j]),
                    hit ==> any_among(milestone.post@, to_fulfill@),
                decreases milestone.post@.len() - k + (if hit { 0int } else { 1int }),
            {
                if event_among(to_fulfill, &milestone.post[k]) {
                    hit = true;
                } else {
                    k = k + 1;
                }
            }
            if hit {
                chosen.push(pool[i]);
            }
            i = i + 1;
        }
        assert(pool@.take(i as int) == pool@);
        chosen
    }

    /// How many of the milestones chosen make an event happen.
    pub fn calculate_fulfillment(chosen: &Vec<MilestoneInstance>, event: &Event) -> (n: usize)
        ensures
            n == providers(chosen@, *event),
    {
        let mut n: usize = 0;
        let mut i: usize = 0;
        while i < chosen.len()
            invariant
                i <= chosen@.len(),
                n <= i,
                n == providers(chosen@.take(i as int), *event),
            decreases chosen@.len() - i,
        {
            proof {
                let next = chosen@.take(i as int + 1);
                assert(next.drop_last() == chosen@.take(i as int));
                assert(next.last() == chosen@[i as int]);
            }
            let milestone = Milestone::new(chosen[i]);
            if event_among(&milestone.post, event) {
                n = n + 1;
            }
            i = i + 1;
        }
        assert(chosen@.take(i as int) == chosen@);
        n
    }

    /// Whether a milestone is needed among the milestones `alive`.
    pub fn is_needed(alive: &Vec<MilestoneInstance>, instance: MilestoneInstance) -> (b: bool)
        ensures
            b == needed(alive@, instance),
    {
        let milestone = Milestone::new(instance);
        let mut k: usize = 0;
        while k < milestone.post.len()
            invariant
                k <= milestone.post@.len(),
                milestone.post@ == post_of(instance),
                forall|j: int| 0 <= j < k ==> providers(alive@, #[trigger] post_of(instance)[j]) >= 2,
            decreases milestone.post@.len() - k,
        {
            if Milestone::calculate_fulfillment(alive, &milestone.post[k]) < 2 {
                return true;
            }
            k = k + 1;
        }
        false
    }

    /// Draws once for each of `n` milestones and tells the hits. With a
    /// chance of zero nothing is drawn and nothing is a hit.
    pub fn draw_hits(n: usize, prune: u32, rng: &mut rand::ThreadRng) -> (hits: Vec<bool>)
        ensures
            hits@.len() == n,
            prune == 0 ==> forall|k: int| 0 <= k < n ==> !hits@[k],
    {
        let mut hits: Vec<bool> = Vec::new();
        while hits.len() < n
            invariant
                hits@.len() <= n,
                prune == 0 ==> forall|k: int| 0 <= k < hits@.len() ==> !hits@[k],
            decreases n - hits@.len(),
        {
            let hit = prune > 0 && prune > (next_random(rng) & 0x7F_FFFF);
            hits.push(hit);
        }
        hits
    }

    /// The milestones that are kept of those chosen, for the draws given.
    pub fn prune_chosen(chosen: &Vec<MilestoneInstance>, hits: &Vec<bool>) -> (kept: Vec<
        MilestoneInstance,
    >)
        ensures
            kept@ == pruned(chosen@, hits@),
    {
        let mut alive: Vec<MilestoneInstance> = Vec::new();
        let mut i: usize = 0;
        while i < chosen.len()
            invariant
                i <= chosen@.len(),
                alive@ == chosen@.take(i as int),
            decreases chosen@.len() - i,
        {
            alive.push(chosen[i]);
            assert(chosen@.take(i as int + 1) == chosen@.take(i as int).push(chosen@[i as int]));
            i = i + 1;
        }
        assert(chosen@.take(i as int) == chosen@);
        let mut kept: Vec<MilestoneInstance> = Vec::new();
        let mut k: usize = 0;
        proof {
            assert(chosen@.skip(0) == chosen@);
            assert(hits@.skip(0) == hits@);
            assert(Seq::<MilestoneInstance>::empty() + pruned(chosen@, hits@) == pruned(
                chosen@,
                hits@,
            ));
        }
        while k < chosen.len()
            invariant
                k <= chosen@.len(),
                kept@ + prune_from(
                    alive@,
                    chosen@.skip(k as int),
                    if k <= hits@.len() {
                        hits@.skip(k as int)
                    } else {
                        Seq::empty()
                    },
                ) == pruned(chosen@, hits@),
            decreases chosen@.len() - k,
        {
            let instance = chosen[k];
            let hit = k < hits.len() && hits[k];
            let ghost rest = chosen@.skip(k as int);
            let ghost draws = if k <= hits@.len() {
                hits@.skip(k as int)
            } else {
                Seq::<bool>::empty()
            };
            let ghost next_draws = if k + 1 <= hits@.len() {
                hits@.skip(k as int + 1)
            } else {
                Seq::<bool>::empty()
            };
            proof {
                assert(rest[0] == instance);
                assert(rest.skip(1) == chosen@.skip(k as int + 1));
                assert(first_hit(draws) == hit);
                assert(later(draws) == next_draws);
            }
            let ghost tail_kept = prune_from(alive@, rest.skip(1), next_draws);
            if hit && !Milestone::is_needed(&alive, instance) {
                let at = find_in_pool(&alive, instance);
                if at < alive.len() {
                    alive.remove(at);
                }
            } else {
                assert(kept@.push(instance) + tail_kept == kept@ + (seq![instance] + tail_kept));
                kept.push(instance);
            }
            k = k + 1;
        }
        proof {
            assert(chosen@.skip(k as int).len() == 0);
            assert(kept@ + Seq::<MilestoneInstance>::empty() == kept@);
        }
        kept
    }

    /// Prunes the milestones chosen and adds those kept to the milestones
    /// to look at. Each milestone chosen gets one draw; with a chance of
    /// zero every milestone is kept.
    pub fn collect_and_prune(
        chosen: &Vec<MilestoneInstance>,
        open: &mut Vec<MilestoneInstance>,
        prune: u32,
        rng: &mut rand::ThreadRng,
    ) -> (hits: Vec<bool>)
        ensures
            hits@.len() == chosen@.len(),
            final(open)@ == old(open)@ + pruned(chosen@, hits@),
            prune == 0 ==> final(open)@ == old(open)@ + chosen@,
    {
        let hits = Milestone::draw_hits(chosen.len(), prune, rng);
        let kept = Milestone::prune_chosen(chosen, &hits);
        proof {
            if prune == 0 {
                lemma_no_hit_keeps_all(chosen@, chosen@, hits@);
            }
        }
        let mut k: usize = 0;
        assert(kept@.take(0) == Seq::<MilestoneInstance>::empty());
        assert(open@ + Seq::<MilestoneInstance>::empty() == open@);
        while k < kept.len()
            invariant
                k <= kept@.len(),
                open@ == old(open)@ + kept@.take(k as int),
            decreases kept@.len() - k,
        {
            open.push(kept[k]);
            assert(kept@.take(k as int + 1) == kept@.take(k as int).push(kept@[k as int]));
            k = k + 1;
        }
        assert(kept@.take(k as int) == kept@);
        hits
    }

    /// A roadmap for a goal in which milestones that are not needed are
    /// left out at random. `prune` is the chance, in parts of
    /// [`PRUNE_ALWAYS`], that a milestone that is not needed is left out.
    ///
    /// Whatever is drawn, the result is that of the exploration with
    /// pruning for some draws; with a chance of zero it is the roadmap
    /// without pruning.
    pub fn generate_random_roadmap(
        root: MilestoneInstance,
        prune: u32,
        rng: &mut rand::ThreadRng,
    ) -> (r: Option<Roadmap>)
        ensures
            exists|hits: Seq<Seq<bool>>|
                match r {
                    Some(roadmap) => #[trigger] random_roadmap_of(root, hits) == Some(
                        roadmap.entries@,
                    ),
                    None => random_roadmap_of(root, hits).is_none(),
                },
            prune == 0 ==> match r {
                Some(roadmap) => roadmap_of(root) == Some(roadmap.entries@),
                None => roadmap_of(root).is_none(),
            },
    {
        let mut pool = Milestone::create_instance_pool();
        let mut result: Vec<MilestoneInstance> = Vec::new();
        let mut open: Vec<MilestoneInstance> = Vec::new();
        open.push(root);
        let mut fulfilled: Vec<Event> = Vec::new();
        let ghost mut used: Seq<Seq<bool>> = Seq::empty();
        proof {
            assert(open@ == seq![root]);
            assert forall|tail: Seq<Seq<bool>>| #[trigger]
                explore_pruned(
                    Exploration {
                        pool: pool@,
                        open: open@,
                        fulfilled: fulfilled@,
                        result: result@,
                    },
                    tail,
                ) == random_roadmap_of(root, used + tail) by {
                assert(used + tail == tail);
            }
        }
        while open.len() > 0
            invariant
                forall|tail: Seq<Seq<bool>>| #[trigger]
                    explore_pruned(
                        Exploration {
                            pool: pool@,
                            open: open@,
                            fulfilled: fulfilled@,
                            result: result@,
                        },
                        tail,
                    ) == random_roadmap_of(root, used + tail),
                prune == 0 ==> explore(
                    Exploration {
                        pool: pool@,
                        open: open@,
                        fulfilled: fulfilled@,
                        result: result@,
                    },
                ) == roadmap_of(root),
            decreases pool@.len(), open@.len(),
        {
            let ghost before = Exploration {
                pool: pool@,
                open: open@,
                fulfilled: fulfilled@,
                result: result@,
            };
            let ghost used_before = used;
            let curr = open.pop().unwrap();
            let to_fulfill = Milestone::discover_milestone(
                &mut pool,
                curr,
                &mut result,
                &mut fulfilled,
            );
            if to_fulfill.len() > 0 {
                let chosen = Milestone::collect_fulfilling(&pool, &to_fulfill);
                if chosen.len() == 0 {
                    proof {
                        let none = Seq::<Seq<bool>>::empty();
                        assert(explore_pruned(before, none).is_none());
                        assert(used + none == used);
                        assert(random_roadmap_of(root, used).is_none());
                    }
                    return None;
                }
                let hits = Milestone::collect_and_prune(&chosen, &mut open, prune, rng);
                proof {
                    used = used_before.push(hits@);
                    let after = Exploration {
                        pool: pool@,
                        open: open@,
                        fulfilled: fulfilled@,
                        result: result@,
                    };
                    assert forall|tail: Seq<Seq<bool>>| #[trigger]
                        explore_pruned(after, tail) == random_roadmap_of(root, used + tail) by {
                        let all = seq![hits@] + tail;
                        assert(all[0] == hits@);
                        assert(later(all) == tail);
                        assert(used_before + all == used + tail);
                        assert(explore_pruned(before, all) == explore_pruned(after, tail));
                    }
                }
            } else {
                proof {
                    let after = Exploration {
                        pool: pool@,
                        open: open@,
                        fulfilled: fulfilled@,
                        result: result@,
                    };
                    assert forall|tail: Seq<Seq<bool>>| #[trigger]
                        explore_pruned(after, tail) == random_roadmap_of(root, used + tail) by {
                        assert(explore_pruned(before, tail) == explore_pruned(after, tail));
                    }
                }
            }
        }
        proof {
            let none = Seq::<Seq<bool>>::empty();
            let at_end = Exploration {
                pool: pool@,
                open: open@,
                fulfilled: fulfilled@,
                result: result@,
            };
            assert(explore_pruned(at_end, none) == Some(result@));
            assert(used + none == used);
            assert(random_roadmap_of(root, used) == Some(result@));
        }
        Some(Roadmap { entries: result })
    }

    /// The roadmap for a goal: the milestones that lead to it, the goal
    /// first. None where some event that is needed cannot be made to happen.
    pub fn generate_roadmap(root: MilestoneInstance) -> (r: Option<Roadmap>)
        ensures
            match r {
                Some(roadmap) => roadmap_of(root) == Some(roadmap.entries@),
                None => roadmap_of(root).is_none(),
            },
    {
        let mut pool = Milestone::create_instance_pool();
        let mut result: Vec<MilestoneInstance> = Vec::new();
        let mut open: Vec<MilestoneInstance> = Vec::new();
        open.push(root);
        let mut fulfilled: Vec<Event> = Vec::new();
        assert(open@ == seq![root]);
        while open.len() > 0
            invariant
                explore(
                    Exploration {
                        pool: pool@,
                        open: open@,
                        fulfilled: fulfilled@,
                        result: result@,
                    },
                ) == roadmap_of(root),
            decreases pool@.len(), open@.len(),
        {
            let ghost before = Exploration {
                pool: pool@,
                open: open@,
                fulfilled: fulfilled@,
                result: result@,
            };
            let curr = open.pop().unwrap();
            let to_fulfill = Milestone::discover_milestone(
                &mut pool,
                curr,
                &mut result,
                &mut fulfilled,
            );
            if to_fulfill.len() > 0 {
                let chosen = Milestone::collect_fulfilling(&pool, &to_fulfill);
                if chosen.len() == 0 {
                    return None;
                }
                let mut k: usize = 0;
                let ghost rest = open@;
                assert(chosen@.take(0) == Seq::<MilestoneInstance>::empty());
                assert(rest + Seq::<MilestoneInstance>::empty() == rest);
                while k < chosen.len()
                    invariant
                        k <= chosen@.len(),
                        open@ == rest + chosen@.take(k as int),
                    decreases chosen@.len() - k,
                {
                    open.push(chosen[k]);
                    assert(chosen@.take(k as int + 1) == chosen@.take(k as int).push(
                        chosen@[k as int],
                    ));
                    k = k + 1;
                }
                assert(chosen@.take(k as int) == chosen@);
            }
        }
        Some(Roadmap { entries: result })
    }
}

} // verus!
