use tower_tactics::progress::{
    Area, AreaInstance, Event, Milestone, MilestoneInstance, Roadmap, PRUNE_ALWAYS,
};
use tower_tactics::progress::MilestoneInstance::{
    KillKayabaCeo, KillNichireiCeo, KillPrimeSeqCeo, KillYasudaCeo, MilestoneCloseHack, TheHeist,
    AAA,
};
use tower_tactics::tower::Level;

fn gen_map(instance: MilestoneInstance) -> Option<Roadmap> {
    Milestone::generate_roadmap(instance)
}

#[test]
fn trivial_roadmap() {
    let single_node = gen_map(MilestoneCloseHack).unwrap();
    assert!(single_node.len() == 1);
    assert!(single_node.get(&MilestoneCloseHack).is_some());
}

#[test]
fn simple_roadmap() {
    let single_node = gen_map(KillNichireiCeo).unwrap();
    assert!(single_node.len() == 2);
    assert!(single_node.get(&KillNichireiCeo).is_some());
    assert!(single_node.get(&MilestoneCloseHack).is_some());
}

#[test]
fn full_roadmap() {
    let single_node = gen_map(TheHeist).unwrap();
    assert!(single_node.len() == 7, "should be 7 but was {}", single_node.len());
    assert!(single_node.get(&TheHeist).is_some());
    assert!(single_node.get(&AAA).is_some());
    assert!(single_node.get(&KillPrimeSeqCeo).is_some());
    assert!(single_node.get(&KillNichireiCeo).is_some());
    assert!(single_node.get(&KillKayabaCeo).is_some());
    assert!(single_node.get(&KillYasudaCeo).is_some());
    assert!(single_node.get(&MilestoneCloseHack).is_some());
}

#[test]
fn roadmap_starts_with_its_goal() {
    let map = gen_map(TheHeist).unwrap();
    assert_eq!(
        map.entries,
        vec![
            TheHeist,
            AAA,
            KillKayabaCeo,
            MilestoneCloseHack,
            KillYasudaCeo,
            KillPrimeSeqCeo,
            KillNichireiCeo
        ]
    );
    assert!(map.get(&TheHeist).unwrap().post == vec![Event::GameWon]);
}

#[test]
fn roadmap_lacks_what_the_goal_does_not_need() {
    let map = gen_map(KillYasudaCeo).unwrap();
    assert_eq!(map.entries, vec![KillYasudaCeo, MilestoneCloseHack]);
    assert!(map.get(&TheHeist).is_none());
}

#[test]
fn milestone_tables() {
    let heist = Milestone::new(MilestoneInstance::TheHeist);
    assert_eq!(heist.pre, vec![Event::HasAccess(AreaInstance::FuyoPenthouse)]);
    assert_eq!(heist.areas(), vec![AreaInstance::FuyoPenthouse]);
    let hack = Milestone::new(MilestoneInstance::MilestoneCloseHack);
    assert!(hack.pre.is_empty());
    assert_eq!(hack.post.len(), 4);
    assert!(hack.areas().is_empty());
    assert_eq!(MilestoneInstance::values().len(), 7);
    assert_eq!(AreaInstance::values().len(), 10);
    assert_eq!(Milestone::create_instance_pool(), MilestoneInstance::values().to_vec());
}

#[test]
fn areas_span_levels() {
    let a = Area::from_instance(AreaInstance::MainFrame);
    assert_eq!(a, Area::new(Level::Tower(5), Level::Tower(8)));
    let b = Area::from_instance(AreaInstance::Entrance);
    assert_eq!((b.min_level, b.max_level), (Level::Tower(0), Level::Tower(0)));
}

fn gen_rand_map(instance: MilestoneInstance, prune: u32) -> Option<Roadmap> {
    Milestone::generate_random_roadmap(instance, prune, &mut rand::thread_rng())
}

#[test]
fn fully_pruned_roadmap() {
    let single_node = gen_rand_map(TheHeist, PRUNE_ALWAYS).unwrap();
    assert!(single_node.len() == 4, "should be 4 but was {}", single_node.len());
    assert!(single_node.get(&TheHeist).is_some());
    assert!(single_node.get(&AAA).is_some());
    assert!(single_node
        .get(&KillPrimeSeqCeo)
        .or(single_node.get(&KillNichireiCeo))
        .or(single_node.get(&KillKayabaCeo))
        .or(single_node.get(&KillYasudaCeo))
        .is_some());
    assert!(single_node.get(&MilestoneCloseHack).is_some());
}

#[test]
fn fully_unpruned_roadmap() {
    let single_node = gen_rand_map(TheHeist, 0).unwrap();
    assert!(single_node.len() == 7, "should be 7 but was {}", single_node.len());
    assert!(single_node.get(&TheHeist).is_some());
    assert!(single_node.get(&AAA).is_some());
    assert!(single_node.get(&KillPrimeSeqCeo).is_some());
    assert!(single_node.get(&KillNichireiCeo).is_some());
    assert!(single_node.get(&KillKayabaCeo).is_some());
    assert!(single_node.get(&KillYasudaCeo).is_some());
    assert!(single_node.get(&MilestoneCloseHack).is_some());
}

#[test]
fn randomly_pruned_roadmap_keeps_a_way_to_the_goal() {
    for _ in 0..40 {
        let map = gen_rand_map(TheHeist, PRUNE_ALWAYS / 2).unwrap();
        assert!(map.len() >= 4 && map.len() <= 7);
        assert_eq!(map.entries[0], TheHeist);
        assert!(map.get(&AAA).is_some());
        assert!(map.get(&MilestoneCloseHack).is_some());
    }
}

#[test]
fn pruning_drops_what_is_not_needed() {
    let chosen = vec![KillNichireiCeo, KillPrimeSeqCeo, KillYasudaCeo, KillKayabaCeo];
    let main_frame = Event::HasAccess(AreaInstance::MainFrame);
    assert_eq!(Milestone::calculate_fulfillment(&chosen, &main_frame), 4);
    assert_eq!(Milestone::calculate_fulfillment(&chosen, &Event::GameWon), 0);
    assert!(!Milestone::is_needed(&chosen, KillYasudaCeo));
    assert!(Milestone::is_needed(&vec![KillYasudaCeo], KillYasudaCeo));
    assert!(Milestone::is_needed(&chosen, TheHeist));
    assert_eq!(Milestone::prune_chosen(&chosen, &vec![false, false, false, false]), chosen);
    assert_eq!(Milestone::prune_chosen(&chosen, &vec![]), chosen);
    assert_eq!(Milestone::prune_chosen(&chosen, &vec![true, true, true, true]), vec![KillKayabaCeo]);
    assert_eq!(
        Milestone::prune_chosen(&chosen, &vec![true, false, true, false]),
        vec![KillPrimeSeqCeo, KillKayabaCeo]
    );
    assert_eq!(Milestone::prune_chosen(&vec![], &vec![true]), vec![]);
    let mut rng = rand::thread_rng();
    assert_eq!(Milestone::draw_hits(3, 0, &mut rng), vec![false, false, false]);
    assert_eq!(Milestone::draw_hits(3, PRUNE_ALWAYS, &mut rng), vec![true, true, true]);
    let mut open = vec![AAA];
    let hits = Milestone::collect_and_prune(&chosen, &mut open, PRUNE_ALWAYS, &mut rng);
    assert_eq!(hits, vec![true, true, true, true]);
    assert_eq!(open, vec![AAA, KillKayabaCeo]);
}
