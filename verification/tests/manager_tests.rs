use btracked::manager::TrackingManager;

type Manager = TrackingManager<u32, u32>;

#[test]
fn new_instance_then_stop_leaves_registry_empty() {
    let mut m: Manager = TrackingManager::new();
    m.new_instance("lab".to_owned(), "floor1".to_owned(), 7);
    assert_eq!(m.num_instances(), 1);
    m.stop_instance(&"lab".to_owned());
    assert_eq!(m.num_instances(), 0);
}

#[test]
fn repeated_stop_is_a_no_op() {
    let mut m: Manager = TrackingManager::new();
    m.new_instance("lab".to_owned(), "floor1".to_owned(), 7);
    m.stop_instance(&"lab".to_owned());
    m.stop_instance(&"lab".to_owned());
    assert_eq!(m.num_instances(), 0);
    m.stop_instance(&"never-there".to_owned());
    assert_eq!(m.num_instances(), 0);
}

#[test]
fn registering_the_same_name_replaces_the_entry() {
    let mut m: Manager = TrackingManager::new();
    m.new_instance("lab".to_owned(), "floor1".to_owned(), 7);
    m.new_instance("lab".to_owned(), "floor2".to_owned(), 8);
    assert_eq!(m.num_instances(), 1);
    let i = m.get_instance_index(&"lab".to_owned()).unwrap();
    assert_eq!(m.instances[i].map_key, "floor2");
    assert_eq!(m.instances[i].handle, 8);
}

#[test]
fn stop_removes_only_the_named_instance() {
    let mut m: Manager = TrackingManager::new();
    m.new_instance("a".to_owned(), "m1".to_owned(), 1);
    m.new_instance("b".to_owned(), "m2".to_owned(), 2);
    m.new_instance("c".to_owned(), "m3".to_owned(), 3);
    m.stop_instance(&"b".to_owned());
    assert_eq!(m.num_instances(), 2);
    assert!(m.get_instance_index(&"a".to_owned()).is_some());
    assert!(m.get_instance_index(&"b".to_owned()).is_none());
    assert!(m.get_instance_index(&"c".to_owned()).is_some());
}

#[test]
fn sims_attach_replace_and_detach() {
    let mut m: Manager = TrackingManager::new();
    m.new_instance("lab".to_owned(), "floor1".to_owned(), 1);
    assert!(m.new_sim(&"lab".to_owned(), "walker".to_owned(), 10));
    assert!(m.new_sim(&"lab".to_owned(), "runner".to_owned(), 20));
    assert!(m.new_sim(&"lab".to_owned(), "walker".to_owned(), 30));
    assert!(!m.new_sim(&"ghost".to_owned(), "walker".to_owned(), 40));

    let i = m.get_instance_index(&"lab".to_owned()).unwrap();
    assert_eq!(m.instances[i].sims.len(), 2);
    assert_eq!(m.instances[i].sims[0], ("walker".to_owned(), 30));
    assert_eq!(m.instances[i].sims[1], ("runner".to_owned(), 20));

    m.stop_sim(&"lab".to_owned(), &"walker".to_owned());
    let i = m.get_instance_index(&"lab".to_owned()).unwrap();
    assert_eq!(m.instances[i].sims.len(), 1);
    assert_eq!(m.instances[i].sims[0].0, "runner");
    m.stop_sim(&"lab".to_owned(), &"gone".to_owned());
    assert_eq!(m.instances[i].sims.len(), 1);
}

#[test]
fn summary_reports_every_instance() {
    let mut m: Manager = TrackingManager::new();
    m.new_instance("a".to_owned(), "m1".to_owned(), 1);
    m.new_instance("b".to_owned(), "m2".to_owned(), 2);
    m.new_sim(&"b".to_owned(), "walker".to_owned(), 9);

    let summary = m.summary();
    assert_eq!(summary.len(), 2);
    assert_eq!(summary[0].name, "a");
    assert_eq!(summary[0].map_key, "m1");
    assert!(summary[0].attached_simulations.is_empty());
    assert_eq!(summary[1].name, "b");
    assert_eq!(summary[1].map_key, "m2");
    assert_eq!(summary[1].attached_simulations, vec!["walker".to_owned()]);
}
