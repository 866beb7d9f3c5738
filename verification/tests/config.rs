use sulphur::asset::Asset;
use sulphur::game_data::GameData;
use sulphur::instance::Instance;
use sulphur::metadata::Metadata;
use sulphur::sulphur_config::SulphurConfig;
use sulphur::time::{Duration, Timestamp};

fn inst(name: &str, playtime_secs: u64, last_played_secs: Option<u64>) -> Instance {
    Instance {
        metadata: Metadata {
            name: name.to_string(),
            image: None,
            playtime: Duration { secs: playtime_secs, nanos: 0 },
            last_played: last_played_secs.map(|s| Timestamp { secs: s, nanos: 0 }),
            last_session_duration: None,
        },
        gamedata: GameData {
            iwads: Vec::new(),
            mods: Vec::new(),
            savedir: format!("saves/{}", name),
            additional_params: Vec::new(),
        },
    }
}

fn store() -> SulphurConfig {
    let mut c = SulphurConfig::new();
    c.add_instance(inst("short", 10, Some(500)));
    c.add_instance(inst("never", 0, None));
    c.add_instance(inst("long", 900, Some(100)));
    c.add_instance(inst("mid", 40, Some(900)));
    c
}

#[test]
fn new_store_defaults() {
    let c = SulphurConfig::new();
    assert_eq!(c.get_command(), "gzdoom");
    assert!(c.get_instances().is_empty());
}

#[test]
fn command_can_be_replaced() {
    let mut c = SulphurConfig::new();
    c.set_command("chocolate-doom".to_string());
    assert_eq!(c.get_command(), "chocolate-doom");
}

#[test]
fn played_state_partitions_instances() {
    let c = store();
    assert_eq!(c.get_played_instances(), vec![0, 2, 3]);
    assert_eq!(c.get_unplayed_instances(), vec![1]);
    assert_eq!(c.get_instances_with_played_state(true), vec![0, 2, 3]);
}

#[test]
fn indices_sorted_by_playtime() {
    let c = store();
    // Longest playtime first; the unplayed instance is left out.
    assert_eq!(c.get_indices_by_playtime(), vec![2, 3, 0]);
}

#[test]
fn indices_sorted_by_last_played() {
    let c = store();
    // Most recently played first.
    assert_eq!(c.get_indices_by_last_played(), vec![3, 0, 2]);
}

#[test]
fn add_and_remove_instances() {
    let mut c = store();
    let idx = c.add_instance(inst("extra", 1, None));
    assert_eq!(idx, 4);
    assert_eq!(c.get_instances().len(), 5);
    c.remove_instance(0);
    // Removal swaps the last instance into the hole.
    assert_eq!(c.get_instances()[0].metadata.name, "extra");
    assert_eq!(c.get_instances().len(), 4);
}

#[test]
fn instances_can_be_edited_in_place() {
    let mut c = store();
    {
        let m = c.get_instance_mut(1);
        m.gamedata.mods.push(Asset::new("mods/x.pk3".to_string(), true));
    }
    assert_eq!(c.get_instances()[1].gamedata.mods.len(), 1);
}
