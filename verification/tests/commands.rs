use sulphur::asset::{Asset, AssetKind};
use sulphur::game_data::GameData;
use sulphur::instance::Instance;
use sulphur::metadata::Metadata;
use sulphur::savedir::Savedir;
use sulphur::store::StoreRoot;
use sulphur::time::{Duration, Timestamp};

fn root() -> StoreRoot {
    StoreRoot::new("/data/sulphur".to_string()).expect("absolute root")
}

fn command_instance() -> Instance {
    Instance {
        metadata: Metadata {
            name: "Test".to_string(),
            image: None,
            playtime: Duration { secs: 0, nanos: 0 },
            last_played: None,
            last_session_duration: None,
        },
        gamedata: GameData {
            iwads: vec![Asset::new("iwads/doom2.wad".to_string(), true)],
            mods: vec![
                Asset::new("mods/a.pk3".to_string(), true),
                Asset::new("mods/b.pk3".to_string(), true),
                Asset::new("mods/off.pk3".to_string(), false),
            ],
            savedir: "saves/Test".to_string(),
            additional_params: vec!["-skill".to_string(), "4".to_string()],
        },
    }
}

#[test]
fn argument_assembly() {
    let inst = command_instance();
    let cmd = inst.get_full_command("gzdoom", &root());
    let expected = "gzdoom -iwad \"/data/sulphur/iwads/doom2.wad\" -file \"/data/sulphur/mods/a.pk3\" -file \"/data/sulphur/mods/b.pk3\" -savedir \"/data/sulphur/saves/Test\" -skill 4";
    assert_eq!(cmd, expected);
}

#[test]
fn disabled_assets_add_no_tokens() {
    let mut inst = command_instance();
    for m in inst.gamedata.mods.iter_mut() {
        m.toggle();
    }
    let params = inst.gamedata.get_mods_parameters(&root());
    assert_eq!(params, "-file \"/data/sulphur/mods/off.pk3\"");
    inst.gamedata.mods.clear();
    assert_eq!(inst.gamedata.get_mods_parameters(&root()), "");
}

#[test]
fn toggle_flips_only_the_flag() {
    let mut a = Asset::new("mods/a.pk3".to_string(), true);
    a.toggle();
    assert!(!a.enabled);
    assert_eq!(a.path, "mods/a.pk3");
    a.toggle();
    assert!(a.enabled);
}

#[test]
fn absolute_paths_pass_through() {
    let a = Asset::new("/elsewhere/x.pk3".to_string(), true);
    assert_eq!(a.get_absolute_path(root().as_str()), "/elsewhere/x.pk3");
    let b = Asset::new("mods/x.pk3".to_string(), true);
    assert_eq!(b.get_absolute_path(root().as_str()), "/data/sulphur/mods/x.pk3");
}

#[test]
fn relocation_rewrites_to_category() {
    let mut a = Asset::new("/downloads/foo.pk3".to_string(), true);
    let plan = a
        .relocation_plan(AssetKind::Mod, &root())
        .expect("path has a basename");
    assert_eq!(plan.source, "/downloads/foo.pk3");
    assert_eq!(plan.dest_dir, "/data/sulphur/mods");
    assert_eq!(plan.dest, "/data/sulphur/mods/foo.pk3");
    assert_eq!(plan.new_path, "mods/foo.pk3");
    a.apply_relocation(&plan);
    assert_eq!(a.path, "mods/foo.pk3");
    assert!(a.enabled);

    let iw = Asset::new("/downloads/doom.wad".to_string(), false);
    let plan2 = iw.relocation_plan(AssetKind::Iwad, &root()).unwrap();
    assert_eq!(plan2.new_path, "iwads/doom.wad");
}

#[test]
fn relocation_needs_a_basename() {
    let a = Asset::new("..".to_string(), true);
    assert!(a.relocation_plan(AssetKind::Mod, &root()).is_none());
    // A trailing separator is ignored, as std reads file names.
    let b = Asset::new("/downloads/foo.pk3/".to_string(), true);
    let plan = b.relocation_plan(AssetKind::Mod, &root()).unwrap();
    assert_eq!(plan.new_path, "mods/foo.pk3");
}

#[test]
fn category_names_and_prefixes() {
    assert_eq!(AssetKind::Mod.get_dir_name(), "mods");
    assert_eq!(AssetKind::Iwad.get_dir_name(), "iwads");
    assert_eq!(AssetKind::Mod.get_prefix(), "-file");
    assert_eq!(AssetKind::Iwad.get_prefix(), "-iwad");
    assert_eq!(Savedir::get_dir_name(), "saves");
    assert_eq!(Savedir::get(&root()), "/data/sulphur/saves");
}

#[test]
fn savedir_initialization_is_canonical() {
    let mut inst = command_instance();
    inst.gamedata.savedir = "/somewhere/else".to_string();
    inst.initialize_savedir();
    assert_eq!(inst.gamedata.savedir, "saves/Test");
    assert_eq!(
        inst.gamedata.get_absolute_savedir(&root()),
        "/data/sulphur/saves/Test"
    );
}

#[test]
fn sessions_accumulate_playtime() {
    let mut inst = command_instance();
    inst.metadata.playtime = Duration { secs: 10, nanos: 900_000_000 };
    inst.begin_session(Timestamp { secs: 50, nanos: 0 });
    assert_eq!(inst.metadata.last_played, Some(Timestamp { secs: 50, nanos: 0 }));
    inst.end_session(Some(Duration { secs: 1, nanos: 200_000_000 }));
    assert_eq!(inst.metadata.playtime, Duration { secs: 12, nanos: 100_000_000 });
    assert_eq!(
        inst.metadata.last_session_duration,
        Some(Duration { secs: 1, nanos: 200_000_000 })
    );
    inst.end_session(None);
    assert_eq!(inst.metadata.playtime, Duration { secs: 12, nanos: 100_000_000 });
    assert_eq!(inst.metadata.last_session_duration, None);
}
