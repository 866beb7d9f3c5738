use sulphur::asset::Asset;
use sulphur::game_data::GameData;
use sulphur::instance::Instance;
use sulphur::metadata::Metadata;
use sulphur::package::{files_to_write, ExtractFile, PackError, SaveFile, UnpackError};
use sulphur::time::{Duration, Timestamp};

fn sample_instance() -> Instance {
    Instance {
        metadata: Metadata {
            name: "My Doom".to_string(),
            image: Some("/pics/cover.png".to_string()),
            playtime: Duration { secs: 3600, nanos: 250 },
            last_played: Some(Timestamp { secs: 1_700_000_000, nanos: 99 }),
            last_session_duration: Some(Duration { secs: 120, nanos: 0 }),
        },
        gamedata: GameData {
            iwads: vec![Asset::new("/wads/doom2.wad".to_string(), true)],
            mods: vec![
                Asset::new("/wads/a.pk3".to_string(), true),
                Asset::new("/wads/b.pk3".to_string(), false),
            ],
            savedir: "/old/savedir".to_string(),
            additional_params: vec!["-fast".to_string()],
        },
    }
}

#[test]
fn round_trip_preserves_instance() {
    let inst = sample_instance();
    let saves = vec![SaveFile { name: "slot1.zds".to_string(), data: vec![1, 2, 3] }];
    let mod_datas = vec![vec![10u8, 11], vec![12u8]];
    let iwad_datas = vec![vec![20u8, 21, 22]];
    let bytes = inst
        .save_brimpkg(true, true, &saves, &mod_datas, &iwad_datas)
        .expect("pack should succeed");

    let (got, files) = Instance::load_brimpkg(bytes.as_slice()).expect("unpack should succeed");

    assert_eq!(got.metadata.name, "My Doom");
    assert_eq!(got.metadata.image, Some("/pics/cover.png".to_string()));
    assert_eq!(got.metadata.playtime, Duration { secs: 3600, nanos: 250 });
    assert_eq!(got.metadata.last_played, Some(Timestamp { secs: 1_700_000_000, nanos: 99 }));
    assert_eq!(got.metadata.last_session_duration, Some(Duration { secs: 120, nanos: 0 }));
    assert_eq!(got.gamedata.savedir, "saves/My Doom");
    assert_eq!(got.gamedata.iwads.len(), 1);
    assert_eq!(got.gamedata.iwads[0].path, "iwads/doom2.wad");
    assert!(got.gamedata.iwads[0].enabled);
    assert_eq!(got.gamedata.mods.len(), 2);
    assert_eq!(got.gamedata.mods[0].path, "mods/a.pk3");
    assert!(got.gamedata.mods[0].enabled);
    assert_eq!(got.gamedata.mods[1].path, "mods/b.pk3");
    assert!(!got.gamedata.mods[1].enabled);
    assert_eq!(got.gamedata.additional_params, vec!["-fast".to_string()]);

    // Every referenced file's bytes come back out, under the right paths.
    let find = |dir: &str, name: &str| -> &ExtractFile {
        files
            .iter()
            .find(|f| f.rel_dir == dir && f.name == name)
            .unwrap_or_else(|| panic!("missing extracted file {}/{}", dir, name))
    };
    assert_eq!(find("mods", "a.pk3").data, vec![10, 11]);
    assert_eq!(find("mods", "b.pk3").data, vec![12]);
    assert_eq!(find("iwads", "doom2.wad").data, vec![20, 21, 22]);
    assert_eq!(find("saves/My Doom", "slot1.zds").data, vec![1, 2, 3]);
    assert_eq!(files.len(), 4);
}

#[test]
fn round_trip_keeps_awkward_names() {
    let mut inst = sample_instance();
    inst.metadata.name = "quo\"te \\ new\nline".to_string();
    inst.gamedata.additional_params = vec!["-warp \"1\"".to_string()];
    let bytes = inst
        .save_brimpkg(false, true, &Vec::new(), &vec![vec![1], vec![2]], &vec![vec![3]])
        .expect("pack should succeed");
    let (got, _) = Instance::load_brimpkg(bytes.as_slice()).expect("unpack should succeed");
    assert_eq!(got.metadata.name, "quo\"te \\ new\nline");
    assert_eq!(got.gamedata.additional_params, vec!["-warp \"1\"".to_string()]);
    assert_eq!(got.gamedata.savedir, "saves/quo\"te \\ new\nline");
}

#[test]
fn playtime_suppressed_when_not_transferred() {
    let inst = sample_instance();
    let bytes = inst
        .save_brimpkg(false, false, &Vec::new(), &vec![vec![1], vec![2]], &vec![vec![3]])
        .expect("pack should succeed");
    let (got, _) = Instance::load_brimpkg(bytes.as_slice()).expect("unpack should succeed");
    assert_eq!(got.metadata.playtime, Duration { secs: 0, nanos: 0 });
    assert_eq!(got.metadata.last_played, None);
    assert_eq!(got.metadata.last_session_duration, None);
}

#[test]
fn saves_left_out_without_transfer() {
    let inst = sample_instance();
    let saves = vec![SaveFile { name: "slot1.zds".to_string(), data: vec![9] }];
    let bytes = inst
        .save_brimpkg(false, true, &saves, &vec![vec![1], vec![2]], &vec![vec![3]])
        .expect("pack should succeed");
    let (_, files) = Instance::load_brimpkg(bytes.as_slice()).expect("unpack should succeed");
    assert!(files.iter().all(|f| !f.rel_dir.starts_with("saves")));
    assert_eq!(files.len(), 3);
}

#[test]
fn missing_entry_rejected() {
    // A well-formed archive that is not a package: no instance entry.
    let mut w = zip::ZipWriter::new(std::io::Cursor::new(Vec::new()));
    w.start_file("foo.txt", zip::write::SimpleFileOptions::default()).unwrap();
    std::io::Write::write_all(&mut w, b"hello").unwrap();
    let bytes = w.finish().unwrap().into_inner();
    match Instance::load_brimpkg(bytes.as_slice()) {
        Err(UnpackError::MissingEntry) => {},
        other => panic!("expected MissingEntry, got {:?}", other.map(|_| ())),
    }
}

#[test]
fn garbage_bytes_rejected() {
    match Instance::load_brimpkg(b"definitely not an archive") {
        Err(UnpackError::BadArchive) => {},
        other => panic!("expected BadArchive, got {:?}", other.map(|_| ())),
    }
}

#[test]
fn malformed_record_rejected() {
    let mut w = zip::ZipWriter::new(std::io::Cursor::new(Vec::new()));
    w.start_file("instance.toml", zip::write::SimpleFileOptions::default()).unwrap();
    std::io::Write::write_all(&mut w, b"name but not a record\n").unwrap();
    let bytes = w.finish().unwrap().into_inner();
    match Instance::load_brimpkg(bytes.as_slice()) {
        Err(UnpackError::BadRecord) => {},
        other => panic!("expected BadRecord, got {:?}", other.map(|_| ())),
    }
}

#[test]
fn missing_filename_fails_pack() {
    let mut inst = sample_instance();
    inst.gamedata.mods[0] = Asset::new("..".to_string(), true);
    let r = inst.save_brimpkg(false, true, &Vec::new(), &vec![vec![1], vec![2]], &vec![vec![3]]);
    match r {
        Err(PackError::MissingFileName) => {},
        other => panic!("expected MissingFileName, got {:?}", other.map(|_| ())),
    }
}

#[test]
fn trailing_separator_assets_still_pack() {
    // std reads "/wads/a.pk3/" as the file name "a.pk3"; export does too.
    let mut inst = sample_instance();
    inst.gamedata.mods[0] = Asset::new("/wads/a.pk3/".to_string(), true);
    let bytes = inst
        .save_brimpkg(false, true, &Vec::new(), &vec![vec![1], vec![2]], &vec![vec![3]])
        .expect("pack should succeed");
    let (got, _) = Instance::load_brimpkg(bytes.as_slice()).expect("unpack should succeed");
    assert_eq!(got.gamedata.mods[0].path, "mods/a.pk3");
}

#[test]
fn import_rederives_every_reference() {
    // A hand-edited record may embed absolute or degenerate paths; every
    // reference is still forced under its category directory.
    let mut inst = sample_instance();
    inst.gamedata.mods[0] = Asset::new("/abs/".to_string(), true);
    inst.gamedata.mods[1] = Asset::new("..".to_string(), false);
    inst.gamedata.iwads[0] = Asset::new("/etc/shadow".to_string(), true);
    let record = sulphur::record::encode_record(&inst);
    let mut w = zip::ZipWriter::new(std::io::Cursor::new(Vec::new()));
    w.start_file("instance.toml", zip::write::SimpleFileOptions::default()).unwrap();
    std::io::Write::write_all(&mut w, record.as_bytes()).unwrap();
    let bytes = w.finish().unwrap().into_inner();
    let (got, _) = Instance::load_brimpkg(bytes.as_slice()).expect("unpack should succeed");
    assert_eq!(got.gamedata.mods[0].path, "mods/abs");
    assert_eq!(got.gamedata.mods[1].path, "mods/");
    assert_eq!(got.gamedata.iwads[0].path, "iwads/shadow");
}

#[test]
fn unsupported_save_name_fails_pack() {
    let inst = sample_instance();
    let saves = vec![SaveFile { name: "".to_string(), data: vec![] }];
    let r = inst.save_brimpkg(true, true, &saves, &vec![vec![1], vec![2]], &vec![vec![3]]);
    match r {
        Err(PackError::UnsupportedName) => {},
        other => panic!("expected UnsupportedName, got {:?}", other.map(|_| ())),
    }
}

#[test]
fn import_never_overwrites_existing() {
    let files = vec![
        ExtractFile { rel_dir: "mods".to_string(), name: "a.pk3".to_string(), data: vec![1] },
        ExtractFile { rel_dir: "mods".to_string(), name: "b.pk3".to_string(), data: vec![2] },
        ExtractFile { rel_dir: "".to_string(), name: "loose".to_string(), data: vec![3] },
    ];
    let existing = vec!["mods/a.pk3".to_string()];
    let out = files_to_write(&files, &existing);
    assert_eq!(out.len(), 2);
    assert_eq!(out[0].name, "b.pk3");
    assert_eq!(out[1].name, "loose");

    // Importing the same set again, once everything exists, writes nothing.
    let all = vec![
        "mods/a.pk3".to_string(),
        "mods/b.pk3".to_string(),
        "loose".to_string(),
    ];
    let out2 = files_to_write(&files, &all);
    assert!(out2.is_empty());
}
