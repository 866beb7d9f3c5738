use sulphur::asset::Asset;
use sulphur::game_data::GameData;
use sulphur::instance::Instance;
use sulphur::metadata::Metadata;
use sulphur::record::{encode_record, parse_record_text};
use sulphur::time::{Duration, Timestamp};

fn tricky_instance() -> Instance {
    Instance {
        metadata: Metadata {
            name: "line\nbreak \"and\" back\\slash".to_string(),
            image: None,
            playtime: Duration { secs: u64::MAX, nanos: 999_999_999 },
            last_played: Some(Timestamp { secs: 0, nanos: 1 }),
            last_session_duration: None,
        },
        gamedata: GameData {
            iwads: Vec::new(),
            mods: vec![Asset::new("mods/sp ace.pk3".to_string(), false)],
            savedir: "saves/line\nbreak \"and\" back\\slash".to_string(),
            additional_params: vec!["".to_string(), "two words".to_string()],
        },
    }
}

#[test]
fn record_text_round_trips() {
    let inst = tricky_instance();
    let text = encode_record(&inst);
    let back = parse_record_text(text.as_str()).expect("canonical text parses");
    assert_eq!(back.metadata.name, inst.metadata.name);
    assert_eq!(back.metadata.image, None);
    assert_eq!(back.metadata.playtime, inst.metadata.playtime);
    assert_eq!(back.metadata.last_played, inst.metadata.last_played);
    assert_eq!(back.metadata.last_session_duration, None);
    assert_eq!(back.gamedata.savedir, inst.gamedata.savedir);
    assert_eq!(back.gamedata.mods.len(), 1);
    assert_eq!(back.gamedata.mods[0].path, "mods/sp ace.pk3");
    assert!(!back.gamedata.mods[0].enabled);
    assert_eq!(back.gamedata.additional_params, inst.gamedata.additional_params);
}

#[test]
fn record_text_is_line_oriented() {
    let inst = tricky_instance();
    let text = encode_record(&inst);
    // The embedded line break is escaped: lines map one-to-one to fields.
    let lines: Vec<&str> = text.lines().collect();
    assert_eq!(lines.len(), 12);
    assert!(lines[0].starts_with("name \""));
    assert_eq!(lines[1], "image none");
    assert!(lines[2].starts_with("playtime "));
    assert_eq!(lines[6], "iwads 0");
    assert_eq!(lines[7], "mods 1");
    assert!(lines[8].starts_with("mod false \""));
    assert_eq!(lines[9], "params 2");
}

#[test]
fn non_records_are_rejected() {
    assert!(parse_record_text("").is_none());
    assert!(parse_record_text("nonsense\n").is_none());
    let inst = tricky_instance();
    let mut text = encode_record(&inst);
    // Trailing content makes the text non-canonical.
    text.push_str("extra 1\n");
    assert!(parse_record_text(text.as_str()).is_none());
    // So does a missing final line break.
    let clipped = encode_record(&inst);
    let clipped = &clipped[..clipped.len() - 1];
    assert!(parse_record_text(clipped).is_none());
}
