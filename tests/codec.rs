use std::collections::HashMap;

use level_converter::command::{local_storage_command, saved_game_command, settings_command};
use level_converter::level::{
    generate_saved_game_from_seed, get_tile_map, position_index, position_key, serialize_data,
    serialize_saved_game, serialize_saved_game_from_seed,
};
use level_converter::settings::serialize_settings;
use level_converter::{ChangedBlocks, Data, JSLevel, Random, Settings};

const CELLS: usize = 128 * 128 * 64;

fn index(x: u64, y: u64, z: u64) -> u64 {
    y * 128 * 128 + z * 128 + x
}

fn baseline() -> Vec<u8> {
    let mut b = vec![0u8; CELLS];
    for i in 0..CELLS {
        if i < 128 * 128 * 20 {
            b[i] = 1;
        }
    }
    b
}

fn changed_of(json: &str) -> serde_json::Map<String, serde_json::Value> {
    let v: serde_json::Value = serde_json::from_str(json).unwrap();
    v["changedBlocks"].as_object().unwrap().clone()
}

fn parse_key(key: &str) -> u64 {
    let parts: Vec<u64> = key[1..].split('_').map(|p| p.parse().unwrap()).collect();
    index(parts[0], parts[1], parts[2])
}

#[test]
fn prng_minimal_standard_sequence() {
    let mut r = Random::new(1);
    assert_eq!(r.next(), 16807);
    assert_eq!(r.next(), 282475249);
    assert_eq!(r.next(), 1622650073);
}

#[test]
fn prng_seed_normalization() {
    assert_eq!(Random::new(0).rand, 2147483646);
    assert_eq!(Random::new(-1).rand, 2147483645);
    assert_eq!(Random::new(2147483647).rand, 2147483646);
    assert_eq!(Random::new(5).rand, 5);
}

#[test]
fn prng_next_int_in_range() {
    let mut r = Random::new(1);
    // 16807 - 1 scaled by 10 / 2147483646 rounds down to 0.
    assert_eq!(r.next_int(10), 0);
    let mut r = Random::new(42);
    for _ in 0..1000 {
        let v = r.next_int(7);
        assert!(v >= 0 && v < 7);
    }
    let mut r = Random::new(1);
    for _ in 0..1000 {
        let v = r.next();
        let f = (v - 1) as f64 / 2147483646.0;
        assert!(f >= 0.0 && f < 1.0);
    }
}

#[test]
fn full_policy_on_unchanged_world() {
    let b = baseline();
    let level = JSLevel::new(3, HashMap::new(), 128, 1);
    let out = serialize_saved_game(level, b.clone(), &b, 0);
    let changed = changed_of(&out);
    assert_eq!(changed.len(), CELLS);
    assert!(changed.values().all(|e| e["a"] == 0));
    assert_eq!(changed["p5_3_7"]["bt"], 1);
    assert_eq!(changed["p5_30_7"]["bt"], 0);
}

#[test]
fn other_policies_on_unchanged_world() {
    let b = baseline();
    for opt in [1u8, 2u8] {
        let level = JSLevel::new(3, HashMap::new(), 128, 1);
        let out = serialize_saved_game(level, b.clone(), &b, opt);
        assert_eq!(out, r#"{"worldSeed":3,"changedBlocks":{},"worldSize":128,"version":1}"#);
    }
}

#[test]
fn policies_with_changes_and_overrides() {
    let b = baseline();
    let mut tm = b.clone();
    tm[index(1, 2, 3) as usize] = 9;
    let mut ov = HashMap::new();
    ov.insert(index(4, 5, 6), ChangedBlocks::new(0, 1));
    ov.insert(index(0, 0, 0), ChangedBlocks::new(1, 7));
    let level = JSLevel::new(-12, ov, 128, 1);
    let out = serialize_saved_game(level, tm, &b, 2);
    assert_eq!(
        out,
        r#"{"worldSeed":-12,"changedBlocks":{"p0_0_0":{"a":1,"bt":7},"p1_2_3":{"a":1,"bt":9}},"worldSize":128,"version":1}"#
    );
    let mut ov = HashMap::new();
    ov.insert(index(4, 5, 6), ChangedBlocks::new(0, 1));
    let level = JSLevel::new(-12, ov, 128, 1);
    let out = serialize_saved_game(level, b.clone(), &b, 1);
    assert_eq!(
        out,
        r#"{"worldSeed":-12,"changedBlocks":{"p4_5_6":{"a":0,"bt":1}},"worldSize":128,"version":1}"#
    );
}

#[test]
fn sentinel_override_never_written() {
    let b = baseline();
    let mut tm = b.clone();
    tm[index(2, 40, 2) as usize] = 4;
    let mut ov = HashMap::new();
    ov.insert(index(2, 40, 2), ChangedBlocks::new(1, 255));
    ov.insert(index(3, 40, 2), ChangedBlocks::new(1, 255));
    let level = JSLevel::new(1, ov, 128, 1);
    let out = serialize_saved_game(level, tm, &b, 1);
    let changed = changed_of(&out);
    assert_eq!(changed.len(), 1);
    assert_eq!(changed["p2_40_2"]["bt"], 4);
    assert!(!out.contains("255"));
}

#[test]
fn differ_only_is_idempotent() {
    let b = baseline();
    let mut tm = b.clone();
    tm[index(10, 10, 10) as usize] = 3;
    tm[index(127, 63, 127) as usize] = 2;
    let mut ov = HashMap::new();
    ov.insert(index(1, 1, 1), ChangedBlocks::new(1, 5));
    ov.insert(index(2, 2, 2), ChangedBlocks::new(1, 255));
    let first = serialize_saved_game(JSLevel::new(9, ov, 128, 1), tm.clone(), &b, 2);
    let decoded = changed_of(&first);
    let mut ov2 = HashMap::new();
    for (k, v) in decoded.iter() {
        ov2.insert(
            parse_key(k),
            ChangedBlocks::new(v["a"].as_u64().unwrap() as u8, v["bt"].as_u64().unwrap() as u8),
        );
    }
    let second = serialize_saved_game(JSLevel::new(9, ov2, 128, 1), tm, &b, 2);
    assert_eq!(changed_of(&second), decoded);
    assert_eq!(decoded.len(), 3);
}

#[test]
fn end_to_end_seed_only_world() {
    let b = baseline();
    let level = generate_saved_game_from_seed(42, b.clone(), &b);
    assert_eq!(level.worldSeed, 42);
    assert_eq!(level.worldSize, 128);
    assert_eq!(level.version, 1);
    assert!(level.changedBlocks.is_empty());
    let json = serialize_saved_game_from_seed(42, b.clone(), &b);
    assert_eq!(json, r#"{"worldSeed":42,"changedBlocks":{},"worldSize":128,"version":1}"#);
}

#[test]
fn generated_save_records_differences() {
    let b = baseline();
    let mut tm = b.clone();
    tm[7] = 200;
    let level = generate_saved_game_from_seed(5, tm, &b);
    assert_eq!(level.changedBlocks.len(), 1);
    assert_eq!(level.changedBlocks[&7], ChangedBlocks::new(1, 200));
}

#[test]
fn tile_map_from_sparse_generation() {
    let mut g = HashMap::new();
    g.insert(0u64, 3u8);
    g.insert(CELLS as u64 - 1, 8u8);
    g.insert(CELLS as u64 + 5, 9u8);
    let tm = get_tile_map(128, &g);
    assert_eq!(tm.len(), CELLS);
    assert_eq!(tm[0], 3);
    assert_eq!(tm[1], 0);
    assert_eq!(tm[CELLS - 1], 8);
}

#[test]
fn default_level_and_settings() {
    let l = JSLevel::default();
    assert_eq!((l.worldSeed, l.worldSize, l.version), (1, 256, 1));
    assert!(l.changedBlocks.is_empty());
    let s = Settings::default();
    assert_eq!(s.jump, "<space>");
    assert_eq!(s.username, "noname");
    assert!(s.sound && !s.music);
}

fn sample_settings() -> Settings {
    Settings::new(
        true, false, true, false, -3,
        "W".to_string(), "A".to_string(), "S".to_string(), "D".to_string(),
        "<space>".to_string(), "B".to_string(), "T".to_string(), "F".to_string(),
        "<enter>".to_string(), "R".to_string(), "say \"hi\" \\ o/\n".to_string(),
    )
}

#[test]
fn settings_exact_text() {
    let out = serialize_settings(Settings::default());
    assert_eq!(
        out,
        r#"{"music":false,"sound":true,"invert":false,"fps":false,"drawDistance":0,"forward":"W","left":"A","backward":"S","right":"D","jump":"<space>","build":"B","chat":"T","fog":"F","saveLoc":"<enter>","loadLoc":"R","username":"noname"}"#
    );
}

#[test]
fn settings_round_trip() {
    let s = sample_settings();
    let out = serialize_settings(sample_settings());
    let v: serde_json::Value = serde_json::from_str(&out).unwrap();
    assert_eq!(v["music"], s.music);
    assert_eq!(v["sound"], s.sound);
    assert_eq!(v["invert"], s.invert);
    assert_eq!(v["fps"], s.fps);
    assert_eq!(v["drawDistance"], s.drawDistance);
    assert_eq!(v["forward"], s.forward.as_str());
    assert_eq!(v["loadLoc"], s.loadLoc.as_str());
    assert_eq!(v["username"], s.username.as_str());
}

#[test]
fn data_serializes_both_documents() {
    let b = baseline();
    let mut ov = HashMap::new();
    ov.insert(index(0, 63, 0), ChangedBlocks::new(1, 4));
    let data = Data::new(JSLevel::new(8, ov, 128, 1), Settings::default());
    let [level, settings] = serialize_data(data, &b);
    assert_eq!(
        level,
        r#"{"worldSeed":8,"changedBlocks":{"p0_63_0":{"a":1,"bt":4}},"worldSize":128,"version":1}"#
    );
    assert_eq!(settings, serialize_settings(Settings::default()));
}

#[test]
fn console_commands() {
    assert_eq!(saved_game_command("{}"), "localStorage.setItem(\"savedGame\", `{}`)");
    assert_eq!(settings_command("{\"a\":1}"), "localStorage.setItem(\"settings\", `{\"a\":1}`)");
    let both = local_storage_command(&["{1}".to_string(), "{2}".to_string()]);
    assert_eq!(
        both,
        "localStorage.setItem(\"savedGame\", `{1}`);localStorage.setItem(\"settings\", `{2}`)"
    );
}

#[test]
fn position_keys_parse_and_print() {
    assert_eq!(position_index("p1_2_3", 128), Some(index(1, 2, 3)));
    assert_eq!(position_index("p127_63_127", 128), Some(CELLS as u64 - 1));
    assert_eq!(position_index("p0_0_0", 256), Some(0));
    assert_eq!(position_index("p128_0_0", 128), None);
    assert_eq!(position_index("p0_64_0", 128), None);
    assert_eq!(position_index("p01_0_0", 128), None);
    assert_eq!(position_index("p1_2", 128), None);
    assert_eq!(position_index("q1_2_3", 128), None);
    assert_eq!(position_index("p1_2_3_", 128), None);
    assert_eq!(position_key(128, index(1, 2, 3)), "p1_2_3");
    assert_eq!(position_key(512, 511 * 512 + 3), "p3_0_511");
}
