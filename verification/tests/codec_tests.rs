use zetafrog::codec::{load, parse_session_config, save};
use zetafrog::state::{PetWindowState, SessionConfig};

fn pet(label: &str, x: i64, y: i64, visible: bool) -> PetWindowState {
    PetWindowState::new(label.as_bytes().to_vec(), x, y, visible)
}

#[test]
fn save_empty_config_is_empty_array() {
    let out = save(&SessionConfig::empty());
    assert_eq!(out, b"{\"pets\":[]}".to_vec());
}

#[test]
fn save_one_pet_exact_bytes() {
    let config = SessionConfig { pets: vec![pet("frog-main", 200, 200, true)] };
    let out = save(&config);
    assert_eq!(
        out,
        b"{\"pets\":[{\"label\":\"frog-main\",\"x\":200,\"y\":200,\"visible\":true}]}".to_vec()
    );
}

#[test]
fn round_trip_three_pets() {
    let config = SessionConfig {
        pets: vec![
            pet("frog-main", 200, 200, true),
            pet("frog-a", -35, 0, false),
            pet("frog-b", 1024, 768, true),
        ],
    };
    let bytes = save(&config);
    let back = load(&bytes);
    assert_eq!(back, config);
}

#[test]
fn round_trip_extreme_coordinates() {
    let config = SessionConfig {
        pets: vec![
            pet("frog-min", i64::MIN, i64::MAX, true),
            pet("frog-neg", -1, -200, false),
            pet("frog-zero", 0, 0, true),
        ],
    };
    let back = load(&save(&config));
    assert_eq!(back, config);
}

#[test]
fn load_exact_handwritten_content() {
    let bytes = b"{\"pets\":[{\"label\":\"frog-x\",\"x\":-7,\"y\":42,\"visible\":false}]}".to_vec();
    let config = load(&bytes);
    assert_eq!(config.pets.len(), 1);
    assert_eq!(config.pets[0].label, b"frog-x".to_vec());
    assert_eq!(config.pets[0].x, -7);
    assert_eq!(config.pets[0].y, 42);
    assert!(!config.pets[0].visible);
}

#[test]
fn load_empty_content_gives_empty_config() {
    assert_eq!(load(&Vec::new()).pets.len(), 0);
}

#[test]
fn load_garbage_gives_empty_config() {
    assert_eq!(load(&b"not a config at all".to_vec()).pets.len(), 0);
}

#[test]
fn load_truncated_gives_empty_config() {
    assert_eq!(load(&b"{\"pets\":[{\"label\":\"frog-a\",\"x\":1".to_vec()).pets.len(), 0);
}

#[test]
fn load_trailing_bytes_gives_empty_config() {
    assert_eq!(load(&b"{\"pets\":[]} ".to_vec()).pets.len(), 0);
}

#[test]
fn load_leading_zero_number_gives_empty_config() {
    let bytes = b"{\"pets\":[{\"label\":\"frog-a\",\"x\":007,\"y\":2,\"visible\":true}]}".to_vec();
    assert_eq!(load(&bytes).pets.len(), 0);
}

#[test]
fn load_out_of_range_number_gives_empty_config() {
    let bytes =
        b"{\"pets\":[{\"label\":\"frog-a\",\"x\":99999999999999999999,\"y\":2,\"visible\":true}]}"
            .to_vec();
    assert_eq!(load(&bytes).pets.len(), 0);
}

#[test]
fn parse_rejects_malformed_but_accepts_canonical() {
    assert!(parse_session_config(&b"{\"pets\":[]}".to_vec()).is_some());
    assert!(parse_session_config(&b"{ \"pets\": [] }".to_vec()).is_none());
    assert!(parse_session_config(&b"[]".to_vec()).is_none());
}

#[test]
fn saved_bytes_are_valid_json() {
    let config = SessionConfig {
        pets: vec![pet("frog-main", 200, 200, true), pet("frog-a", -35, 7, false)],
    };
    let bytes = save(&config);
    let value: serde_json::Value = serde_json::from_slice(&bytes).unwrap();
    let pets = value.get("pets").unwrap().as_array().unwrap();
    assert_eq!(pets.len(), 2);
    assert_eq!(pets[0].get("label").unwrap().as_str().unwrap(), "frog-main");
    assert_eq!(pets[0].get("x").unwrap().as_i64().unwrap(), 200);
    assert_eq!(pets[0].get("y").unwrap().as_i64().unwrap(), 200);
    assert!(pets[0].get("visible").unwrap().as_bool().unwrap());
    assert_eq!(pets[1].get("label").unwrap().as_str().unwrap(), "frog-a");
    assert_eq!(pets[1].get("x").unwrap().as_i64().unwrap(), -35);
    assert!(!pets[1].get("visible").unwrap().as_bool().unwrap());
}
