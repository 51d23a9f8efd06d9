use zetafrog::codec::{load, save};
use zetafrog::platform::{ClickThroughError, Platform};
use zetafrog::registry::PetRegistry;
use zetafrog::state::SessionConfig;

fn label(s: &str) -> Vec<u8> {
    s.as_bytes().to_vec()
}

#[test]
fn create_is_idempotent_and_keeps_first_coordinates() {
    let mut registry = PetRegistry::new();
    assert!(registry.create_pet_window(label("frog-a"), 10, 20));
    assert!(!registry.create_pet_window(label("frog-a"), 99, 77));
    assert_eq!(registry.window_count(), 1);
    assert_eq!(registry.get_position(&label("frog-a")), Some((10, 20)));
}

#[test]
fn created_window_is_visible_and_not_click_through() {
    let mut registry = PetRegistry::new();
    registry.create_pet_window(label("frog-a"), 0, 0);
    assert_eq!(registry.is_window_visible(&label("frog-a")), Some(true));
    assert_eq!(registry.is_window_click_through(&label("frog-a")), Some(false));
}

#[test]
fn restore_saved_malformed_bytes_creates_one_default_pet() {
    let mut registry = PetRegistry::new();
    registry.restore_saved(&b"{{not json".to_vec());
    assert_eq!(registry.window_count(), 1);
    assert_eq!(registry.get_position(&label("frog-main")), Some((200, 200)));
}

#[test]
fn restore_saved_round_trips_saved_bytes() {
    let mut registry = PetRegistry::new();
    registry.create_pet_window(label("frog-a"), -3, 9);
    registry.set_visible(&label("frog-a"), false);
    let bytes = save(&registry.snapshot());

    let mut fresh = PetRegistry::new();
    fresh.restore_saved(&bytes);
    assert_eq!(fresh.window_count(), 1);
    assert_eq!(fresh.get_position(&label("frog-a")), Some((-3, 9)));
    assert_eq!(fresh.is_window_visible(&label("frog-a")), Some(false));
}

#[test]
fn restore_empty_config_creates_one_default_pet() {
    let mut registry = PetRegistry::new();
    registry.restore(&SessionConfig::empty());
    assert_eq!(registry.window_count(), 1);
    assert_eq!(registry.get_position(&label("frog-main")), Some((200, 200)));
    assert_eq!(registry.is_window_visible(&label("frog-main")), Some(true));
}

#[test]
fn snapshot_and_restore_reproduce_visibility_by_label() {
    let mut registry = PetRegistry::new();
    registry.create_pet_window(label("frog-main"), 200, 200);
    registry.create_pet_window(label("frog-a"), 10, 20);
    registry.create_pet_window(label("frog-b"), 30, 40);
    registry.set_visible(&label("frog-b"), false);

    let bytes = save(&registry.snapshot());
    let loaded = load(&bytes);

    let mut fresh = PetRegistry::new();
    fresh.restore(&loaded);
    assert_eq!(fresh.window_count(), 3);
    assert_eq!(fresh.is_window_visible(&label("frog-main")), Some(true));
    assert_eq!(fresh.is_window_visible(&label("frog-a")), Some(true));
    assert_eq!(fresh.is_window_visible(&label("frog-b")), Some(false));
    assert_eq!(fresh.get_position(&label("frog-a")), Some((10, 20)));
    assert_eq!(fresh.get_position(&label("frog-b")), Some((30, 40)));
}

#[test]
fn snapshot_keeps_hidden_pets_and_moved_positions() {
    let mut registry = PetRegistry::new();
    registry.create_pet_window(label("frog-a"), 1, 2);
    registry.set_position(&label("frog-a"), -300, 45);
    registry.set_visible(&label("frog-a"), false);
    let config = registry.snapshot();
    assert_eq!(config.pets.len(), 1);
    assert_eq!(config.pets[0].x, -300);
    assert_eq!(config.pets[0].y, 45);
    assert!(!config.pets[0].visible);
}

#[test]
fn snapshot_skips_windows_without_pet_prefix() {
    let mut registry = PetRegistry::new();
    registry.create_pet_window(label("settings"), 0, 0);
    registry.create_pet_window(label("frog-a"), 5, 6);
    let config = registry.snapshot();
    assert_eq!(config.pets.len(), 1);
    assert_eq!(config.pets[0].label, label("frog-a"));
}

#[test]
fn show_all_shows_every_pet_and_hides_nothing() {
    let mut registry = PetRegistry::new();
    registry.create_pet_window(label("frog-a"), 0, 0);
    registry.create_pet_window(label("frog-b"), 0, 0);
    registry.set_visible(&label("frog-a"), false);
    registry.show_all();
    assert_eq!(registry.is_window_visible(&label("frog-a")), Some(true));
    assert_eq!(registry.is_window_visible(&label("frog-b")), Some(true));
}

#[test]
fn toggle_all_flips_each_window_independently() {
    let mut registry = PetRegistry::new();
    registry.create_pet_window(label("frog-a"), 0, 0);
    registry.create_pet_window(label("frog-b"), 0, 0);
    registry.set_visible(&label("frog-b"), false);
    registry.toggle_all_visibility();
    assert_eq!(registry.is_window_visible(&label("frog-a")), Some(false));
    assert_eq!(registry.is_window_visible(&label("frog-b")), Some(true));
}

#[test]
fn spawn_new_pet_uses_fresh_prefixed_labels() {
    let mut registry = PetRegistry::new();
    let first = registry.spawn_new_pet();
    let second = registry.spawn_new_pet();
    assert_eq!(first.len(), 41);
    assert_eq!(second.len(), 41);
    assert!(first.starts_with(b"frog-"));
    assert!(second.starts_with(b"frog-"));
    assert_ne!(first, second);
    assert_eq!(registry.window_count(), 2);
    assert_eq!(registry.get_position(&first), Some((200, 200)));
}

#[test]
fn click_through_toggle_restores_hit_testing() {
    let mut registry = PetRegistry::new();
    registry.create_pet_window(label("frog-a"), 0, 0);
    assert_eq!(registry.is_window_click_through(&label("frog-a")), Some(false));
    assert_eq!(
        registry.set_window_click_through(&label("frog-a"), true, Platform::Windows),
        Ok(())
    );
    assert_eq!(registry.is_window_click_through(&label("frog-a")), Some(true));
    assert_eq!(
        registry.set_window_click_through(&label("frog-a"), false, Platform::Windows),
        Ok(())
    );
    assert_eq!(registry.is_window_click_through(&label("frog-a")), Some(false));
}

#[test]
fn click_through_fails_on_unknown_window() {
    let mut registry = PetRegistry::new();
    assert_eq!(
        registry.set_window_click_through(&label("frog-a"), true, Platform::Windows),
        Err(ClickThroughError::HandleUnavailable)
    );
}

#[test]
fn click_through_fails_on_unsupported_platforms() {
    let mut registry = PetRegistry::new();
    registry.create_pet_window(label("frog-a"), 0, 0);
    assert_eq!(
        registry.set_window_click_through(&label("frog-a"), true, Platform::MacOs),
        Err(ClickThroughError::UnsupportedPlatform)
    );
    assert_eq!(
        registry.set_window_click_through(&label("frog-a"), true, Platform::Other),
        Err(ClickThroughError::UnsupportedPlatform)
    );
    assert_eq!(registry.is_window_click_through(&label("frog-a")), Some(false));
}
