//! Key-set arithmetic and mouse-input translation.

use taimi_markers::keyboard::KeyState;
use taimi_markers::logfmt::{
    nexus_log_level, write_record, LogBuffer, LogLevel, LogRecord, NexusLogLevel,
};
use taimi_markers::mouse::{MouseInput, MousePosition};
use taimi_markers::settings::{gh_repo_src, ArcSettings, ArcVk};
use taimi_markers::texslot::{TextureRequest, TextureSlot};
use taimi_markers::ui_state::{MarkerWindowState, PathingFilterState};

#[test]
fn key_sets_split_into_single_keys() {
    let ks = KeyState::from_bits_retain(0x2 | 0x10 | 0x10000);
    assert!(!ks.is_unique());
    assert!(ks.any().is_some());
    assert!(ks.key().is_none());
    assert_eq!(ks.index(), 1);
    let keys = ks.iter_keys();
    assert_eq!(keys.len(), 3);
    assert_eq!(keys[0].bits, 0x2);
    assert_eq!(keys[1].bits, 0x10);
    assert_eq!(keys[2].bits, 0x10000);
    for k in keys {
        assert!(k.is_unique());
    }
}

#[test]
fn key_set_lookups() {
    assert_eq!(KeyState::from_index(1).bits, 0x2);
    assert_eq!(KeyState::from_index(3).bits, 0);
    assert_eq!(KeyState::from_index(40).bits, 0);
    assert_eq!(KeyState::from_index_retain(7).bits, 0x80);
    assert_eq!(KeyState::from_button_index(2).unwrap().bits, 0x10);
    assert!(KeyState::from_button_index(9).is_none());
    let mut ks = KeyState::from_bits_retain(0x36);
    let taken = ks.take(KeyState::from_bits_retain(0x6));
    assert_eq!(taken.bits, 0x6);
    assert_eq!(ks.bits, 0x30);
    assert_eq!(KeyState::from_bits_retain(0x60).button_x(), 3);
    let mut one = KeyState::from_bits_retain(0x20);
    assert_eq!(one.take_key().unwrap().bits, 0x20);
    assert!(one.take_key().is_none());
    assert_eq!(KeyState::from_bits_retain(0x44).next_key().unwrap().bits, 0x4);
}

#[test]
fn mouse_inputs_classify_and_split() {
    let pos = MousePosition::new(10, 20);
    assert!(!pos.is_empty());
    assert!(MousePosition::empty().is_empty());
    let both = MouseInput::new(pos, KeyState::from_bits_retain(0x6 | 0x10000), Some(true));
    assert!(!both.is_movement());
    assert!(both.to_movement().is_movement());
    assert_eq!(both.buttons().bits, 0x6);
    assert_eq!(both.mods().bits, 0x10000);
    assert_eq!(both.button_before().bits, 0x10000);
    assert_eq!(both.button_after().bits, 0x6 | 0x10000);
    let split = both.input_buttons();
    assert_eq!(split.len(), 2);
    assert_eq!(split[0].button.bits, 0x2 | 0x10000);
    assert_eq!(split[1].button.bits, 0x4 | 0x10000);
    assert!(MouseInput::with_position(pos).is_movement());
    assert!(MouseInput::with_button(KeyState::from_bits_retain(0x2)).is_movement());
}

#[test]
fn mouse_events_carry_the_packed_position() {
    let pos = MousePosition::new(3, 4);
    let input = MouseInput::new(pos, KeyState::from_bits_retain(0x2), Some(true));
    let events = input.to_events(None);
    assert!(!events.is_empty());
    for (_msg, _w, l) in &events {
        assert_eq!(*l, 3 * 0x10000 + 4);
    }
    // a pure movement against a prior at another position emits one move
    let moved = MouseInput::with_position(MousePosition::new(9, 9));
    let prior = MouseInput::with_position(MousePosition::new(1, 1));
    let events = moved.to_events(Some(prior));
    assert_eq!(events.len(), 1);
    assert_eq!(events[0].0, 0x200);
}

#[test]
fn log_records_format_exactly() {
    let mut buffer = LogBuffer::with_capacity(64);
    assert_eq!(buffer.len(), 0);
    let record = LogRecord {
        level: LogLevel::Warn,
        target: "pack".to_string(),
        message: "one trail skipped".to_string(),
    };
    write_record(&mut buffer, &record);
    assert_eq!(buffer.buffer, "[WARN ] pack; one trail skipped");
    assert_eq!(nexus_log_level(LogLevel::Error), NexusLogLevel::Critical);
    assert_eq!(nexus_log_level(LogLevel::Info), NexusLogLevel::Info);
}

#[test]
fn keybindings_resolve_overrides_then_defaults() {
    let binding = ArcVk::new("pathing-window-toggle", 0x4e);
    assert_eq!(binding.get_name(), "pathing-window-toggle");
    assert_eq!(binding.window_name().as_deref(), Some("pathing"));
    assert_eq!(ArcVk::empty("timer-key-trigger-0").vkeycode_default(), None);
    let mut settings = ArcSettings::empty_settings();
    assert_eq!(settings.get_vk(&binding), Some(0x4e));
    settings.bind_vks.push(("pathing-window-toggle".to_string(), 0x42));
    assert_eq!(settings.get_vk(&binding), Some(0x42));
    assert!(settings.binding_matches(&binding, 0x42));
    assert!(!settings.binding_matches(&binding, 0x4e));
}

#[test]
fn ui_state_carries_plain_values() {
    assert_eq!(PathingFilterState::filter_string_to_flag("disabled").bits, 2);
    assert!(PathingFilterState::default_filter().contains(
        PathingFilterState::filter_string_to_flag("enabled"),
    ));
    let mut w = MarkerWindowState::new();
    assert!(!w.open);
    w.new_map_markers(Vec::new());
    assert_eq!(w.markers_for_map.len(), 0);
    assert!(!TextureSlot::Loading.can_load());
    let req = TextureRequest::LoadFile { key: "k".to_string(), path: "p".to_string() };
    assert_eq!(req.key().map(|s| s.as_str()), Some("k"));
    assert!(TextureRequest::Shutdown.key().is_none());
    let src = gh_repo_src();
    assert_eq!(src.owner, "TaimiHUD");
}
