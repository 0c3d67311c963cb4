use oopstime::keyhook::{Key, KeyHistory, VK_BACK, VK_LEFT, VK_RETURN, VK_UP};
use oopstime::setting::MisstypeConfig;

fn key(code: u32) -> Key {
    Key::new(code, false)
}

#[test]
fn key_new_holds_fields() {
    let k = Key::new(65, true);
    assert_eq!(k.code, 65);
    assert!(k.ime_composition);
}

#[test]
fn new_history_is_empty() {
    let h = KeyHistory::new(5);
    assert_eq!(h.len(), 0);
    assert_eq!(h.get_recent_mistype_cnt(), 0);
    assert_eq!(h.get(0), None);
}

#[test]
fn ordinary_keys_are_stored_without_counting() {
    let cfg = MisstypeConfig::default();
    let mut h = KeyHistory::new(5);
    h.regist_key(&key(65), &cfg);
    h.regist_key(&key(66), &cfg);
    assert_eq!(h.len(), 2);
    assert_eq!(h.get_recent_mistype_cnt(), 0);
}

#[test]
fn scenario_two_letters_then_backspace() {
    let cfg = MisstypeConfig::default();
    let mut h = KeyHistory::new(5);
    h.regist_key(&key(65), &cfg);
    h.regist_key(&key(66), &cfg);
    h.regist_key(&key(VK_BACK), &cfg);
    assert_eq!(h.len(), 3);
    assert_eq!(h.get(0), Some(key(65)));
    assert_eq!(h.get(1), Some(key(66)));
    assert_eq!(h.get(2), Some(key(VK_BACK)));
    assert_eq!(h.get_recent_mistype_cnt(), 1);
}

#[test]
fn scenario_backspaces_into_empty_history() {
    let cfg = MisstypeConfig::default();
    let mut h = KeyHistory::new(5);
    h.regist_key(&key(VK_BACK), &cfg);
    assert_eq!(h.len(), 1);
    assert_eq!(h.get_recent_mistype_cnt(), 1);
    h.regist_key(&key(VK_BACK), &cfg);
    assert_eq!(h.len(), 1);
    assert_eq!(h.get_recent_mistype_cnt(), 1);
}

#[test]
fn consecutive_backspaces_count_once() {
    let cfg = MisstypeConfig::default();
    let mut h = KeyHistory::new(10);
    h.regist_key(&key(65), &cfg);
    h.regist_key(&key(VK_BACK), &cfg);
    h.regist_key(&key(VK_BACK), &cfg);
    h.regist_key(&key(VK_BACK), &cfg);
    assert_eq!(h.len(), 2);
    assert_eq!(h.get_recent_mistype_cnt(), 1);
}

#[test]
fn backspace_after_confirmed_composition_counts() {
    let cfg = MisstypeConfig::default();
    let mut h = KeyHistory::new(5);
    h.regist_key(&Key::new(75, true), &cfg);
    h.regist_key(&key(VK_RETURN), &cfg);
    h.regist_key(&key(VK_BACK), &cfg);
    assert_eq!(h.len(), 3);
    assert_eq!(h.get_recent_mistype_cnt(), 1);
}

#[test]
fn backspace_after_arrow_counts_when_allowed() {
    let mut cfg = MisstypeConfig::default();
    cfg.set_afterallow(true);
    let mut h = KeyHistory::new(5);
    h.regist_key(&key(65), &cfg);
    h.regist_key(&key(VK_LEFT), &cfg);
    h.regist_key(&key(VK_BACK), &cfg);
    assert_eq!(h.len(), 3);
    assert_eq!(h.get_recent_mistype_cnt(), 1);
}

#[test]
fn backspace_after_arrow_skipped_when_not_allowed() {
    let mut cfg = MisstypeConfig::default();
    cfg.set_afterallow(false);
    let mut h = KeyHistory::new(5);
    h.regist_key(&key(65), &cfg);
    h.regist_key(&key(VK_UP), &cfg);
    h.regist_key(&key(VK_BACK), &cfg);
    assert_eq!(h.len(), 2);
    assert_eq!(h.get_recent_mistype_cnt(), 0);
}

#[test]
fn full_window_evicts_oldest_first() {
    let cfg = MisstypeConfig::default();
    let mut h = KeyHistory::new(2);
    h.regist_key(&key(65), &cfg);
    h.regist_key(&key(66), &cfg);
    h.regist_key(&key(67), &cfg);
    assert_eq!(h.len(), 2);
    assert_eq!(h.get(0), Some(key(66)));
    assert_eq!(h.get(1), Some(key(67)));
}

#[test]
fn eviction_of_counted_backspace_decrements() {
    let cfg = MisstypeConfig::default();
    let mut h = KeyHistory::new(2);
    h.regist_key(&key(65), &cfg);
    h.regist_key(&key(VK_BACK), &cfg);
    assert_eq!(h.get_recent_mistype_cnt(), 1);
    h.regist_key(&key(67), &cfg);
    assert_eq!(h.get_recent_mistype_cnt(), 1);
    h.regist_key(&key(68), &cfg);
    assert_eq!(h.get_recent_mistype_cnt(), 0);
    assert_eq!(h.get(0), Some(key(67)));
    assert_eq!(h.get(1), Some(key(68)));
}

#[test]
fn shrinking_window_evicts_and_decrements() {
    let cfg = MisstypeConfig::default();
    let mut h = KeyHistory::new(5);
    h.regist_key(&key(65), &cfg);
    h.regist_key(&key(VK_BACK), &cfg);
    h.regist_key(&key(66), &cfg);
    assert_eq!(h.len(), 3);
    assert_eq!(h.get_recent_mistype_cnt(), 1);
    h.change_max_history_size(1);
    assert_eq!(h.len(), 1);
    assert_eq!(h.get(0), Some(key(66)));
    assert_eq!(h.get_recent_mistype_cnt(), 0);
}

#[test]
fn growing_window_keeps_contents() {
    let cfg = MisstypeConfig::default();
    let mut h = KeyHistory::new(2);
    h.regist_key(&key(65), &cfg);
    h.regist_key(&key(VK_BACK), &cfg);
    h.change_max_history_size(10);
    assert_eq!(h.len(), 2);
    assert_eq!(h.get_recent_mistype_cnt(), 1);
}

#[test]
fn clear_empties_window_and_counter() {
    let cfg = MisstypeConfig::default();
    let mut h = KeyHistory::new(5);
    h.regist_key(&key(65), &cfg);
    h.regist_key(&key(VK_BACK), &cfg);
    h.clear();
    assert_eq!(h.len(), 0);
    assert_eq!(h.get_recent_mistype_cnt(), 0);
}

#[test]
fn counter_never_exceeds_length() {
    let cfg = MisstypeConfig::default();
    let mut h = KeyHistory::new(3);
    for code in [VK_BACK, 65, VK_BACK, 66, VK_BACK, 67, VK_BACK] {
        h.regist_key(&key(code), &cfg);
        assert!(h.get_recent_mistype_cnt() <= h.len());
        assert!(h.len() <= 3);
    }
}
