use oopstime::keyhook::{Key, KeyHistory, VK_BACK};
use oopstime::monitor::{make_time_str, monitor_tick, threshold_count};
use oopstime::setting::MisstypeConfig;

fn mistakes(h: &mut KeyHistory, cfg: &MisstypeConfig, n: usize) {
    for _ in 0..n {
        h.regist_key(&Key::new(65, false), cfg);
        h.regist_key(&Key::new(VK_BACK, false), cfg);
    }
}

#[test]
fn threshold_count_is_floor() {
    assert_eq!(threshold_count(500, 10), 5);
    assert_eq!(threshold_count(100, 100), 10);
    assert_eq!(threshold_count(333, 10), 3);
    assert_eq!(threshold_count(999, 10), 9);
    assert_eq!(threshold_count(1000, 7), 7);
    assert_eq!(threshold_count(0, 50), 0);
    assert_eq!(threshold_count(1, 999), 0);
}

#[test]
fn monitor_fires_above_threshold_and_resets() {
    let cfg = MisstypeConfig::new(500, 10, 1, true);
    let mut h = KeyHistory::new(20);
    mistakes(&mut h, &cfg, 6);
    assert_eq!(h.get_recent_mistype_cnt(), 6);
    let alert = monitor_tick(&mut h, &cfg);
    assert!(alert);
    assert_eq!(h.get_recent_mistype_cnt(), 0);
    assert_eq!(h.len(), 0);
}

#[test]
fn monitor_silent_at_threshold() {
    let cfg = MisstypeConfig::new(500, 10, 1, true);
    let mut h = KeyHistory::new(20);
    mistakes(&mut h, &cfg, 5);
    assert_eq!(h.get_recent_mistype_cnt(), 5);
    let alert = monitor_tick(&mut h, &cfg);
    assert!(!alert);
    assert_eq!(h.get_recent_mistype_cnt(), 5);
    assert_eq!(h.len(), 10);
}

#[test]
fn monitor_silent_below_threshold() {
    let cfg = MisstypeConfig::new(1000, 100, 5, true);
    let mut h = KeyHistory::new(200);
    mistakes(&mut h, &cfg, 3);
    let alert = monitor_tick(&mut h, &cfg);
    assert!(!alert);
    assert_eq!(h.get_recent_mistype_cnt(), 3);
}

#[test]
fn monitor_fires_again_only_after_new_mistakes() {
    let cfg = MisstypeConfig::new(0, 1, 1, true);
    let mut h = KeyHistory::new(10);
    mistakes(&mut h, &cfg, 1);
    assert!(monitor_tick(&mut h, &cfg));
    assert!(!monitor_tick(&mut h, &cfg));
    mistakes(&mut h, &cfg, 1);
    assert!(monitor_tick(&mut h, &cfg));
}

#[test]
fn time_str_formats_hours_minutes_seconds() {
    assert_eq!(make_time_str(0), b"0:00:00".to_vec());
    assert_eq!(make_time_str(5), b"0:00:05".to_vec());
    assert_eq!(make_time_str(3661), b"1:01:01".to_vec());
    assert_eq!(make_time_str(86399), b"23:59:59".to_vec());
    assert_eq!(make_time_str(360000), b"100:00:00".to_vec());
}
