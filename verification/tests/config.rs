use oopstime::setting::MisstypeConfig;

#[test]
fn default_values() {
    let cfg = MisstypeConfig::default();
    assert_eq!(cfg.get_threshold(), 100);
    assert_eq!(cfg.get_count(), 100);
    assert_eq!(cfg.get_interval(), 5);
    assert!(cfg.get_afterallow());
}

#[test]
fn setters_update_only_their_field() {
    let mut cfg = MisstypeConfig::default();
    cfg.set_threshold(250);
    cfg.set_count(42);
    cfg.set_interval(60);
    cfg.set_afterallow(false);
    assert_eq!(cfg.get_threshold(), 250);
    assert_eq!(cfg.get_count(), 42);
    assert_eq!(cfg.get_interval(), 60);
    assert!(!cfg.get_afterallow());
}

#[test]
fn save_renders_the_fixed_record() {
    let cfg = MisstypeConfig::default();
    let out = cfg.save();
    assert_eq!(
        out,
        b"threshold = 0.100\ncount = 100\ninterval = 5\nafterallow = true\n".to_vec()
    );
}

#[test]
fn save_renders_extreme_thresholds() {
    let cfg = MisstypeConfig::new(0, 1, 1, false);
    assert_eq!(
        cfg.save(),
        b"threshold = 0.000\ncount = 1\ninterval = 1\nafterallow = false\n".to_vec()
    );
    let cfg = MisstypeConfig::new(1000, 9, 2, true);
    assert_eq!(
        cfg.save(),
        b"threshold = 1.000\ncount = 9\ninterval = 2\nafterallow = true\n".to_vec()
    );
}

#[test]
fn load_reads_back_what_save_wrote() {
    let samples = [
        MisstypeConfig::default(),
        MisstypeConfig::new(0, 1, 1, false),
        MisstypeConfig::new(1000, 9999, 77, true),
        MisstypeConfig::new(345, 42, 60, false),
        MisstypeConfig::new(1, usize::MAX, u64::MAX, true),
    ];
    for cfg in samples {
        let out = cfg.save();
        assert_eq!(MisstypeConfig::load(&out), Some(cfg));
    }
}

#[test]
fn load_parses_a_handwritten_record() {
    let text = b"threshold = 0.250\ncount = 7\ninterval = 3\nafterallow = false\n";
    let cfg = MisstypeConfig::load(text).unwrap();
    assert_eq!(cfg.get_threshold(), 250);
    assert_eq!(cfg.get_count(), 7);
    assert_eq!(cfg.get_interval(), 3);
    assert!(!cfg.get_afterallow());
}

#[test]
fn load_rejects_malformed_records() {
    let bad: [&[u8]; 10] = [
        b"",
        b"garbage",
        b"threshold = 0.1\ncount = 100\ninterval = 5\nafterallow = true\n",
        b"threshold = 1.001\ncount = 100\ninterval = 5\nafterallow = true\n",
        b"threshold = 2.000\ncount = 100\ninterval = 5\nafterallow = true\n",
        b"threshold = 0.100\ncount = 0\ninterval = 5\nafterallow = true\n",
        b"threshold = 0.100\ncount = 100\ninterval = 0\nafterallow = true\n",
        b"threshold = 0.100\ncount = 100\ninterval = 5\nafterallow = maybe\n",
        b"threshold = 0.100\ncount = 100\ninterval = 5\nafterallow = true",
        b"threshold = 0.100\ncount = 100\ninterval = 5\nafterallow = true\nx",
    ];
    for text in bad {
        assert_eq!(MisstypeConfig::load(text), None);
    }
}

#[test]
fn load_rejects_an_oversized_count() {
    let text = b"threshold = 0.100\ncount = 99999999999999999999999\ninterval = 5\nafterallow = true\n";
    assert_eq!(MisstypeConfig::load(text), None);
}
