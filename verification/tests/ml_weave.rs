use rustd::ml_weave::{
    find_head, fnv1a64, format_weights, hash_unit, importance_from_name, job_priority, parse_weights,
    parse_weights_bytes,
    shaped_restart_delay_ms, shaped_timer_slack_us, unit_transition, version_banner, Framebuffer, HeadText,
    JobPriorityHint, UnitTable, UnitTransition, WeaveCounters, WeightsText, INTEGRATION_GUIDE,
    MAX_UNIT_SLOTS,
};

#[test]
fn unit_table_eviction() {
    let mut t: UnitTable<u8> = UnitTable::with_capacity(4);
    for i in 0..MAX_UNIT_SLOTS + 10 {
        let _ = t.get_mut(&format!("u{i}.service"), 0);
    }
    assert!(t.slots.len() <= MAX_UNIT_SLOTS);
}

#[test]
fn only_the_oldest_unit_is_forgotten() {
    let mut t: UnitTable<usize> = UnitTable::with_capacity(256);
    for i in 0..MAX_UNIT_SLOTS {
        t.touch(&format!("u{i}"), i);
    }
    t.touch("u0", 0);
    t.touch("new", 999);
    assert_eq!(t.slots.len(), MAX_UNIT_SLOTS);
    assert!(t.get("u0").is_some());
    assert!(t.get("u1").is_none());
    assert!(t.get("u2").is_some());
    assert_eq!(t.get("new").unwrap().stats, 999);
}

#[test]
fn importance_heuristic() {
    assert!(f64::from(importance_from_name("systemd-journald.service")) / 100.0 > 0.9);
    assert!(f64::from(importance_from_name("frob.timer")) / 100.0 < 0.5);
}

#[test]
fn hashes_are_those_of_the_function() {
    assert_eq!(fnv1a64(b""), 0xcbf2_9ce4_8422_2325);
    assert_eq!(fnv1a64(b"a"), 0xaf63_dc4c_8601_ec8c);
    assert_eq!(hash_unit("a"), fnv1a64(b"a"));
}

fn weights() -> WeightsText {
    WeightsText {
        lorenz_x: "1.5".to_owned(),
        lorenz_y: "-2".to_owned(),
        lorenz_z: "0.25".to_owned(),
        reservoir_steps: 12,
        heads: vec![
            HeadText {
                name: "fail_risk".to_owned(),
                bias: "0.5".to_owned(),
                updates: 32,
                weights: vec!["0.1".to_owned(), "0.2".to_owned()],
            },
            HeadText {
                name: "cpu".to_owned(),
                bias: "0".to_owned(),
                updates: 0,
                weights: Vec::new(),
            },
        ],
    }
}

#[test]
fn weights_roundtrip() {
    let text = format_weights(&weights());
    let back = parse_weights(&text).expect("parse");
    assert_eq!(back.lorenz_x, "1.5");
    assert_eq!(back.reservoir_steps, 12);
    assert_eq!(back.heads.len(), 2);
    assert_eq!(find_head(&back, "fail_risk").unwrap().updates, 32);
    assert_eq!(find_head(&back, "fail_risk").unwrap().weights, vec!["0.1", "0.2"]);
    assert!(find_head(&back, "other").is_none());
    assert!(parse_weights("nonsense").is_none());
}

#[test]
fn priorities_follow_what_is_known() {
    assert_eq!(job_priority(true, true, true, false), JobPriorityHint::Immediate);
    assert_eq!(job_priority(false, true, true, true), JobPriorityHint::Hold);
    assert_eq!(job_priority(false, false, true, true), JobPriorityHint::Deferred);
    assert_eq!(job_priority(false, false, false, true), JobPriorityHint::Immediate);
    assert_eq!(job_priority(false, false, false, false), JobPriorityHint::Normal);
    assert_eq!(JobPriorityHint::Hold.as_str(), "hold");
    assert!(JobPriorityHint::Deferred.defers());
    assert!(!JobPriorityHint::Normal.defers());
}

#[test]
fn shaping_saturates() {
    assert_eq!(shaped_timer_slack_us(u64::MAX, 5), u64::MAX);
    assert_eq!(shaped_timer_slack_us(5, 6), 11);
    assert_eq!(shaped_restart_delay_ms(100, false), 100);
    assert!(shaped_restart_delay_ms(100, true) > 100);
}

#[test]
fn counters_count() {
    let mut counters = WeaveCounters::default();
    counters.ticked();
    counters.learned();
    counters.decided(true);
    counters.decided(false);
    assert_eq!(counters.ticks, 1);
    assert_eq!(counters.learns, 1);
    assert_eq!(counters.decisions, 2);
    assert_eq!(counters.anomalies_raised, 1);
}

#[test]
fn transitions_of_units() {
    assert_eq!(unit_transition("inactive", "activating"), UnitTransition::Starting);
    assert_eq!(unit_transition("activating", "active"), UnitTransition::Ready);
    assert_eq!(unit_transition("active", "failed"), UnitTransition::Failed);
    assert_eq!(unit_transition("x", "y"), UnitTransition::Ignored);
}

#[test]
fn pictures_are_plain() {
    let mut picture = Framebuffer::new(2, 1);
    picture.set_pixel(1, 0, 1, 2, 3);
    let mut expected = b"P6\n2 1\n255\n".to_vec();
    expected.extend_from_slice(&[0, 0, 0, 1, 2, 3]);
    assert_eq!(picture.ppm(), expected);
    assert!(version_banner().contains("ml-weave/1.0.0-lorenz-mandelbrot"));
}

#[test]
fn a_pixel_that_is_not_whole_is_left_out() {
    let mut picture = Framebuffer::new(1, 1);
    picture.pixels = vec![1, 2, 3, 255, 4, 5, 6];
    assert_eq!(picture.ppm(), b"P6\n1 1\n255\n\x01\x02\x03".to_vec());
}

#[test]
fn weights_are_read_from_bytes() {
    let mut bytes = format_weights(&weights()).into_bytes();
    let back = parse_weights_bytes(&bytes).expect("parse");
    assert_eq!(back.reservoir_steps, 12);
    assert_eq!(back.heads.len(), 2);
    bytes.push(0xff);
    assert!(parse_weights_bytes(&bytes).is_none());
    assert!(parse_weights_bytes(b"nonsense").is_none());
}

#[test]
fn a_default_table_is_empty() {
    let t: UnitTable<u8> = UnitTable::default();
    assert!(t.slots.is_empty());
    assert_eq!(t.epoch, 0);
    assert_eq!(UnitTable::<u8>::with_capacity(9).epoch, 1);
}

#[test]
fn the_guide_names_ten_points() {
    assert!(INTEGRATION_GUIDE.starts_with("\nrustd ml-weave integration\n"));
    assert_eq!(INTEGRATION_GUIDE.lines().count(), 13);
    assert!(INTEGRATION_GUIDE.ends_with("10. Boot         -> weave_load_weights\n"));
}
