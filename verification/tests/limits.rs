use rustd::limits::{
    parse_permyriad, read_u64, rlimit_sides, rlimit_value, size_terms, system_tasks_max, RlimitKind, RlimitResource,
    RlimitSpec, RlimitValue, TasksMaxSpec, ALL,
};
use rustd::sys::LimitNumbers;

const SECOND: u128 = 1_000_000_000;

#[test]
fn shared_rlimit_parser_matches_unit_grammar() {
    assert_eq!(
        RlimitSpec::parse("55:66", RlimitKind::Count, None, None),
        Some(RlimitSpec {
            soft: RlimitValue::Value(55),
            hard: RlimitValue::Value(66),
        })
    );
    assert_eq!(
        RlimitSpec::parse("40s:1m", RlimitKind::Seconds, Some(40 * SECOND), Some(60 * SECOND)),
        Some(RlimitSpec {
            soft: RlimitValue::Value(40),
            hard: RlimitValue::Value(60),
        })
    );
    assert_eq!(RlimitSpec::parse("200:100", RlimitKind::Count, None, None), None);
    assert_eq!(
        RlimitSpec::parse("infinity", RlimitKind::Count, None, None),
        Some(RlimitSpec {
            soft: RlimitValue::Infinity,
            hard: RlimitValue::Infinity,
        })
    );
}

#[test]
fn tasks_max_supports_absolute_percentage_and_unlimited() {
    assert_eq!(TasksMaxSpec::parse("32"), Some(TasksMaxSpec { value: 32, scale: 0 }));
    assert_eq!(
        TasksMaxSpec::parse("15%"),
        Some(TasksMaxSpec {
            value: 1500,
            scale: 10_000,
        })
    );
    assert_eq!(TasksMaxSpec::parse("infinity"), Some(TasksMaxSpec::unlimited()));
    assert_eq!(TasksMaxSpec::parse("0"), None);
}

#[test]
fn permyriad_parser_matches_v261_vectors() {
    for (value, numerator) in [
        ("0‱", 0),
        ("555‱", 555),
        ("1000‱", 1000),
        ("0‰", 0),
        ("555.5‰", 5555),
        ("1000.0‰", 10_000),
        ("0%", 0),
        ("55%", 5500),
        ("55.5%", 5550),
        ("55.50%", 5550),
        ("55.53%", 5553),
        ("100%", 10_000),
    ] {
        assert_eq!(parse_permyriad(value), Some(numerator), "{value}");
    }
    for value in [
        "", "foo", "0", "50", "100", "-1", "-7‱", "10007‱", "‱", "‱‱", "‱1", "1‱‱", "3.2‱", "-7‰", "1007‰", "‰", "‰‰",
        "‰1", "1‰‰", "3.22‰", "-7%", "107%", "%", "%%", "%1", "1%%", "3.212%",
    ] {
        assert_eq!(parse_permyriad(value), None, "{value}");
    }
}

#[test]
fn tasks_max_rejects_non_v261_unlimited_spellings_and_precision() {
    for value in ["3.212%", "3.22‰", "3.2‱", "max", "Infinity"] {
        assert_eq!(TasksMaxSpec::parse(value), None, "{value}");
    }
}

#[test]
fn limits_have_at_most_two_sides() {
    assert_eq!(rlimit_sides("1:2"), ("1".to_owned(), Some("2".to_owned())));
    assert_eq!(rlimit_sides("1"), ("1".to_owned(), None));
    assert_eq!(RlimitSpec::parse("1:2:3", RlimitKind::Count, None, None), None);
    assert_eq!(RlimitSpec::parse("", RlimitKind::Count, None, None), None);
    assert_eq!(RlimitSpec::parse("infinity:1", RlimitKind::Count, None, None), None);
    assert_eq!(
        RlimitSpec::parse("1:infinity", RlimitKind::Count, None, None).unwrap().hard,
        RlimitValue::Infinity
    );
    assert_eq!(
        RlimitSpec::parse("18446744073709551615", RlimitKind::Count, None, None),
        None
    );
}

#[test]
fn nice_limits_count_downwards() {
    let nice = |s: &str| RlimitSpec::parse(s, RlimitKind::Nice, None, None).map(|spec| spec.soft);
    assert_eq!(nice("+19"), Some(RlimitValue::Value(1)));
    assert_eq!(nice("+20"), None);
    assert_eq!(nice("-20"), Some(RlimitValue::Value(40)));
    assert_eq!(nice("-21"), None);
    assert_eq!(nice("40"), Some(RlimitValue::Value(40)));
    assert_eq!(nice("41"), None);
    assert_eq!(nice("infinity"), None);
}

#[test]
fn time_limits_are_rounded() {
    assert_eq!(
        RlimitSpec::parse("1.5s", RlimitKind::Seconds, Some(1_500_000_000), None).unwrap().soft,
        RlimitValue::Value(2)
    );
    assert_eq!(
        RlimitSpec::parse("1.5s", RlimitKind::Microseconds, Some(1_500_000_000), None).unwrap().soft,
        RlimitValue::Value(1_500_000)
    );
    assert_eq!(RlimitSpec::parse("x", RlimitKind::Size, None, None), None);
    assert_eq!(
        RlimitSpec::parse("4K", RlimitKind::Size, Some(4096), None).unwrap().soft,
        RlimitValue::Value(4096)
    );
}

#[test]
fn sizes_are_read_as_terms() {
    let terms = size_terms(" 1G 500.5kb").unwrap();
    let read: Vec<(String, u64)> = terms.into_iter().map(|term| (term.number, term.factor)).collect();
    assert_eq!(read, vec![("1".to_owned(), 1 << 30), ("500.5".to_owned(), 1 << 10)]);
    assert!(size_terms("").is_none());
    assert!(size_terms("1X").is_none());
    assert!(size_terms("K").is_none());
}

#[test]
fn resources_are_those_of_the_kernel() {
    let known = [
        libc::RLIMIT_CPU,
        libc::RLIMIT_FSIZE,
        libc::RLIMIT_DATA,
        libc::RLIMIT_STACK,
        libc::RLIMIT_CORE,
        libc::RLIMIT_RSS,
        libc::RLIMIT_NOFILE,
        libc::RLIMIT_AS,
        libc::RLIMIT_NPROC,
        libc::RLIMIT_MEMLOCK,
        libc::RLIMIT_LOCKS,
        libc::RLIMIT_SIGPENDING,
        libc::RLIMIT_MSGQUEUE,
        libc::RLIMIT_NICE,
        libc::RLIMIT_RTPRIO,
        libc::RLIMIT_RTTIME,
    ];
    for (i, resource) in ALL.into_iter().enumerate() {
        assert_eq!(resource.index(), i);
        assert_eq!(resource.libc_resource(), known[i] as u32);
    }
    assert_eq!(RlimitResource::Cpu.key(), "CPU");
    assert_eq!(RlimitResource::Cpu.kind(), RlimitKind::Seconds);
    assert_eq!(RlimitResource::Rttime.kind(), RlimitKind::Microseconds);
    assert_eq!(RlimitResource::Nice.kind(), RlimitKind::Nice);
    assert_eq!(rlimit_value(RlimitValue::Infinity), libc::RLIM_INFINITY);
    assert_eq!(rlimit_value(RlimitValue::Value(5)), 5);
}

#[test]
fn shares_of_tasks_stay_below_the_capacity() {
    assert_eq!(TasksMaxSpec::parse("15%").unwrap().resolve(1000), 150);
    assert_eq!(TasksMaxSpec::parse("100%").unwrap().resolve(u64::MAX), u64::MAX);
    assert_eq!(TasksMaxSpec::parse("32").unwrap().resolve(1), 32);
    assert_eq!(TasksMaxSpec::unlimited().resolve(7), u64::MAX);
}

#[test]
fn the_capacity_is_the_least_of_three() {
    assert_eq!(system_tasks_max(Some("100\n"), Some("200\n"), Some("50\n")), 50);
    assert_eq!(system_tasks_max(Some("100"), Some("51"), Some("max")), 50);
    assert_eq!(system_tasks_max(None, None, None), u64::MAX - 1);
    assert_eq!(system_tasks_max(None, Some("0"), None), 0);
    assert_eq!(read_u64(Some(" 7 \n")), Some(7));
    assert_eq!(read_u64(Some("x")), None);
}

#[test]
fn resource_numbers_differ_between_machines() {
    let other = LimitNumbers { rss: 7, nproc: 8, nofile: 5, memlock: 9, address_space: 6 };
    let mut numbers: Vec<u32> = ALL.into_iter().map(|resource| resource.libc_resource_with(&other)).collect();
    assert_eq!(RlimitResource::Nofile.libc_resource_with(&other), 5);
    assert_eq!(RlimitResource::As.libc_resource_with(&other), 6);
    assert_eq!(RlimitResource::Rttime.libc_resource_with(&other), 15);
    numbers.sort_unstable();
    assert_eq!(numbers, (0..16).collect::<Vec<u32>>());
}
