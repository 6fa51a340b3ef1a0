use rustible::modules::fact_parsers::{
    default_ipv4, env_vars, hardware_facts, interface_facts, interface_names, os_facts, python_version,
    timezone, wanted_subsets, FactValue, FactsModule, HardwareAnswers, OsAnswers,
};

fn fact<'a>(facts: &'a [(String, FactValue)], name: &str) -> Option<&'a FactValue> {
    facts.iter().find(|(n, _)| n == name).map(|(_, v)| v)
}

fn s(v: &str) -> Option<String> {
    Some(v.to_string())
}

#[test]
fn os_facts_from_answers() {
    let answers = OsAnswers {
        hostname: s("web1.example.com"),
        system: s("Linux"),
        kernel: s("6.1.0"),
        architecture: s("amd64"),
        os_release: s("NAME=\"Ubuntu\"\nID=ubuntu\nVERSION_ID=\"22.04\"\nPRETTY_NAME=\"Ubuntu 22.04 LTS\"\n"),
        user: s("deploy"),
        uid: s("1000"),
        gid: s("not-a-number"),
    };
    let facts = os_facts(&answers);
    assert_eq!(fact(&facts, "hostname"), Some(&FactValue::Str("web1.example.com".to_string())));
    assert_eq!(fact(&facts, "hostname_short"), Some(&FactValue::Str("web1".to_string())));
    assert_eq!(fact(&facts, "machine"), Some(&FactValue::Str("x86_64".to_string())));
    assert_eq!(fact(&facts, "architecture"), Some(&FactValue::Str("amd64".to_string())));
    assert_eq!(fact(&facts, "distribution"), Some(&FactValue::Str("ubuntu".to_string())));
    assert_eq!(fact(&facts, "distribution_version"), Some(&FactValue::Str("22.04".to_string())));
    assert_eq!(fact(&facts, "distribution_pretty_name"), Some(&FactValue::Str("Ubuntu 22.04 LTS".to_string())));
    assert_eq!(fact(&facts, "os_family"), Some(&FactValue::Str("debian".to_string())));
    assert_eq!(fact(&facts, "user_uid"), Some(&FactValue::Uint(1000)));
    assert_eq!(fact(&facts, "user_gid"), None);
}

#[test]
fn os_family_from_release_wins() {
    let answers = OsAnswers {
        hostname: None,
        system: None,
        kernel: None,
        architecture: s("sparc"),
        os_release: s("ID=Fedora\nID_LIKE=\"rhel centos\""),
        user: None,
        uid: None,
        gid: None,
    };
    let facts = os_facts(&answers);
    assert_eq!(fact(&facts, "os_family"), Some(&FactValue::Str("rhel centos".to_string())));
    assert_eq!(fact(&facts, "machine"), Some(&FactValue::Str("sparc".to_string())));
    let only_id = OsAnswers { os_release: s("ID=Rocky"), ..answers.clone() };
    assert_eq!(fact(&os_facts(&only_id), "os_family"), Some(&FactValue::Str("redhat".to_string())));
    let unknown = OsAnswers { os_release: s("ID=plan9"), ..answers };
    assert_eq!(fact(&os_facts(&unknown), "os_family"), Some(&FactValue::Str("unknown".to_string())));
}

#[test]
fn hardware_facts_from_answers() {
    let answers = HardwareAnswers {
        cpuinfo: s("processor\t: 0\nmodel name\t: Example CPU  \ncpu cores\t: 4\nprocessor\t: 1\n"),
        meminfo: s("MemTotal:       16384000 kB\nMemFree:  2048 kB\nSwapTotal: 0 kB"),
        df: s("Filesystem 1B-blocks Used Available Use% Mounted on\n/dev/sda1 1000 400 600 40% /\n"),
    };
    let facts = hardware_facts(&answers);
    assert_eq!(fact(&facts, "processor_count"), Some(&FactValue::Uint(2)));
    assert_eq!(fact(&facts, "processor"), Some(&FactValue::Str("Example CPU".to_string())));
    assert_eq!(fact(&facts, "processor_cores"), Some(&FactValue::Uint(4)));
    assert_eq!(fact(&facts, "memtotal_mb"), Some(&FactValue::Uint(16000)));
    assert_eq!(fact(&facts, "memfree_mb"), Some(&FactValue::Uint(2)));
    assert_eq!(fact(&facts, "swaptotal_mb"), Some(&FactValue::Uint(0)));
    assert_eq!(fact(&facts, "disk_total_bytes"), Some(&FactValue::Uint(1000)));
    assert_eq!(fact(&facts, "disk_used_bytes"), Some(&FactValue::Uint(400)));
    assert_eq!(fact(&facts, "disk_available_bytes"), Some(&FactValue::Uint(600)));
}

#[test]
fn hardware_facts_without_answers() {
    let none = HardwareAnswers { cpuinfo: None, meminfo: None, df: None };
    assert!(hardware_facts(&none).is_empty());
    let empty_cpu = HardwareAnswers { cpuinfo: s(""), meminfo: None, df: s("only one line") };
    let facts = hardware_facts(&empty_cpu);
    assert_eq!(facts, vec![("processor_count".to_string(), FactValue::Uint(0))]);
}

#[test]
fn network_facts_from_answers() {
    assert_eq!(interface_names("lo\neth0\n  wlan0 \n\n"), vec!["eth0", "wlan0"]);
    let iface = interface_facts("eth0", &s("aa:bb:cc:dd:ee:ff\n"), &s("1500"), &s("up\n"));
    assert_eq!(iface.macaddress.as_deref(), Some("aa:bb:cc:dd:ee:ff"));
    assert_eq!(iface.mtu, Some(1500));
    assert_eq!(iface.active, Some(true));
    let zero = interface_facts("dummy0", &s("00:00:00:00:00:00"), &s("x"), &s("down"));
    assert_eq!(zero.macaddress, None);
    assert_eq!(zero.mtu, None);
    assert_eq!(zero.active, Some(false));
    assert_eq!(
        default_ipv4("1.1.1.1 via 10.0.0.1 dev eth0 src 10.0.0.5 uid 1000").as_deref(),
        Some("10.0.0.5")
    );
    assert_eq!(default_ipv4("unreachable"), None);
    assert_eq!(default_ipv4("x src src 1.2.3.4"), None);
}

#[test]
fn date_and_env_facts() {
    assert_eq!(timezone(&s(" Europe/Paris\n"), &None).as_deref(), Some("Europe/Paris"));
    assert_eq!(timezone(&None, &s("/usr/share/zoneinfo/UTC")).as_deref(), Some("UTC"));
    assert_eq!(timezone(&None, &s("/etc/other")), None);
    let vars = env_vars("PATH=/bin\nHOME=/root\nPATH=/usr/bin\nnoequals");
    assert_eq!(vars, vec![("PATH".to_string(), "/usr/bin".to_string()), ("HOME".to_string(), "/root".to_string())]);
    assert_eq!(python_version("Python 3.11.2\n").as_deref(), Some("3.11.2"));
    assert_eq!(python_version("command not found"), None);
}

#[test]
fn fact_subsets() {
    let all = wanted_subsets(None);
    assert!(all.os && all.hardware && all.network && all.date_time && all.env);
    let list = vec!["min".to_string(), "network".to_string()];
    let some = wanted_subsets(Some(&list));
    assert!(some.os && some.network && !some.hardware && !some.env && !some.date_time);
    let everything = vec!["all".to_string()];
    assert!(wanted_subsets(Some(&everything)).hardware);
    assert_eq!(FactsModule.name(), "gather_facts");
}
