use sodiumoxide::base64::{decode, Variant};
use sulltec_remote::ad::{
    ad_identity, add_identity, computer_groups, groups_script, keep_quotable, ou_path,
    split_dn_components, unescape_dn, AdIdentity, DomainFacts,
};
use sulltec_remote::command::powershell_script;
use sulltec_remote::console_ad::{ad_identity as console_identity, LocalDomain};
use sulltec_remote::inventory::{
    addresses, collect, cpu_label, dns_suffixes, gpus, hardware, hotfixes, network,
    primary_dns_suffix, server_roles, software, watched_script, watched_services, Adapter, Disk,
    DisplayKey, Interface, Measured, NetExtras, Program, SessionEntry, WindowsFacts, V4, V6,
};
use sulltec_remote::json::{from_text, to_text, Json};
use sulltec_remote::perf::{perf, Load, Sample};
use sulltec_remote::policy::Overrides;
use sulltec_remote::script::{encoded_run, wrapper_script};
use sulltec_remote::scripts::{
    DEFENDER_SCRIPT, HOTFIX_SCRIPT, ROLES_SCRIPT, SERVICES_SCRIPT, WINUPDATE_SCRIPT,
};
use sulltec_remote::smbios::{parse_smbios, scrub_placeholder, table_of};

const DN: &str = "CN=WS01,OU=Workstations,OU=Sales,DC=corp,DC=ex,DC=com";

fn facts(netbios: &str, lsa: &str, is_domain: bool, dns: &str, dn: &str) -> DomainFacts {
    DomainFacts {
        netbios: netbios.to_owned(),
        lsa_dns: lsa.to_owned(),
        is_domain,
        dns_domain: dns.to_owned(),
        dn: dn.to_owned(),
    }
}

#[test]
fn a_machine_has_its_place_in_a_directory() {
    let a = ad_identity(&facts("CORP", "corp.ex.com", true, "other", DN));
    assert_eq!(
        (a.domain_dns.as_str(), a.domain_netbios.as_str(), a.ou.as_str(), a.workgroup.as_str()),
        ("corp.ex.com", "CORP", "Sales/Workstations", "")
    );
    let w = ad_identity(&facts("WORKGROUP", "", false, "suffix", ""));
    assert_eq!(
        (w.domain_dns.as_str(), w.domain_netbios.as_str(), w.ou.as_str(), w.workgroup.as_str()),
        ("suffix", "", "", "WORKGROUP")
    );
}

#[test]
fn a_workgroup_has_no_domain() {
    let local = |is_domain: bool| LocalDomain {
        dns_domain: "corp".to_owned(),
        name: "N".to_owned(),
        is_domain,
        dn: DN.to_owned(),
    };
    let d = console_identity(&local(true));
    assert_eq!(
        (d.domain_dns.as_str(), d.domain_netbios.as_str(), d.ou.as_str(), d.workgroup.as_str()),
        ("corp", "N", "Sales/Workstations", "")
    );
    let w = console_identity(&local(false));
    assert_eq!(
        (w.domain_dns.as_str(), w.domain_netbios.as_str(), w.ou.as_str(), w.workgroup.as_str()),
        ("", "", "", "N")
    );
}

#[test]
fn a_comma_behind_a_backslash_is_part_of_a_name() {
    assert_eq!(split_dn_components("OU=a\\,b,OU=c"), vec!["OU=a\\,b", "OU=c"]);
    assert_eq!(split_dn_components(""), vec![""]);
    assert_eq!(split_dn_components("a,\\"), vec!["a", "\\"]);
    assert_eq!(unescape_dn("a\\,b\\\\c\\"), "a,b\\c");
    assert_eq!(ou_path("CN=x, ou=a\\,b/c ,OU=d"), "d/a,b\u{2215}c");
}

#[test]
fn a_name_cannot_end_its_literal() {
    assert_eq!(keep_quotable("a'b\"c\u{7}d\u{85}", 3), "abc");
    let s = groups_script("CN='x'").expect("a script");
    assert!(s.contains("LDAP://CN=x')"), "{s}");
    assert!(groups_script("").is_none());
}

#[test]
fn groups_are_read_in_both_shapes() {
    assert_eq!(computer_groups(DN, &from_text(r#"["a",1,"b"]"#)), Some(vec!["a".to_owned(), "b".to_owned()]));
    assert_eq!(computer_groups(DN, &from_text(r#""a""#)), Some(vec!["a".to_owned()]));
    assert_eq!(computer_groups(DN, &from_text("{}")), Some(Vec::new()));
    assert_eq!(computer_groups(DN, &None), None);
    assert_eq!(computer_groups("", &from_text("[]")), None);
}

#[test]
fn an_empty_suffix_is_told_too() {
    let ad = AdIdentity {
        domain_dns: "d".to_owned(),
        domain_netbios: String::new(),
        ou: "o".to_owned(),
        workgroup: String::new(),
    };
    assert_eq!(
        to_text(&add_identity(Json::Null, &ad, "")),
        to_text(&add_identity(Json::object(), &ad, "")),
        "a null report becomes an object"
    );
    assert_eq!(
        to_text(&add_identity(Json::object(), &ad, "")),
        r#"{"dns_suffix":"","domain":"d","ou":"o"}"#
    );
}

fn structure(kind: u8, formatted: &[u8], texts: &[&str]) -> Vec<u8> {
    let mut v = vec![kind, formatted.len() as u8 + 4, 0, 0];
    v.extend_from_slice(formatted);
    for t in texts {
        v.extend_from_slice(t.as_bytes());
        v.push(0);
    }
    v.push(0);
    if texts.is_empty() {
        v.push(0);
    }
    v
}

#[test]
fn the_firmware_table_is_read() {
    let mut t = structure(2, &[], &[]);
    t.extend(structure(1, &[1, 2, 0, 3, 0], &["Maker ", "Model", "SN1"]));
    t.extend(structure(0, &[1, 2, 0, 0, 3], &["Vendor", "1.0", "01/02/2026"]));
    let s = parse_smbios(&t).expect("a table");
    assert_eq!((s.manufacturer.as_str(), s.product.as_str(), s.serial.as_str()), ("Maker", "Model", "SN1"));
    assert_eq!(
        (s.bios_vendor.as_str(), s.bios_version.as_str(), s.bios_date.as_str()),
        ("Vendor", "1.0", "01/02/2026")
    );
    let placeholder = structure(1, &[1, 1, 0, 1, 0], &["Default String"]);
    assert_eq!(parse_smbios(&placeholder).unwrap().serial, "");
    assert!(parse_smbios(&structure(3, &[], &["x"])).is_none());
    assert!(parse_smbios(&[]).is_none());
    let mut ended = structure(127, &[], &[]);
    ended.extend(structure(1, &[1], &["x"]));
    assert!(parse_smbios(&ended).is_none());
    assert!(parse_smbios(&[1, 200, 0, 0]).is_none());
    assert!(parse_smbios(&[1, 3, 0, 0]).is_none());
    assert_eq!(scrub_placeholder("To Be Filled By O.E.M.".to_owned()), "");
    assert_eq!(scrub_placeholder("X1".to_owned()), "X1");
    assert_eq!(table_of(&[0; 7]), None);
    assert_eq!(table_of(&[0, 0, 0, 0, 0, 0, 0, 0, 9]), Some(vec![9]));
}

fn v4(a: u8, b: u8, c: u8, d: u8) -> V4 {
    V4 { a, b, c, d }
}

fn v6(first: u16, loopback: bool, text: &str) -> V6 {
    V6 { first, loopback, text: text.to_owned() }
}

fn interfaces() -> Vec<Interface> {
    vec![
        Interface { mac: Some("00:00:00:00:00:00".to_owned()), v4: vec![v4(127, 0, 0, 1), v4(10, 0, 0, 1)], v6: vec![v6(0, true, "::1")] },
        Interface {
            mac: Some("aa:bb".to_owned()),
            v4: vec![v4(169, 254, 1, 1), v4(172, 16, 0, 1), v4(8, 8, 8, 8), v4(10, 0, 0, 1)],
            v6: vec![v6(0xfe80, false, "fe80::1"), v6(0xfd00, false, "fd00::1"), v6(0x2001, false, "2001::1"), v6(0xff02, false, "ff02::1")],
        },
        Interface { mac: Some("cc:dd".to_owned()), v4: vec![v4(172, 32, 0, 1), v4(192, 168, 1, 1)], v6: Vec::new() },
    ]
}

#[test]
fn addresses_are_parted() {
    let n = addresses(&interfaces());
    assert_eq!(n.v4_private, vec!["10.0.0.1", "169.254.1.1", "172.16.0.1", "192.168.1.1"]);
    assert_eq!(n.v4_public, vec!["8.8.8.8", "172.32.0.1"]);
    assert_eq!(n.v6_private, vec!["fe80::1", "fd00::1"]);
    assert_eq!(n.v6_public, vec!["2001::1"]);
    assert_eq!(n.mac, Some("aa:bb".to_owned()));
}

#[test]
fn a_network_is_reported() {
    let bare = network("h", &Vec::new(), &None);
    assert_eq!(
        to_text(&bare),
        r#"{"hostname":"h","ipv4_private":[],"ipv4_public":[],"ipv6_private":[],"ipv6_public":[]}"#
    );
    let extras = Some(NetExtras {
        dns_suffixes: vec!["s".to_owned()],
        dn: "CN=x".to_owned(),
        groups: Some(vec!["g".to_owned()]),
    });
    let full = network("h", &interfaces(), &extras);
    assert_eq!(full.get_str("mac"), Some("aa:bb"));
    assert_eq!(full.get_str("dn"), Some("CN=x"));
    assert_eq!(to_text(full.get("ad_groups").unwrap()), r#"["g"]"#);
}

fn adapter(dhcp_ip: &str, fixed_bytes: usize, domain: &str, dhcp_domain: &str) -> Adapter {
    Adapter {
        dhcp_ip: dhcp_ip.to_owned(),
        fixed_bytes,
        domain: domain.to_owned(),
        dhcp_domain: dhcp_domain.to_owned(),
    }
}

#[test]
fn suffixes_come_from_connected_adapters() {
    let list = vec![
        adapter("0.0.0.0", 4, "idle", "idle"),
        adapter("1.2.3.4", 0, " own ", "given"),
        adapter("1.2.3.4", 0, "", "Given"),
        adapter("", 6, "fixed", ""),
        adapter("1.2.3.4", 0, "GIVEN", ""),
    ];
    assert_eq!(dns_suffixes(&list), vec!["own", "Given", "fixed"]);
    assert_eq!(primary_dns_suffix(&list), "own");
    assert_eq!(primary_dns_suffix(&Vec::new()), "");
    let many: Vec<Adapter> = (0..20).map(|i| adapter("1.2.3.4", 0, &format!("s{i}"), "")).collect();
    assert_eq!(dns_suffixes(&many).len(), 8);
}

fn program(name: &str, version: &str) -> Program {
    Program {
        name: name.to_owned(),
        system_component: 0,
        parent: String::new(),
        version: version.to_owned(),
        publisher: "p".to_owned(),
        install_date: "d".to_owned(),
    }
}

#[test]
fn software_is_listed_once_and_in_order() {
    let wide = vec![
        program(" Zed ", "1"),
        program("alpha", "2"),
        program("  ", "1"),
        Program { system_component: 1, ..program("hidden", "1") },
        Program { parent: "x".to_owned(), ..program("patch", "1") },
    ];
    let narrow = vec![Program { publisher: "q".to_owned(), ..program("ALPHA", "2") }];
    let out: Vec<String> = software(&wide, &narrow).iter().map(to_text).collect();
    assert_eq!(
        out,
        vec![
            r#"{"install_date":"d","name":"ALPHA","publisher":"q","version":"2"}"#,
            r#"{"install_date":"d","name":"Zed","publisher":"p","version":"1"}"#,
        ]
    );
}

#[test]
fn software_stands_by_name_before_version() {
    let names = |list: Vec<Json>| -> Vec<String> {
        list.iter()
            .map(|r| format!("{} {}", r.get_str("name").unwrap(), r.get_str("version").unwrap()))
            .collect()
    };
    let wide = vec![program("Foo Bar", "1"), program("Foo", "1"), program("Foo", "0.9")];
    let narrow = vec![program("foo", "1"), program("Foo|1", ""), program("Foo", "1|")];
    assert_eq!(
        names(software(&wide, &narrow)),
        vec!["Foo 0.9", "foo 1", "Foo 1|", "Foo Bar 1", "Foo|1 "]
    );
}

#[test]
fn fixes_and_roles_are_read() {
    let one = hotfixes(&from_text(r#"{"HotFixID":" KB1 ","InstalledOn":" 2026 "}"#));
    assert_eq!(to_text(&one[0]), r#"{"id":"KB1","installed_on":"2026"}"#);
    assert_eq!(hotfixes(&from_text(r#"[{"HotFixID":" "},{"x":1}]"#)).len(), 0);
    assert_eq!(hotfixes(&from_text("7")).len(), 0);
    let many: Vec<Json> = (0..600).map(|i| Json::object().with("HotFixID", Json::text(&format!("KB{i}")))).collect();
    assert_eq!(hotfixes(&Some(Json::array(many))).len(), 500);
    assert_eq!(to_text(&server_roles(&from_text(r#"["dns",1]"#))), r#"["dns"]"#);
    assert_eq!(to_text(&server_roles(&from_text(r#""dns""#))), r#"["dns"]"#);
    assert_eq!(to_text(&server_roles(&None)), "[]");
}

#[test]
fn watched_services_have_the_registrys_labels() {
    let mut starts = Overrides::new();
    starts.insert("gpsvc", "automatic (trigger start)");
    let v = watched_services(&from_text(r#"[{"name":"GPSVC","start":"Automatic"},{"name":"bits","start":"Manual"},7]"#), &starts);
    assert_eq!(
        to_text(&v),
        r#"[{"name":"GPSVC","start":"automatic (trigger start)"},{"name":"bits","start":"Manual"},7]"#
    );
    assert_eq!(to_text(&watched_services(&None, &starts)), "[]");
    let s = watched_script();
    assert!(s.starts_with("Get-Service -Name 'WinDefend','WdNisSvc',"), "{s}");
    assert!(s.contains(",'LanmanWorkstation' -ErrorAction SilentlyContinue | Select-Object @{n='name';e={$_.Name}}"), "{s}");
}

#[test]
fn display_adapters_are_listed_once() {
    let key = |k: &str, d: Option<&str>| DisplayKey { key: k.to_owned(), description: d.map(str::to_owned) };
    assert_eq!(
        gpus(&vec![key("0000", Some(" GPU ")), key("0001", Some("GPU")), key("Properties", Some("x")), key("00a1", Some("y")), key("0002", None), key("0003", Some(" "))]),
        vec!["GPU"]
    );
}

fn disk(mount: &str, removable: bool) -> Disk {
    Disk {
        mount: mount.to_owned(),
        fs: "NTFS".to_owned(),
        kind: "SSD".to_owned(),
        total_gb: "1.5".to_owned(),
        free_gb: "0.5".to_owned(),
        removable,
    }
}

fn measured() -> Measured {
    Measured {
        cpu: cpu_label("Chip  ", Some("3.2"), 8, 4),
        memory_gb: "15.9".to_owned(),
        mem_used_gb: "1.0".to_owned(),
        cpu_pct: "2.5".to_owned(),
        uptime_secs: 7,
        disks: vec![disk("C:", false), disk("E:", true)],
    }
}

#[test]
fn hardware_is_reported() {
    assert_eq!(cpu_label("Chip", None, 2, 1), "Chip, 2/1 cores");
    let v = hardware(&measured(), None, Json::object());
    assert_eq!(
        to_text(&v),
        r#"{"cpu":"Chip, 3.2GHz, 8/4 cores","cpu_pct":2.5,"disks":[{"free_gb":0.5,"fs":"NTFS","kind":"SSD","mount":"C:","total_gb":1.5}],"mem_used_gb":1.0,"memory_gb":15.9,"network":{},"uptime_secs":7}"#
    );
    let w = WindowsFacts {
        smbios: parse_smbios(&structure(1, &[1, 1, 0, 1, 0], &["M"])),
        gpus: vec!["g".to_owned()],
        sessions: vec![SessionEntry { sid: 1, name: "Console: a".to_owned() }],
        hotfixes: Vec::new(),
        watched_services: Json::array(Vec::new()),
        roles: Json::array(Vec::new()),
    };
    let v = hardware(&measured(), Some(w), Json::object());
    assert_eq!(v.get_str("manufacturer"), Some("M"));
    assert_eq!(to_text(v.get("sessions").unwrap()), r#"[{"name":"Console: a","sid":1}]"#);
    let all = collect(v, Vec::new());
    assert!(all.get("hardware").is_some() && all.get("software").is_some());
}

fn sample(pid: u32, cpu_tenths: i64, memory: u64) -> Sample {
    Sample { pid, name: "p".to_owned(), cpu: format!("{}.{}", cpu_tenths / 10, cpu_tenths % 10), cpu_tenths, memory }
}

#[test]
fn a_load_sample_lists_the_heaviest() {
    let l = Load {
        cpu_pct: "5.5".to_owned(),
        mem_total: 1024 * 1024 * 1024,
        mem_used: 512 * 1024 * 1024,
        mem_pct: "50.0".to_owned(),
        processes: vec![sample(1, 5, 300 << 20), sample(2, 50, 100 << 20), sample(3, 20, 200 << 20)],
    };
    let v = perf(Some(r#"{"top_n":2}"#), &l);
    let pids = |k: &str| -> Vec<u64> {
        v.get(k).unwrap().as_array().unwrap().iter().map(|r| r.get_u64("pid").unwrap()).collect()
    };
    assert_eq!(pids("top_cpu"), vec![2, 3]);
    assert_eq!(pids("top_mem"), vec![1, 3]);
    assert_eq!(to_text(v.get("mem_total_mb").unwrap()), "1024.0");
    assert_eq!(to_text(v.get("mem_used_mb").unwrap()), "512.0");
    let many = Load { processes: (0..80).map(|i| sample(i, 0, 0)).collect(), ..l };
    let count = |p: Option<&str>| perf(p, &many).get("top_cpu").unwrap().as_array().unwrap().len();
    assert_eq!(count(None), 10);
    assert_eq!(count(Some(r#"{"top_n":500}"#)), 50);
    assert_eq!(count(Some(r#"{"top_n":0}"#)), 1);
    assert_eq!(count(Some(r#"{"top_n":-3}"#)), 10);
}

/// What stands behind the `#` of a comment on a line of PowerShell.
fn comment(line: &str) -> Option<&str> {
    let (mut quote, mut before) = (None, ' ');
    for (at, c) in line.char_indices() {
        match quote {
            Some(q) if c == q => quote = None,
            Some(_) => {}
            None if c == '\'' || c == '"' => quote = Some(c),
            None if c == '#' && (before.is_whitespace() || before == ';') => {
                return Some(&line[at + 1..]);
            }
            None => {}
        }
        before = c;
    }
    None
}

#[test]
fn no_line_of_a_script_has_code_behind_a_comment() {
    let swallows = |l: &str| comment(l).is_some_and(|c| c.contains(['$', '{', '}', '|', '=', '\\']));
    assert!(swallows("# a note  $x=1"));
    assert!(swallows("$x=1 # a note } catch {"));
    assert!(!swallows("# a note - the device's own; (1001/1002) or \"stale\""));
    assert!(!swallows("$x='# { }'; \"a # $y\" | Out-String"));
    let source = decode(encoded_run("C:\\x.ps1"), Variant::Original).unwrap();
    let units: Vec<u16> = source.chunks(2).map(|b| u16::from_le_bytes([b[0], b[1]])).collect();
    let scripts = [
        WINUPDATE_SCRIPT.to_owned(),
        DEFENDER_SCRIPT.to_owned(),
        ROLES_SCRIPT.to_owned(),
        SERVICES_SCRIPT.to_owned(),
        HOTFIX_SCRIPT.to_owned(),
        watched_script(),
        groups_script("CN=a,DC=b").unwrap(),
        powershell_script("Get-Date"),
        wrapper_script("C:\\x.ps1", "C:\\pid", "C:\\out", "C:\\flag", false),
        wrapper_script("C:\\x.ps1", "C:\\pid", "C:\\out", "C:\\flag", true),
        String::from_utf16(&units).unwrap(),
    ];
    for script in &scripts {
        let offenders: Vec<&str> = script.lines().filter(|l| swallows(l)).collect();
        assert!(offenders.is_empty(), "{offenders:#?}");
    }
    assert_eq!(scripts.iter().flat_map(|s| s.lines()).filter(|l| comment(l).is_some()).count(), 5);
}

#[test]
fn no_powershell_comment_swallows_its_script() {
    let flags = |l: &str| {
        let (t, e) = (l.trim_start(), l.trim_end());
        t.starts_with("# ") && e.ends_with('\\') && !e.ends_with("\\n\\")
    };
    let watched = watched_script();
    for script in [
        WINUPDATE_SCRIPT,
        DEFENDER_SCRIPT,
        ROLES_SCRIPT,
        SERVICES_SCRIPT,
        HOTFIX_SCRIPT,
        watched.as_str(),
    ] {
        let offenders: Vec<&str> = script.lines().filter(|l| flags(l)).collect();
        assert!(offenders.is_empty(), "{offenders:#?}");
    }
    assert!(flags(r"         # this swallows the next line\"), "a bare trailing continuation MUST be flagged");
    assert!(!flags(r"         # this is fine\n\"), "an explicit \\n before the continuation is safe and must NOT be flagged");
}
