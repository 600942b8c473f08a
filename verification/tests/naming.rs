use sulltec_remote::naming::{
    crossover_cleanup_cmds, crossover_repair_cmds, crossover_stop_cmds, expand_start_menu,
    file_name, get_app_exe_name, get_app_ident, installed_legacy_exe, is_installed_either_name,
    legacy_shortcut, Installed, LEGACY_DISPLAY_NAME, LEGACY_EXE_NAME,
};
use sulltec_remote::offer::{
    offer_portable_in_place_update, read_installed_build_date, update_launched, Started,
};

const DIR: &str = "C:\\Program Files\\SullTecRemote";
const CURRENT: &str = "C:\\Program Files\\SullTecRemote\\sulltecremote.exe";

fn found(current: bool, legacy: bool) -> Installed {
    Installed { current, legacy }
}

#[test]
fn no_legacy_exe_means_no_extra_commands() {
    let none = found(false, false);
    assert!(installed_legacy_exe(DIR, &none).is_none());
    assert_eq!(crossover_stop_cmds(DIR, &none), "");
    assert_eq!(crossover_cleanup_cmds(DIR, CURRENT, &none), "");
}

#[test]
fn current_exe_wins_over_a_leftover_legacy_one() {
    assert!(installed_legacy_exe(DIR, &found(true, true)).is_none());
}

#[test]
fn a_legacy_install_is_detected_without_yielding_a_path_to_write() {
    let old = found(false, true);
    assert!(is_installed_either_name(DIR, &old));
    assert!(crossover_cleanup_cmds(DIR, CURRENT, &old).contains(LEGACY_EXE_NAME));
    assert!(installed_legacy_exe(DIR, &old).unwrap() != CURRENT);
}

#[test]
fn the_delete_is_guarded_on_the_replacement_existing() {
    let old = found(false, true);
    let stop = crossover_stop_cmds(DIR, &old);
    assert!(stop.contains("taskkill"), "{stop}");
    assert!(!stop.contains("del "), "the stop half must not delete: {stop}");

    let cleanup = crossover_cleanup_cmds(DIR, CURRENT, &old);
    assert!(cleanup.contains("del /f /q"), "{cleanup}");
    assert!(
        cleanup.contains("if exist \"") && cleanup.contains("sulltecremote.exe\""),
        "the delete must be guarded on the replacement: {cleanup}"
    );
}

#[test]
fn the_repair_rebuilds_shortcuts_and_drops_the_stale_arp_key() {
    let old = found(false, true);
    let out = crossover_repair_cmds("SullTecRemote", DIR, &old, false, "C:\\SM", "MK", "UN");
    assert!(out.contains("MK") && out.contains("UN"), "payloads passed through: {out}");
    assert!(out.contains("Uninstall SullTec Remote.lnk"), "stale shortcut not removed: {out}");
    assert!(out.contains("reg delete"), "orphaned ARP key not removed: {out}");
    assert!(out.contains("Wow6432Node"), "the 32-bit ARP view must be cleaned too: {out}");

    let crossed = found(true, true);
    assert_eq!(crossover_repair_cmds("SullTecRemote", DIR, &crossed, false, "C:\\SM", "MK", "UN"), "");
}

#[test]
fn a_crossed_but_unrepaired_machine_still_gets_repaired() {
    let crossed = found(true, false);
    assert!(installed_legacy_exe(DIR, &crossed).is_none());
    assert_eq!(legacy_shortcut(), format!("{LEGACY_DISPLAY_NAME}.lnk"));
    let out = crossover_repair_cmds("SullTecRemote", DIR, &crossed, true, "C:\\SM", "MK", "UN");
    assert!(!out.is_empty(), "a stranded machine must still be repaired");
    assert!(out.contains("reg delete"), "{out}");
}

#[test]
fn legacy_exe_alone_is_detected_and_cleaned() {
    let old = found(false, true);
    assert!(installed_legacy_exe(DIR, &old).is_some());
    assert!(crossover_stop_cmds(DIR, &old).contains("taskkill"));
    assert!(crossover_cleanup_cmds(DIR, CURRENT, &old).contains(LEGACY_EXE_NAME));
}

#[test]
fn the_commands_are_spelled_like_this() {
    let old = found(false, true);
    assert_eq!(crossover_stop_cmds("C:\\d", &old), "\ntaskkill /F /IM \"sulltec-remote.exe\"\n");
    assert_eq!(
        crossover_cleanup_cmds("C:\\d\\", "C:\\d\\new.exe", &old),
        "\nif exist \"C:\\d\\new.exe\" if exist \"C:\\d\\sulltec-remote.exe\" del /f /q \"C:\\d\\sulltec-remote.exe\"\n"
    );
    assert_eq!(
        crossover_repair_cmds("App", "C:\\d", &old, false, "M", "MK", "UN"),
        "\nMK\nUN\nmd \"M\"\ncopy /Y \"%RUSTDESK_OUTPUT_DIR%\\App.lnk\" \"M\\\"\ncopy /Y \"%RUSTDESK_OUTPUT_DIR%\\Uninstall App.lnk\" \"M\\\"\nif exist \"M\\SullTec Remote.lnk\" del /f /q \"M\\SullTec Remote.lnk\"\nif exist \"M\\Uninstall SullTec Remote.lnk\" del /f /q \"M\\Uninstall SullTec Remote.lnk\"\nreg delete \"HKEY_LOCAL_MACHINE\\Software\\Microsoft\\Windows\\CurrentVersion\\Uninstall\\SullTec Remote\" /f\nreg delete \"HKEY_LOCAL_MACHINE\\Software\\Wow6432Node\\Microsoft\\Windows\\CurrentVersion\\Uninstall\\SullTec Remote\" /f\n"
    );
    assert_eq!(installed_legacy_exe("C:\\d\\\\", &old), Some("C:\\d\\sulltec-remote.exe".to_owned()));
    assert_eq!(file_name("C:/a\\b.exe"), "b.exe");
    assert_eq!(file_name("b.exe"), "b.exe");
    for (path, name) in [
        ("C:\\App\\x.exe\\", "x.exe"),
        ("C:\\App\\x.exe\\/\\", "x.exe"),
        ("C:\\App\\x.exe\\.", "x.exe"),
        ("C:\\App\\..", ""),
        ("C:\\App\\..\\", ""),
        ("C:x", "x"),
        ("C:", ""),
        ("C:\\", ""),
        ("1:x", "1:x"),
        ("\\\\server\\share", ""),
        ("\\\\server\\share\\x.exe", "x.exe"),
        ("\\\\?\\C:\\x.exe", "x.exe"),
        ("\\\\?\\C:\\App\\a/b.exe\\", "a/b.exe"),
        ("\\\\?\\C:\\App\\.", ""),
        ("\\\\?\\C:", ""),
        ("\\\\?\\name", ""),
        ("\\\\?\\", ""),
        ("\\\\?", "?"),
        ("\\\\?\\UNC\\server\\share", ""),
        ("\\\\?\\UNC\\server\\share\\x.exe", "x.exe"),
        ("\\\\.\\COM1", ""),
        ("\\\\server", "server"),
        ("\\x", "x"),
        (".", ""),
        ("", ""),
    ] {
        assert_eq!(file_name(path), name, "{path}");
    }
    assert_eq!(
        crossover_cleanup_cmds("C:\\App", "C:\\App\\x.exe\\", &old),
        "\nif exist \"C:\\App\\x.exe\" if exist \"C:\\App\\sulltec-remote.exe\" del /f /q \"C:\\App\\sulltec-remote.exe\"\n"
    );
    assert_eq!(expand_start_menu("%ProgramData%\\x", Some("C:\\PD")), Some("C:\\PD\\x".to_owned()));
    assert_eq!(expand_start_menu("%ProgramData%\\x", None), None);
}

#[test]
fn names_have_their_forms() {
    assert_eq!(get_app_ident("SullTec Remote"), "sulltecremote");
    assert_eq!(get_app_ident("Ä-b 2"), "b2");
    assert_eq!(get_app_exe_name("sulltec-remote"), "sulltec-remote.exe");
}

fn by_user() -> Started {
    Started { args_empty: true, no_server: false, quick_support: false, elevate: false, run_as_system: false }
}

#[test]
fn an_older_program_is_offered_an_update() {
    let date = read_installed_build_date(b" 2026-01-01 10:00\r\n").expect("a date");
    assert_eq!(date, "2026-01-01 10:00");
    assert_eq!(read_installed_build_date(b" \r\n"), None);
    let p = offer_portable_in_place_update(&by_user(), false, true, "2026-01-02 10:00", Some(&date), "App", "1.2+3")
        .expect("a question");
    assert_eq!(p.caption, "App - Update");
    assert_eq!(
        p.text,
        "An older App is already installed on this computer (built 2026-01-01 10:00).\n\nUpdate it to version 1.2 now? The program will briefly close to apply the update."
    );
    let ask = |s: &Started, here: bool, installed: bool, build: &str, other: Option<&str>| {
        offer_portable_in_place_update(s, here, installed, build, other, "App", "1").is_some()
    };
    assert!(!ask(&by_user(), true, true, "2", Some("1")));
    assert!(!ask(&by_user(), false, false, "2", Some("1")));
    assert!(!ask(&by_user(), false, true, "2", None));
    assert!(!ask(&by_user(), false, true, "2", Some("2")));
    for s in [
        Started { args_empty: false, ..by_user() },
        Started { no_server: true, ..by_user() },
        Started { quick_support: true, ..by_user() },
        Started { elevate: true, ..by_user() },
        Started { run_as_system: true, ..by_user() },
    ] {
        assert!(!ask(&s, false, true, "2", Some("1")));
    }
    assert!(update_launched(true, Some(true)));
    assert!(!update_launched(true, Some(false)));
    assert!(!update_launched(true, None));
    assert!(!update_launched(false, Some(true)));
}
