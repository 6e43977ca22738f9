use backup_rs::config::Platform;
use backup_rs::util::{
    checkers_kind, copy_command, detect_checkers, detect_path, fmt, fmt_command, init_log,
    install_deps, lsblk_command, missing_packages, needs_device_name, no_color, palette,
    push_excludes, strip_ansi, os_tag_of, InstallNotice, InstallState, InstallStep, Installer, LogTarget,
};

#[test]
fn ansi_codes_are_removed_for_the_log() {
    assert_eq!(strip_ansi("\x1b[1m[\x1b[0;32m*\x1b[0m\x1b[1m]\x1b[0m hello"), "[*] hello");
    assert_eq!(strip_ansi("\x1bXab"), "ab");
    assert_eq!(strip_ansi("tail\x1b"), "tail");
    assert_eq!(strip_ansi("\x1b[31never closed"), "");
    assert_eq!(strip_ansi("plain"), "plain");
}

#[test]
fn stripped_text_holds_no_escape() {
    let s = "\x1b\x1b[0mA\x1b[1;37m\x1b\x1bB\x1b";
    let once = strip_ansi(s);
    assert!(!once.contains('\x1b'));
    assert_eq!(strip_ansi(&once), once);
}

#[test]
fn colours_follow_no_color() {
    assert!(no_color(Some("1")));
    assert!(!no_color(Some("")));
    assert!(!no_color(None));
    let on = palette(false);
    assert_eq!(on.r, "\x1b[0;31m");
    assert_eq!(on.n, "\x1b[0m");
    let off = palette(true);
    assert_eq!(off.g, "");
    assert_eq!(off.bold, "");
}

#[test]
fn log_target_is_set_once() {
    let mut log = LogTarget { path: None };
    init_log(&mut log, "/a/backup.log".to_string());
    init_log(&mut log, "/b/backup.log".to_string());
    assert_eq!(log.path, Some("/a/backup.log".to_string()));
}

#[test]
fn copy_command_with_and_without_sudo() {
    let c = copy_command("/home/u/", "/bk/home", 8, true, &vec!["--links".to_string()]);
    assert_eq!(c.program, "sudo");
    assert_eq!(
        c.args,
        vec!["rclone", "copy", "/home/u/", "/bk/home", "--progress", "--stats=1s", "--checkers=8", "--transfers=8", "--links"]
    );
    let c = copy_command("a", "b", 1, false, &vec![]);
    assert_eq!(c.program, "rclone");
    assert_eq!(c.args[0], "copy");
    assert_eq!(c.args.len(), 7);
}

#[test]
fn excludes_precede_each_pattern() {
    let mut args = vec!["--links".to_string()];
    push_excludes(&mut args, &vec!["a/".to_string(), "*.bak".to_string()]);
    assert_eq!(args, vec!["--links", "--exclude", "a/", "--exclude", "*.bak"]);
}

#[test]
fn sizes_for_people() {
    assert_eq!(fmt_command(1610612736), "numfmt --to=iec 1610612736");
    assert_eq!(fmt(1610612736, "1.5G"), "1.5G");
    assert_eq!(fmt(1610612736, ""), "1536 MiB");
    assert_eq!(fmt(1048575, ""), "0 MiB");
}

#[test]
fn backup_path_on_linux() {
    assert_eq!(detect_path("/mnt/HDD4T/BACKUP", "desk", Platform::Linux, "arch"), "/mnt/HDD4T/BACKUP/desk-arch");
    assert_eq!(detect_path("/mnt/HDD4T/BACKUP", "cachyos", Platform::Linux, "cachyos"), "/mnt/HDD4T/BACKUP/cachyos");
    assert_eq!(detect_path("/b", "CachyOS-PC", Platform::Linux, "cachyos"), "/b/CachyOS-PC");
    assert_eq!(detect_path("/b", "", Platform::Linux, ""), "/b/unknown");
}

#[test]
fn backup_path_on_windows() {
    assert_eq!(detect_path("E:\\BACKUP", "PC", Platform::Windows, "ignored"), "E:\\BACKUP\\PC");
}

#[test]
fn drive_kinds() {
    assert!(needs_device_name("0"));
    assert!(!needs_device_name("1"));
    assert_eq!(detect_checkers("1", ""), 1);
    assert_eq!(detect_checkers("", ""), 1);
    assert_eq!(detect_checkers("0", "nvme0n1"), 16);
    assert_eq!(detect_checkers("0", "sda"), 8);
    assert_eq!(checkers_kind(1), "HDD");
    assert_eq!(checkers_kind(8), "SSD");
    assert_eq!(checkers_kind(16), "NVMe");
    assert_eq!(
        lsblk_command("rota", "/mnt/x"),
        "lsblk -ndo rota $(findmnt -T '/mnt/x' -o SOURCE | tail -1) 2>/dev/null"
    );
}

fn run(windows: bool, answers: &[bool]) -> (Vec<String>, Option<bool>) {
    let mut state = InstallState::Start { windows };
    let mut answer = false;
    let mut answers = answers.iter();
    let mut trace = Vec::new();
    for _ in 0..64 {
        let (next, step) = install_deps(state, answer);
        state = next;
        match step {
            InstallStep::Probe(c) => {
                trace.push(format!("probe {}", c));
                answer = *answers.next().expect("more probes than answers");
            }
            InstallStep::Run(c) => trace.push(format!("run {}", c)),
            InstallStep::Notice(n) => trace.push(format!("notice {:?}", n)),
            InstallStep::Finish(ok) => return (trace, Some(ok)),
        }
    }
    (trace, None)
}

#[test]
fn windows_with_rclone_installed() {
    let (trace, ok) = run(true, &[true]);
    assert_eq!(ok, Some(true));
    assert_eq!(trace, vec!["probe where rclone"]);
}

#[test]
fn windows_installs_through_winget() {
    let (trace, ok) = run(true, &[false, true, true]);
    assert_eq!(ok, Some(true));
    assert_eq!(trace, vec![
        "probe where rclone".to_string(),
        format!("notice {:?}", InstallNotice::RcloneNotFound),
        "probe where winget".to_string(),
        format!("notice {:?}", InstallNotice::Installing(Installer::Winget)),
        "run winget install --id Rclone.Rclone --silent --accept-package-agreements --accept-source-agreements".to_string(),
        "probe where rclone".to_string(),
        format!("notice {:?}", InstallNotice::Installed(Installer::Winget)),
    ]);
}

#[test]
fn windows_without_installers() {
    let (trace, ok) = run(true, &[false, false, false]);
    assert_eq!(ok, Some(false));
    assert_eq!(trace.last().unwrap(), &format!("notice {:?}", InstallNotice::NoInstaller));
}

#[test]
fn windows_failed_install_falls_back_to_choco() {
    let (trace, ok) = run(true, &[false, true, false, true, false]);
    assert_eq!(ok, Some(false));
    assert!(trace.contains(&"run choco install rclone -y".to_string()));
    assert_eq!(trace.last().unwrap(), &format!("notice {:?}", InstallNotice::InstallFailed));
}

#[test]
fn linux_installs_missing_packages() {
    // no pacman, apt-get present; rclone present, gdu and fzf missing
    let (trace, ok) = run(false, &[false, true, true, false, false]);
    assert_eq!(ok, Some(true));
    assert_eq!(trace, vec![
        "probe which pacman".to_string(),
        "probe which apt-get".to_string(),
        "probe which rclone".to_string(),
        "probe which gdu".to_string(),
        "probe which fzf".to_string(),
        format!("notice {:?}", InstallNotice::InstallingPackages),
        "run sudo apt-get install -y gdu".to_string(),
        "run sudo apt-get install -y fzf".to_string(),
    ]);
    assert_eq!(missing_packages(false, true, true), vec!["gdu", "fzf"]);
}

#[test]
fn linux_with_everything_installed() {
    let (trace, ok) = run(false, &[true, true, true, true]);
    assert_eq!(ok, Some(true));
    assert_eq!(trace.len(), 4);
}

#[test]
fn linux_without_package_manager() {
    let (trace, ok) = run(false, &[false, false, false, false, false]);
    assert_eq!(ok, Some(false));
    assert_eq!(trace.last().unwrap(), &format!("notice {:?}", InstallNotice::NoPackageManager));
    assert_eq!(trace[4], "probe which apk");
}

#[test]
fn installer_always_finishes() {
    for windows in [false, true] {
        for bits in 0u32..(1 << 12) {
            let answers: Vec<bool> = (0..12).map(|i| bits & (1 << i) != 0).collect();
            let (trace, ok) = run(windows, &answers);
            assert!(ok.is_some());
            assert!(trace.len() <= 30);
        }
    }
}

#[test]
fn os_tag_from_lowered_names() {
    assert_eq!(os_tag_of("Arch", "desk", "arch"), "-Arch");
    assert_eq!(os_tag_of("CachyOS", "cachyos-pc", "cachyos"), "");
    assert_eq!(os_tag_of("", "desk", ""), "");
}

#[test]
fn stripped_text_keeps_the_order_of_characters() {
    let s = "a\x1b[1mb\x1bXc\x1b[0;32md";
    let out = strip_ansi(s);
    assert_eq!(out, "abcd");
    let mut rest = s.chars();
    for c in out.chars() {
        assert!(rest.any(|x| x == c));
    }
}
