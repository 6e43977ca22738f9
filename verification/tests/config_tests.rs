use backup_rs::config::{
    android_ftp_host, android_ftp_pass, android_ftp_port, android_ftp_user, backup_base,
    browsers, choose_editor, config_path, detect_platform, extra_backup_dirs, join_path,
    load_user_config, manifest_path, mihon_path, render_config, Platform,
    home_folder, vm_images_path, vm_qemu_path,
};
use backup_rs::keymap::KeyMap;

const TEMPLATE: &str = r#"# ── CONFIG for backup-restore ──────────────────────
# Uncomment and set any values you want to override.
# Lines starting with # are ignored.

# ── Backup destination ──
# Default: /mnt/HDD4T/BACKUP (Linux) or D:\BACKUP (Windows)
# BACKUP_BASE=/mnt/HDD4T/BACKUP

# ── Extra directories to back up (comma-separated, relative to ~/) ──
# Default: empty (no extra dirs)
# BACKUP_EXTRA_DIRS=

# ── Android FTP backup (IP of phone running CX File Explorer) ──
# Default: skipped (SMS/contacts still back up)
# ANDROID_FTP_HOST=
# Default: 2121
# ANDROID_FTP_PORT=2121
# Default: ftp
# ANDROID_FTP_USER=ftp
# Default: 0000
# ANDROID_FTP_PASS=0000

# ── Mihon manga backup path ──
# Default: /mnt/HDD4T/Mihon (Linux) or D:\Mihon (Windows)
# MIHON_PATH=/mnt/HDD4T/Mihon
"#;

fn entries(cfg: &KeyMap<String>) -> Vec<(String, String)> {
    (0..cfg.len()).map(|i| (cfg.key_at(i).clone(), cfg.value_at(i).clone())).collect()
}

fn get(cfg: &KeyMap<String>, key: &str) -> Option<String> {
    cfg.get(key).cloned()
}

#[test]
fn config_lines_skip_comments_and_blanks() {
    let cfg = load_user_config("# comment\n\n  BACKUP_BASE = /data/bk \nnot a setting\nANDROID_FTP_HOST=10.0.0.2\n");
    assert_eq!(get(&cfg, "BACKUP_BASE"), Some("/data/bk".to_string()));
    assert_eq!(get(&cfg, "ANDROID_FTP_HOST"), Some("10.0.0.2".to_string()));
    assert_eq!(cfg.len(), 2);
}

#[test]
fn later_config_line_wins() {
    let cfg = load_user_config("A=1\nA=2\n");
    assert_eq!(get(&cfg, "A"), Some("2".to_string()));
    assert_eq!(cfg.len(), 1);
}

#[test]
fn value_may_hold_equals_signs() {
    let cfg = load_user_config("ANDROID_FTP_PASS=a=b\n");
    assert_eq!(android_ftp_pass(&cfg), "a=b");
}

#[test]
fn missing_config_file_reads_as_empty() {
    let cfg = load_user_config("");
    assert_eq!(cfg.len(), 0);
    assert_eq!(android_ftp_host(&cfg), None);
}

#[test]
fn ftp_settings_defaults() {
    let cfg = load_user_config("");
    assert_eq!(android_ftp_port(&cfg), "2121");
    assert_eq!(android_ftp_user(&cfg), "ftp");
    assert_eq!(android_ftp_pass(&cfg), "0000");
    let cfg = load_user_config("ANDROID_FTP_PORT=5502\nANDROID_FTP_USER=me\n");
    assert_eq!(android_ftp_port(&cfg), "5502");
    assert_eq!(android_ftp_user(&cfg), "me");
}

#[test]
fn extra_dirs_are_trimmed_and_empty_ones_dropped() {
    let cfg = load_user_config("BACKUP_EXTRA_DIRS=/a, ,/b c ,\n");
    assert_eq!(extra_backup_dirs(&cfg), vec!["/a".to_string(), "/b c".to_string()]);
    assert_eq!(extra_backup_dirs(&load_user_config("")), Vec::<String>::new());
}

#[test]
fn backup_base_choices() {
    let empty = load_user_config("");
    assert_eq!(backup_base(&empty, Platform::Linux, None), "/mnt/HDD4T/BACKUP");
    assert_eq!(backup_base(&empty, Platform::Windows, Some("F:")), "F:\\BACKUP");
    assert_eq!(backup_base(&empty, Platform::Windows, None), "C:\\BACKUP");
    let set = load_user_config("BACKUP_BASE=/srv/b\n");
    assert_eq!(backup_base(&set, Platform::Windows, Some("E:")), "/srv/b");
}

#[test]
fn mihon_path_choices() {
    let empty = load_user_config("");
    assert_eq!(mihon_path(&empty, Platform::Linux, None), "/mnt/HDD4T/Mihon");
    assert_eq!(mihon_path(&empty, Platform::Windows, Some("D:")), "D:\\Mihon");
    assert_eq!(mihon_path(&empty, Platform::Windows, None), "C:\\Mihon");
    let set = load_user_config("MIHON_PATH=/m\n");
    assert_eq!(mihon_path(&set, Platform::Linux, None), "/m");
}

#[test]
fn platform_detection() {
    assert_eq!(detect_platform(false, false, false), Platform::Linux);
    assert_eq!(detect_platform(false, true, false), Platform::Windows);
}

#[test]
fn config_file_location() {
    assert_eq!(config_path("/home/u"), "/home/u/.config/backup-restore/config");
    assert_eq!(config_path("/home/u/"), "/home/u/.config/backup-restore/config");
    assert_eq!(config_path(""), ".config/backup-restore/config");
    assert_eq!(join_path("/", "x"), "/x");
    let std_join = std::path::PathBuf::from("/home/u").join(".config").join("backup-restore").join("config");
    assert_eq!(config_path("/home/u"), std_join.to_string_lossy());
}

#[test]
fn manifest_location() {
    assert_eq!(manifest_path(Platform::Linux, None, "/home/u"), "/home/u/.local/share/backup-restore/manifest");
    assert_eq!(manifest_path(Platform::Windows, Some("C:\\Users\\u\\AppData"), "x"), "C:\\Users\\u\\AppData\\backup-restore\\manifest");
    assert_eq!(manifest_path(Platform::Windows, None, "x"), "C:\\Windows\\manifest");
}

#[test]
fn edit_template_without_settings() {
    assert_eq!(render_config(""), TEMPLATE);
    assert_eq!(render_config("# only comments\n\n"), TEMPLATE);
}

#[test]
fn edit_keeps_active_settings_after_the_template() {
    let old = "  BACKUP_BASE=/x \n# MIHON_PATH=/y\nnoise\nANDROID_FTP_HOST=1.2.3.4\r\n";
    let out = render_config(old);
    let expected = format!("{}\n# ── Active user overrides ──\nBACKUP_BASE=/x\nANDROID_FTP_HOST=1.2.3.4\n", TEMPLATE);
    assert_eq!(out, expected);
}

#[test]
fn edit_keeps_settings() {
    for old in ["", "A=1\n", "A=1\nA=2\n# B=3\n  C = 4  \nD\n", "E=5\r\nF==6"] {
        let before = load_user_config(old);
        let after = load_user_config(&render_config(old));
        assert_eq!(entries(&before), entries(&after), "input {:?}", old);
    }
}

#[test]
fn editor_choice() {
    assert_eq!(choose_editor(Some("hx".into()), Some("vi".into()), &vec![true, true, true]), "hx");
    assert_eq!(choose_editor(None, Some("vi".into()), &vec![true, true, true]), "vi");
    assert_eq!(choose_editor(None, None, &vec![false, true, true]), "vim");
    assert_eq!(choose_editor(None, None, &vec![false, false, false]), "nano");
}

#[test]
fn browser_profiles_per_platform() {
    let linux = browsers(Platform::Linux);
    assert_eq!(linux.len(), 4);
    assert_eq!(linux[0], (".mozilla".to_string(), "mozilla".to_string()));
    let win = browsers(Platform::Windows);
    assert_eq!(win[3], ("AppData\\Local\\BraveSoftware\\Brave-Browser\\User Data".to_string(), "BraveSoftware".to_string()));
}

#[test]
fn virtual_machine_folders_follow_the_config() {
    let cfg = load_user_config("");
    assert_eq!(vm_qemu_path(&cfg), "/etc/libvirt/qemu");
    assert_eq!(vm_images_path(&cfg), "/var/lib/libvirt/images");
    let cfg = load_user_config("VM_IMAGES_SRC=/data/vm\nVM_QEMU_SRC = /data/qemu\n");
    assert_eq!(vm_qemu_path(&cfg), "/data/qemu");
    assert_eq!(vm_images_path(&cfg), "/data/vm");
}

#[test]
fn home_folder_choice() {
    assert_eq!(home_folder(Platform::Linux, Some("/home/u"), None), "/home/u");
    assert_eq!(home_folder(Platform::Linux, None, Some("C:\\Users\\u")), "/root");
    assert_eq!(home_folder(Platform::Windows, None, Some("C:\\Users\\u")), "C:\\Users\\u");
    assert_eq!(home_folder(Platform::Windows, None, None), "C:\\Users\\Default");
    assert_eq!(home_folder(Platform::Windows, Some("H:\\me"), Some("C:\\Users\\u")), "H:\\me");
}

#[test]
fn second_edit_writes_the_same_text() {
    let once = render_config("# c\n  KEY = v \nOTHER=1\n");
    assert_eq!(render_config(&once), once);
    let plain = render_config("");
    assert_eq!(render_config(&plain), plain);
}
