use backup_rs::backup::{
    incomplete_backup,
    backup_config, backup_home, browser_copy_extra, browser_jobs, complete_marker, confirm_overwrite,
    du_command, estimate_home_size, extra_dest, extra_target, gdu_command, gdu_ignore_arg, gdu_size,
    home_scan_paths, log_path, mount_base, mount_check_command, os_id_from_release,
    package_list_commands, package_list_shell, vm_config_command, vm_dest, vm_images_job,
    Condition, SyncTally, FolderSync, confirms, release_id,
};
use backup_rs::config::Platform;
use backup_rs::manifest::load_manifest;

#[test]
fn gdu_output_is_read_as_bytes() {
    assert_eq!(gdu_size("123456\n"), 123456);
    assert_eq!(gdu_size(""), 0);
    assert_eq!(gdu_size("12 KiB"), 0);
    assert_eq!(
        gdu_command("/home/u/Music", ".cache,target"),
        "gdu -n -s -p --no-prefix --ignore-dirs '.cache,target' '/home/u/Music' 2>/dev/null | awk '{print $1}'"
    );
    assert!(gdu_ignore_arg().starts_with(".cache,node_modules,target,"));
    assert!(gdu_ignore_arg().ends_with(",GPUCache,Caches"));
}

#[test]
fn home_estimate_adds_folder_sizes() {
    assert_eq!(estimate_home_size(false, &vec![5, 6]), Some(0));
    assert_eq!(estimate_home_size(true, &vec![5, 6, 7]), Some(18));
    assert_eq!(estimate_home_size(true, &vec![]), Some(0));
    assert_eq!(estimate_home_size(true, &vec![u64::MAX, 1]), None);
    let paths = home_scan_paths("/home/u");
    assert_eq!(paths.len(), 14);
    assert_eq!(paths[0], "/home/u/Documents");
    assert_eq!(paths[13], "/home/u/.icons");
}

#[test]
fn os_id_from_os_release() {
    assert_eq!(os_id_from_release("NAME=\"Arch Linux\"\nID=\"Arch\"\nID_LIKE=x\n"), "arch");
    assert_eq!(os_id_from_release("ID_LIKE=debian\nID=ubuntu\n"), "ubuntu");
    assert_eq!(os_id_from_release("NAME=x\n"), "");
    assert_eq!(os_id_from_release(""), "");
}

#[test]
fn package_lists_per_family() {
    let arch = package_list_commands("cachyos");
    let files: Vec<&str> = arch.iter().map(|p| p.1.as_str()).collect();
    assert_eq!(files, vec!["packages-pacman-official.txt", "packages-aur.txt", "flatpak-list.txt", "snap-list.txt"]);
    let deb = package_list_commands("ubuntu");
    assert_eq!(deb[0], ("dpkg --get-selections".to_string(), "packages-dpkg.txt".to_string()));
    assert_eq!(deb.len(), 3);
    let fedora = package_list_commands("rocky");
    assert_eq!(fedora[0].0, "dnf list installed 2>/dev/null | tail -n +2 | awk '{print $1}'");
    let unknown = package_list_commands("gentoo");
    assert_eq!(unknown.len(), 8);
    assert_eq!(package_list_commands("alpine")[0].1, "packages-apk.txt");
    assert_eq!(package_list_commands("opensuse-leap")[0].1, "packages-zypper.txt");
    assert_eq!(
        package_list_shell("snap list", "/bk", "snap-list.txt"),
        "snap list > '/bk/snap-list.txt' 2>/dev/null"
    );
}

#[test]
fn settings_copies_on_linux() {
    let jobs = backup_config(Platform::Linux, "/home/u", "", "/bk");
    assert_eq!(jobs.len(), 4);
    assert_eq!(jobs[0].src, "/home/u/.config/");
    assert_eq!(jobs[0].dst, "/bk/config");
    assert!(matches!(jobs[0].condition, Condition::Always));
    assert_eq!(&jobs[0].extra[0..4], &["--exclude", "Cache", "--exclude", "cache"]);
    assert_eq!(jobs[0].extra.len(), 2 * (5 + 27));
    assert_eq!(jobs[3].src, "/home/u/.local/share/keyrings");
    assert_eq!(jobs[3].dst, "/bk/.local/share/keyrings");
    assert!(matches!(&jobs[3].condition, Condition::IsDir(p) if p == "/home/u/.local/share/keyrings"));
}

#[test]
fn settings_copies_on_windows() {
    let jobs = backup_config(Platform::Windows, "", "C:\\Users\\u", "D:\\BACKUP\\pc");
    assert_eq!(jobs.len(), 3);
    assert_eq!(jobs[0].src, "C:\\Users\\u\\.ssh");
    assert_eq!(jobs[0].dst, "D:\\BACKUP\\pc/.ssh");
    assert!(matches!(&jobs[0].condition, Condition::IsDirOrFile(d, f) if d == "C:\\Users\\u\\.ssh" && f == "C:\\Users\\u\\.ssh.gitconfig"));
    assert_eq!(jobs[1].src, "C:\\Users\\u\\.gnupg");
    assert_eq!(jobs[2].src, "C:\\Users\\u\\gitconfig");
    assert_eq!(jobs[2].dst, "D:\\BACKUP\\pc/gitconfig");
}

#[test]
fn browser_copies() {
    let jobs = browser_jobs(Platform::Linux, "/home/u", "", "/bk");
    assert_eq!(jobs.len(), 4);
    assert_eq!(jobs[1].name, "chromium");
    assert_eq!(jobs[1].src, "/home/u/.config/chromium");
    assert_eq!(jobs[1].copy_src, "/home/u/.config/chromium/");
    assert_eq!(jobs[1].copy_dst, "/bk/browser/chromium/");
    let win = browser_jobs(Platform::Windows, "", "C:\\Users\\u", "D:\\b");
    assert_eq!(win[0].src, "C:\\Users\\u\\AppData\\Roaming\\Mozilla");
    let extra = browser_copy_extra();
    assert_eq!(extra.len(), 2 * (5 + 4));
    assert_eq!(extra[extra.len() - 1], "Safe Browsing");
}

#[test]
fn tally_summary() {
    let mut t = SyncTally::new();
    assert_eq!(t.summary(), None);
    t.copied();
    t.skipped_one();
    t.skipped_one();
    assert_eq!(t.summary(), Some("Done: 1 backed up, 2 skipped".to_string()));
}

#[test]
fn virtual_machine_copies() {
    let d = vm_dest("/bk");
    assert_eq!(d, "/bk/virt-manager");
    assert_eq!(vm_config_command(&d, "/etc/libvirt/qemu"), "sudo cp -a '/etc/libvirt/qemu' '/bk/virt-manager/' 2>/dev/null");
    assert_eq!(vm_config_command(&d, "/data/qemu"), "sudo cp -a '/data/qemu' '/bk/virt-manager/' 2>/dev/null");
    let j = vm_images_job(&d, "/data/vm");
    assert_eq!(j.src, "/data/vm");
    assert!(matches!(&j.condition, Condition::IsDir(p) if p == "/data/vm"));
    assert_eq!(j.dst, "/bk/virt-manager/images/");
    assert!(j.sudo);
    assert_eq!(j.extra, vec!["--inplace"]);
}

#[test]
fn home_copy() {
    let j = backup_home(Platform::Linux, "/home/u", "/bk");
    assert_eq!(j.src, "/home/u/");
    assert_eq!(j.dst, "/bk/home");
    assert!(j.sudo);
    assert_eq!(j.extra[0], "--links");
    assert_eq!(j.extra[1], "--exclude");
    assert_eq!(j.extra[2], ".cache/");
    assert_eq!(j.extra.len(), 1 + 2 * 25);
}

#[test]
fn home_copy_on_windows() {
    let j = backup_home(Platform::Windows, "C:/Users/u", "D:/BACKUP/pc");
    assert_eq!(j.src, "C:/Users/u/");
    assert_eq!(j.dst, "D:/BACKUP/pc/home");
    assert!(!j.sudo);
    assert!(!j.extra.iter().any(|a| a == "--links"));
    assert_eq!(j.extra[0], "--exclude");
    assert_eq!(j.extra.len(), 2 * 25);
}

#[test]
fn extra_folder_targets() {
    let d = extra_dest("/bk");
    assert_eq!(d, "/bk/extra");
    assert_eq!(extra_target(&d, "/data/photos/"), ("photos".to_string(), "/bk/extra/photos".to_string()));
    assert_eq!(extra_target(&d, "/"), ("".to_string(), "/bk/extra/".to_string()));
}

#[test]
fn extra_names_like_std() {
    assert_eq!(extra_target("/x", "/a/b/Stuff").0, "Stuff");
    assert_eq!(extra_target("/x", "a/..").0, "");
    for p in ["/a/b", "/a/b/", "a", "/", "", ".", "..", "a/..", "./x", "a/./", "a//b", "a/.", "/.hidden"] {
        let expected = std::path::Path::new(p).file_name().map(|n| n.to_string_lossy().to_string()).unwrap_or_default();
        assert_eq!(extra_target("/x", p).0, expected, "path {:?}", p);
    }
}

#[test]
fn changed_folders_only_are_copied() {
    let mut sync = FolderSync::new(load_manifest("mozilla=100\nchromium=50\n"));
    assert!(!sync.needs_copy("mozilla", 100));
    assert!(sync.needs_copy("chromium", 60));
    sync.copy_done("chromium".to_string(), 60, true);
    assert!(sync.needs_copy("extra", 7));
    sync.copy_done("extra".to_string(), 7, false);
    assert!(!sync.needs_copy("chromium", 60));
    assert!(sync.needs_copy("extra", 7));
    assert_eq!(sync.tally.summary(), Some("Done: 2 backed up, 2 skipped".to_string()));
    assert_eq!(sync.manifest.get("extra"), None);
}

#[test]
fn lowered_answers_and_release_ids() {
    assert!(confirms("y"));
    assert!(!confirms("Y"));
    assert!(!confirms("yes"));
    assert_eq!(release_id("NAME=x\nID=\" Arch \"\nID=debian\n"), Some("Arch".to_string()));
    assert_eq!(release_id("NAME=x\n"), None);
}

#[test]
fn whole_run_helpers() {
    assert_eq!(mount_base("/mnt/HDD4T/BACKUP/host"), "/mnt/HDD4T");
    assert_eq!(mount_base("/x"), "");
    assert_eq!(mount_base("rel"), "");
    assert_eq!(mount_check_command("/mnt/HDD4T"), "findmnt -n '/mnt/HDD4T'");
    assert!(confirm_overwrite(" Y\n"));
    assert!(confirm_overwrite("y"));
    assert!(!confirm_overwrite("yes"));
    assert!(!confirm_overwrite(""));
    assert_eq!(complete_marker("/bk"), "/bk/.complete");
    assert_eq!(complete_marker("/bk/"), "/bk/.complete");
    assert_eq!(log_path("/bk"), "/bk/backup.log");
    assert_eq!(du_command("/bk"), "du -sh '/bk' | cut -f1");
}

#[test]
fn interrupted_backup_is_cleared() {
    assert!(incomplete_backup(true, false));
    assert!(!incomplete_backup(true, true));
    assert!(!incomplete_backup(false, false));
}
