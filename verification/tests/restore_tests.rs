use backup_rs::config::Platform;
use backup_rs::restore::{
    browser_backup_dir, cancelled, fzf_input, restore_items, restore_paths, restore_summary,
    run_order, select_from_fzf, select_from_menu, split_words, RestoreProbe,
    cancels, extra_home_of, select_lowered,
};

fn probe() -> RestoreProbe {
    RestoreProbe {
        pacman_official: false,
        pacman_official_old: true,
        has_pacman: true,
        aur: true,
        aur_old: false,
        has_yay: false,
        dpkg: true,
        has_dpkg: true,
        dnf: false,
        has_dnf: true,
        zypper: false,
        has_zypper: false,
        apk: false,
        has_apk: false,
        flatpak: true,
        has_flatpak: true,
        config: true,
        browser_dirs: vec![true, false, false, true],
        ssh: true,
        gnupg: false,
        keyrings: true,
        vm_qemu: false,
        vm_images: true,
        home_subdirs: vec!["Documents".to_string(), "Music".to_string()],
        extra_dirs: vec![],
        extra_origins: vec![],
        vm_qemu_dst: "/etc/libvirt/qemu".to_string(),
        vm_images_dst: "/var/lib/libvirt/images".to_string(),
    }
}

#[test]
fn menu_of_a_backup() {
    let items = restore_items("/bk", "/home/u", 8, Platform::Linux, &probe());
    let keys: Vec<&str> = items.iter().map(|i| i.key.as_str()).collect();
    assert_eq!(keys, vec![
        "official-pkgs", "dpkg-pkgs", "flatpaks", "config", "browser-mozilla", "browser-BraveSoftware",
        "ssh", "keyrings", "vm-images", "home-Documents", "home-Music",
    ]);
    assert_eq!(items[0].command, "sudo pacman -S --needed - < '/bk/pacman-official.txt'");
    assert_eq!(items[1].command, "sudo apt-get update && sudo apt-get install -y $(awk '{print $1}' '/bk/packages-dpkg.txt')");
    assert_eq!(items[3].command, "rclone copy '/bk/config/' '/home/u/.config/' --checkers 8");
    assert_eq!(items[4].label, "Restore mozilla");
    assert_eq!(items[4].command, "rclone copy '/bk/browser/mozilla/' '/home/u/.mozilla/' --checkers 8 2>/dev/null");
    assert_eq!(items[6].label, "Restore ~/.ssh");
    assert_eq!(items[6].command, "rclone copy '/bk/.ssh/' '/home/u/.ssh/' --checkers 8 2>/dev/null");
    assert_eq!(items[7].command, "rclone copy '/bk/.local/share/keyrings/' '/home/u/.local/share/keyrings/' --checkers 8 2>/dev/null");
    assert_eq!(items[8].command, "sudo rclone copy '/bk/virt-manager/images/' /var/lib/libvirt/images/ --checkers 8 2>/dev/null");
    assert_eq!(items[10].label, "Restore ~/Music");
    assert_eq!(items[10].command, "rclone copy '/bk/home/Music/' '/home/u/Music/' --checkers 8 2>/dev/null");
}

#[test]
fn paths_checked_in_a_backup() {
    let p = restore_paths("/bk");
    assert_eq!(p.pacman_official, "/bk/packages-pacman-official.txt");
    assert_eq!(p.vm_qemu, "/bk/virt-manager/qemu");
    assert_eq!(p.home, "/bk/home");
    assert_eq!(p.keyrings, "/bk/.local/share/keyrings");
    assert_eq!(browser_backup_dir("/bk", "mozilla"), "/bk/browser/mozilla");
}

#[test]
fn fuzzy_finder_round_trip() {
    let items = restore_items("/bk", "/h", 1, Platform::Linux, &probe());
    let input = fzf_input(&items);
    assert!(input.starts_with("official-pkgs|Install official packages (pacman)\ndpkg-pkgs|"));
    let keys: Vec<String> = items.iter().map(|i| i.key.clone()).collect();
    let chosen = select_from_fzf("ssh|Restore ~/.ssh\nunknown|x\nconfig|Restore ~/.config\n", &keys);
    assert_eq!(chosen, vec![6, 3]);
    assert_eq!(select_from_fzf("", &keys), Vec::<usize>::new());
}

#[test]
fn numbered_menu_answers() {
    assert_eq!(select_from_menu("2 1 x 9 0", 3), vec![1, 0]);
    assert_eq!(select_from_menu(" ALL \n", 3), vec![0, 1, 2]);
    assert_eq!(select_from_menu("", 3), Vec::<usize>::new());
    assert_eq!(select_from_menu("+2\t3", 3), vec![1, 2]);
    assert_eq!(split_words("  a  bc\td "), vec!["a", "bc", "d"]);
}

#[test]
fn proceed_answers() {
    assert!(cancelled("n"));
    assert!(cancelled(" N \n"));
    assert!(!cancelled(""));
    assert!(!cancelled("no"));
}

#[test]
fn summary_and_order() {
    let labels = vec!["A".to_string(), "B".to_string(), "C".to_string()];
    assert_eq!(restore_summary(&labels, &vec![2, 0]), "C, A");
    assert_eq!(run_order(&vec![1, 0, 1], 3), vec![(1, true), (0, true), (1, false)]);
    assert_eq!(run_order(&vec![5], 3), vec![]);
}

#[test]
fn windows_menu_skips_linux_folders() {
    let mut p = probe();
    p.home_subdirs = vec![
        ".config".to_string(),
        "Documents".to_string(),
        ".local".to_string(),
        ".var".to_string(),
        ".ssh-old".to_string(),
    ];
    let items = restore_items("D:/bk", "C:/Users/u", 8, Platform::Windows, &p);
    let keys: Vec<&str> = items.iter().map(|i| i.key.as_str()).collect();
    assert_eq!(keys, vec![
        "official-pkgs", "dpkg-pkgs", "flatpaks", "browser-mozilla", "browser-BraveSoftware",
        "ssh", "vm-images", "home-Documents", "home-.ssh-old",
    ]);
    assert_eq!(items[3].command, "rclone copy 'D:/bk/browser/mozilla/' 'C:/Users/u/AppData\\Roaming\\Mozilla/' --checkers 8 2>/dev/null");
}

#[test]
fn picked_lines_choose_their_entries() {
    let items = restore_items("/bk", "/h", 1, Platform::Linux, &probe());
    let input = fzf_input(&items);
    let lines: Vec<&str> = input.split('\n').collect();
    let picks = vec![3usize, 0, 5, 10];
    let output: String = picks.iter().map(|&i| format!("{}\n", lines[i])).collect();
    let keys: Vec<String> = items.iter().map(|i| i.key.clone()).collect();
    assert_eq!(select_from_fzf(&output, &keys), picks);
}

#[test]
fn extra_folders_are_offered() {
    let mut p = probe();
    p.extra_dirs = vec!["Stuff".to_string(), "Other".to_string()];
    p.extra_origins = vec![("Stuff".to_string(), "/data/Stuff".to_string())];
    p.vm_images_dst = "/data/vm".to_string();
    let items = restore_items("/bk", "/home/u", 8, Platform::Linux, &p);
    let n = items.len();
    assert_eq!(items[n - 2].key, "extra-Stuff");
    assert_eq!(items[n - 2].label, "Restore extra/Stuff");
    assert_eq!(items[n - 2].command, "rclone copy '/bk/extra/Stuff/' '/data/Stuff/' --checkers 8 2>/dev/null");
    assert_eq!(items[n - 1].command, "rclone copy '/bk/extra/Other/' '/home/u/Other/' --checkers 8 2>/dev/null");
    let vm = items.iter().find(|i| i.key == "vm-images").unwrap();
    assert_eq!(vm.label, "Restore VM disk images (/data/vm)");
    assert_eq!(vm.command, "sudo rclone copy '/bk/virt-manager/images/' /data/vm/ --checkers 8 2>/dev/null");
}

#[test]
fn only_extra_folders_still_give_a_menu() {
    let p = RestoreProbe {
        pacman_official: false, pacman_official_old: false, has_pacman: false,
        aur: false, aur_old: false, has_yay: false, dpkg: false, has_dpkg: false,
        dnf: false, has_dnf: false, zypper: false, has_zypper: false, apk: false, has_apk: false,
        flatpak: false, has_flatpak: false, config: false,
        browser_dirs: vec![false, false, false, false],
        ssh: false, gnupg: false, keyrings: false, vm_qemu: false, vm_images: false,
        home_subdirs: vec![],
        extra_dirs: vec!["X".to_string()],
        extra_origins: vec![],
        vm_qemu_dst: String::new(),
        vm_images_dst: String::new(),
    };
    let items = restore_items("/bk", "/h", 1, Platform::Windows, &p);
    assert_eq!(items.len(), 1);
    assert_eq!(items[0].key, "extra-X");
    assert_eq!(extra_home_of("X", &vec![("Y".to_string(), "/y".to_string())], "/h"), "/h/X");
}

#[test]
fn lowered_menu_answers() {
    assert!(cancels("n"));
    assert!(!cancels("N"));
    assert_eq!(select_lowered("all", 3), vec![0, 1, 2]);
    assert_eq!(select_lowered("ALL", 3), Vec::<usize>::new());
    assert_eq!(select_lowered("3 1 0 4", 3), vec![2, 0]);
}
