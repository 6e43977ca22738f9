//! Restoring: the menu of what a backup folder holds, the user's choice
//! from it, and the order in which the chosen items run.
use vstd::prelude::*;
use crate::config::{Platform, browsers, browsers_spec};
use crate::order::str_eq;
use crate::text::{
    free_of, lemma_index_of_at, lemma_lines_terminated, plain_line, terminated,
    cat2, cat3, chars_of, decimal, find_char, index_of, is_whitespace, is_ws, join,
    join_strings, lines, lines_of, lowercase, owned, parse_unsigned, parse_unsigned_str,
    push_decimal, push_str, string_of, to_lowercase, trim, trim_str,
};

verus! {

// ---------------------------------------------------------------------------
// What the backup folder holds
// ---------------------------------------------------------------------------

/// The paths in a backup folder whose presence decides the menu.
pub struct RestorePaths {
    pub pacman_official: String,
    pub pacman_official_old: String,
    pub aur: String,
    pub aur_old: String,
    pub dpkg: String,
    pub dnf: String,
    pub zypper: String,
    pub apk: String,
    pub flatpak: String,
    pub config: String,
    pub ssh: String,
    pub gnupg: String,
    pub keyrings: String,
    pub vm_qemu: String,
    pub vm_images: String,
    pub home: String,
}

/// The paths in backup folder `bd` whose presence decides the menu.
pub fn restore_paths(bd: &str) -> (p: RestorePaths)
    ensures
        p.pacman_official@ == bd@ + "/packages-pacman-official.txt"@,
        p.pacman_official_old@ == bd@ + "/pacman-official.txt"@,
        p.aur@ == bd@ + "/packages-aur.txt"@,
        p.aur_old@ == bd@ + "/pacman-aur.txt"@,
        p.dpkg@ == bd@ + "/packages-dpkg.txt"@,
        p.dnf@ == bd@ + "/packages-dnf.txt"@,
        p.zypper@ == bd@ + "/packages-zypper.txt"@,
        p.apk@ == bd@ + "/packages-apk.txt"@,
        p.flatpak@ == bd@ + "/flatpak-list.txt"@,
        p.config@ == bd@ + "/config"@,
        p.ssh@ == bd@ + "/.ssh"@,
        p.gnupg@ == bd@ + "/.gnupg"@,
        p.keyrings@ == bd@ + "/.local/share/keyrings"@,
        p.vm_qemu@ == bd@ + "/virt-manager/qemu"@,
        p.vm_images@ == bd@ + "/virt-manager/images"@,
        p.home@ == bd@ + "/home"@,
{
    RestorePaths {
        pacman_official: cat2(bd, "/packages-pacman-official.txt"),
        pacman_official_old: cat2(bd, "/pacman-official.txt"),
        aur: cat2(bd, "/packages-aur.txt"),
        aur_old: cat2(bd, "/pacman-aur.txt"),
        dpkg: cat2(bd, "/packages-dpkg.txt"),
        dnf: cat2(bd, "/packages-dnf.txt"),
        zypper: cat2(bd, "/packages-zypper.txt"),
        apk: cat2(bd, "/packages-apk.txt"),
        flatpak: cat2(bd, "/flatpak-list.txt"),
        config: cat2(bd, "/config"),
        ssh: cat2(bd, "/.ssh"),
        gnupg: cat2(bd, "/.gnupg"),
        keyrings: cat2(bd, "/.local/share/keyrings"),
        vm_qemu: cat2(bd, "/virt-manager/qemu"),
        vm_images: cat2(bd, "/virt-manager/images"),
        home: cat2(bd, "/home"),
    }
}

/// Where a browser's profile is kept in backup folder `bd`.
pub fn browser_backup_dir(bd: &str, name: &str) -> (r: String)
    ensures
        r@ == bd@ + "/browser/"@ + name@,
{
    cat3(bd, "/browser/", name)
}

/// What was found in the backup folder and on this computer: which lists
/// and folders exist, which package tools are installed, which browser
/// profiles (in the order of `browsers`) were saved, and the folders saved
/// from home, in the order they were listed.
pub struct RestoreProbe {
    pub pacman_official: bool,
    pub pacman_official_old: bool,
    pub has_pacman: bool,
    pub aur: bool,
    pub aur_old: bool,
    pub has_yay: bool,
    pub dpkg: bool,
    pub has_dpkg: bool,
    pub dnf: bool,
    pub has_dnf: bool,
    pub zypper: bool,
    pub has_zypper: bool,
    pub apk: bool,
    pub has_apk: bool,
    pub flatpak: bool,
    pub has_flatpak: bool,
    pub config: bool,
    pub browser_dirs: Vec<bool>,
    pub ssh: bool,
    pub gnupg: bool,
    pub keyrings: bool,
    pub vm_qemu: bool,
    pub vm_images: bool,
    pub home_subdirs: Vec<String>,
    /// The folders saved under `extra` in the backup, in the order listed.
    pub extra_dirs: Vec<String>,
    /// The configured extra folders as (name they are saved under, folder).
    pub extra_origins: Vec<(String, String)>,
    /// Where this computer keeps the virtual machines' definitions.
    pub vm_qemu_dst: String,
    /// Where this computer keeps the virtual machines' disk images.
    pub vm_images_dst: String,
}

/// The configured extra folders as character sequences.
pub open spec fn origins_view(o: Seq<(String, String)>) -> Seq<(Seq<char>, Seq<char>)> {
    o.map_values(|e: (String, String)| (e.0@, e.1@))
}

/// One entry of the menu: its key, its label and the shell command it runs.
pub struct RestoreItem {
    pub key: String,
    pub label: String,
    pub command: String,
}

/// An entry of the menu as character sequences.
pub open spec fn item_view(i: RestoreItem) -> (Seq<char>, Seq<char>, Seq<char>) {
    (i.key@, i.label@, i.command@)
}

/// The entry when the condition holds, else nothing.
pub open spec fn opt(c: bool, e: (Seq<char>, Seq<char>, Seq<char>)) -> Seq<(Seq<char>, Seq<char>, Seq<char>)> {
    if c {
        seq![e]
    } else {
        seq![]
    }
}

/// `--checkers` with the count, as the copy commands end.
pub open spec fn checkers_arg(ck: u32) -> Seq<char> {
    " --checkers "@ + decimal(ck as nat)
}

/// The entry that installs the official packages with pacman.
pub open spec fn pacman_item(bd: Seq<char>, p: RestoreProbe) -> (Seq<char>, Seq<char>, Seq<char>) {
    (
        "official-pkgs"@,
        "Install official packages (pacman)"@,
        "sudo pacman -S --needed - < '"@ + bd + "/"@ + (if p.pacman_official {
            "packages-pacman-official.txt"@
        } else {
            "pacman-official.txt"@
        }) + "'"@,
    )
}

/// The entry that installs the AUR packages with yay.
pub open spec fn aur_item(bd: Seq<char>, p: RestoreProbe) -> (Seq<char>, Seq<char>, Seq<char>) {
    (
        "aur-pkgs"@,
        "Install AUR packages (yay)"@,
        "yay -S --needed - < '"@ + bd + "/"@ + (if p.aur {
            "packages-aur.txt"@
        } else {
            "pacman-aur.txt"@
        }) + "'"@,
    )
}

/// An entry that installs a package list: key, label, and the command
/// around the list's path.
pub open spec fn list_item(key: Seq<char>, label: Seq<char>, before: Seq<char>, bd: Seq<char>, after: Seq<char>) -> (Seq<char>, Seq<char>, Seq<char>) {
    (key, label, before + bd + after)
}

/// The package-install entries.
pub open spec fn package_items(bd: Seq<char>, p: RestoreProbe) -> Seq<(Seq<char>, Seq<char>, Seq<char>)> {
    opt((p.pacman_official || p.pacman_official_old) && p.has_pacman, pacman_item(bd, p))
        + opt((p.aur || p.aur_old) && p.has_yay, aur_item(bd, p))
        + opt(p.dpkg && p.has_dpkg, list_item(
            "dpkg-pkgs"@,
            "Install packages (dpkg/apt)"@,
            "sudo apt-get update && sudo apt-get install -y $(awk '{print $1}' '"@,
            bd,
            "/packages-dpkg.txt')"@,
        ))
        + opt(p.dnf && p.has_dnf, list_item(
            "dnf-pkgs"@,
            "Install packages (dnf)"@,
            "sudo dnf install -y $(cat '"@,
            bd,
            "/packages-dnf.txt')"@,
        ))
        + opt(p.zypper && p.has_zypper, list_item(
            "zypper-pkgs"@,
            "Install packages (zypper)"@,
            "sudo zypper install -y $(cat '"@,
            bd,
            "/packages-zypper.txt')"@,
        ))
        + opt(p.apk && p.has_apk, list_item(
            "apk-pkgs"@,
            "Install packages (apk)"@,
            "sudo apk add $(cat '"@,
            bd,
            "/packages-apk.txt')"@,
        ))
        + opt(p.flatpak && p.has_flatpak, list_item(
            "flatpaks"@,
            "Install Flatpaks"@,
            "xargs flatpak install -y < '"@,
            bd,
            "/flatpak-list.txt'"@,
        ))
}

/// The browser entries: one per saved profile, in the order of `browsers`.
pub open spec fn browser_items(
    bd: Seq<char>,
    dd: Seq<char>,
    ck: u32,
    bs: Seq<(Seq<char>, Seq<char>)>,
    present: Seq<bool>,
    n: int,
) -> Seq<(Seq<char>, Seq<char>, Seq<char>)>
    decreases n,
{
    if n <= 0 {
        seq![]
    } else {
        let (rel, name) = bs[n - 1];
        let p = bd + "/browser/"@ + name;
        browser_items(bd, dd, ck, bs, present, n - 1) + opt(
            present[n - 1],
            (
                "browser-"@ + name,
                "Restore "@ + name,
                "rclone copy '"@ + p + "/' '"@ + dd + "/"@ + rel + "/'"@ + checkers_arg(ck)
                    + " 2>/dev/null"@,
            ),
        )
    }
}

/// The entry that copies a saved folder back to a folder under home.
pub open spec fn folder_item(key: Seq<char>, label: Seq<char>, src: Seq<char>, dst: Seq<char>, ck: u32) -> (Seq<char>, Seq<char>, Seq<char>) {
    (key, label, "rclone copy '"@ + src + "/' '"@ + dst + "/'"@ + checkers_arg(ck) + " 2>/dev/null"@)
}

/// The folders kept under home that only Linux uses.
pub open spec fn linux_only(name: Seq<char>) -> bool {
    name == ".config"@ || name == ".local"@ || name == ".var"@
}

/// The entries for the folders saved from home, in order; on Windows the
/// folders that only Linux uses are left out.
pub open spec fn home_items(bd: Seq<char>, dd: Seq<char>, ck: u32, windows: bool, subs: Seq<Seq<char>>) -> Seq<
    (Seq<char>, Seq<char>, Seq<char>),
>
    decreases subs.len(),
{
    if subs.len() == 0 {
        seq![]
    } else {
        let s = subs.last();
        let before = home_items(bd, dd, ck, windows, subs.drop_last());
        if windows && linux_only(s) {
            before
        } else {
            before.push(folder_item("home-"@ + s, "Restore ~/"@ + s, bd + "/home/"@ + s, dd + "/"@ + s, ck))
        }
    }
}

/// The entry that restores `~/.config`.
pub open spec fn config_item(bd: Seq<char>, dd: Seq<char>, ck: u32) -> (Seq<char>, Seq<char>, Seq<char>) {
    ("config"@, "Restore ~/.config"@, "rclone copy '"@ + bd + "/config/' '"@ + dd + "/.config/'"@ + checkers_arg(ck))
}

/// The entry that restores the virtual machines' definitions into `q`.
pub open spec fn vm_configs_item(bd: Seq<char>, q: Seq<char>, ck: u32) -> (Seq<char>, Seq<char>, Seq<char>) {
    (
        "vm-configs"@,
        "Restore libvirt VM configs ("@ + q + ")"@,
        "sudo rclone copy '"@ + bd + "/virt-manager/qemu/' "@ + q + "/"@ + checkers_arg(ck) + " 2>/dev/null"@,
    )
}

/// The entry that restores the virtual machines' disk images into `q`.
pub open spec fn vm_images_item(bd: Seq<char>, q: Seq<char>, ck: u32) -> (Seq<char>, Seq<char>, Seq<char>) {
    (
        "vm-images"@,
        "Restore VM disk images ("@ + q + ")"@,
        "sudo rclone copy '"@ + bd + "/virt-manager/images/' "@ + q + "/"@ + checkers_arg(ck) + " 2>/dev/null"@,
    )
}

/// Where a folder saved as `name` under `extra` goes back to: the first
/// configured extra folder saved under that name, else `name` in the
/// restore folder.
pub open spec fn extra_home(name: Seq<char>, origins: Seq<(Seq<char>, Seq<char>)>, dd: Seq<char>) -> Seq<char>
    decreases origins.len(),
{
    if origins.len() == 0 {
        dd + "/"@ + name
    } else if origins[0].0 == name {
        origins[0].1
    } else {
        extra_home(name, origins.drop_first(), dd)
    }
}

/// The entries for the extra folders saved in the backup, in order.
pub open spec fn extra_items(
    bd: Seq<char>,
    dd: Seq<char>,
    ck: u32,
    names: Seq<Seq<char>>,
    origins: Seq<(Seq<char>, Seq<char>)>,
) -> Seq<(Seq<char>, Seq<char>, Seq<char>)>
    decreases names.len(),
{
    if names.len() == 0 {
        seq![]
    } else {
        let n = names.last();
        extra_items(bd, dd, ck, names.drop_last(), origins).push(
            folder_item("extra-"@ + n, "Restore extra/"@ + n, bd + "/extra/"@ + n, extra_home(n, origins, dd), ck),
        )
    }
}

/// The keyrings entry.
pub open spec fn keyrings_item(bd: Seq<char>, dd: Seq<char>, ck: u32) -> (Seq<char>, Seq<char>, Seq<char>) {
    folder_item(
        "keyrings"@,
        "Restore keyrings (~/.local/share/keyrings)"@,
        bd + "/.local/share/keyrings"@,
        dd + "/.local/share/keyrings"@,
        ck,
    )
}

/// The menu of a backup folder `bd` restored into `dd` with `ck` parallel
/// copies, in this order: package lists (when the matching tool is
/// installed), `~/.config`, browser profiles, `.ssh`, `.gnupg`, keyrings,
/// virtual machine definitions and images (into the folders this computer
/// keeps them in), the folders saved from home, and the extra folders (back
/// to where they were configured from). On Windows nothing is restored into
/// `.config`, `.local` or `.var`.
pub open spec fn restore_items_spec(
    bd: Seq<char>,
    dd: Seq<char>,
    ck: u32,
    platform: Platform,
    p: RestoreProbe,
) -> Seq<(Seq<char>, Seq<char>, Seq<char>)> {
    let linux = platform == Platform::Linux;
    package_items(bd, p) + opt(p.config && linux, config_item(bd, dd, ck)) + browser_items(
        bd,
        dd,
        ck,
        browsers_spec(platform),
        p.browser_dirs@,
        4,
    ) + opt(p.ssh, folder_item("ssh"@, "Restore ~/.ssh"@, bd + "/.ssh"@, dd + "/.ssh"@, ck)) + opt(
        p.gnupg,
        folder_item("gnupg"@, "Restore ~/.gnupg"@, bd + "/.gnupg"@, dd + "/.gnupg"@, ck),
    ) + opt(p.keyrings && linux, keyrings_item(bd, dd, ck)) + opt(
        p.vm_qemu,
        vm_configs_item(bd, p.vm_qemu_dst@, ck),
    ) + opt(p.vm_images, vm_images_item(bd, p.vm_images_dst@, ck)) + home_items(
        bd,
        dd,
        ck,
        !linux,
        p.home_subdirs.deep_view(),
    ) + extra_items(bd, dd, ck, p.extra_dirs.deep_view(), origins_view(p.extra_origins@))
}

/// Appends an entry.
fn add_item(items: &mut Vec<RestoreItem>, key: String, label: String, command: String)
    ensures
        final(items)@.map_values(|i: RestoreItem| item_view(i)) == old(items)@.map_values(
            |i: RestoreItem| item_view(i),
        ).push((key@, label@, command@)),
{
    let ghost before = items@;
    items.push(RestoreItem { key, label, command });
    assert(items@.map_values(|i: RestoreItem| item_view(i)) =~= before.map_values(
        |i: RestoreItem| item_view(i),
    ).push((key@, label@, command@)));
}

/// The view of the menu so far.
pub open spec fn items_view(items: Seq<RestoreItem>) -> Seq<(Seq<char>, Seq<char>, Seq<char>)> {
    items.map_values(|i: RestoreItem| item_view(i))
}

fn with_checkers(s: &mut String, ck: u32)
    ensures
        final(s)@ == old(s)@ + checkers_arg(ck),
{
    push_str(s, " --checkers ");
    push_decimal(s, ck as u64);
}

fn folder_command(src: &str, dst: &str, ck: u32) -> (r: String)
    ensures
        r@ == folder_item(seq![], seq![], src@, dst@, ck).2,
{
    let mut c = cat3("rclone copy '", src, "/' '");
    push_str(&mut c, dst);
    push_str(&mut c, "/'");
    with_checkers(&mut c, ck);
    push_str(&mut c, " 2>/dev/null");
    c
}

/// Joining sequences is associative.
pub proof fn lemma_assoc<A>(a: Seq<A>, b: Seq<A>, c: Seq<A>)
    ensures
        (a + b) + c == a + (b + c),
{
    assert((a + b) + c =~= a + (b + c));
}

/// Appends the entry when the condition holds.
fn add_opt(items: &mut Vec<RestoreItem>, c: bool, key: &str, label: &str, command: String)
    ensures
        items_view(final(items)@) == items_view(old(items)@) + opt(c, (key@, label@, command@)),
{
    let ghost before = items_view(items@);
    if c {
        add_item(items, owned(key), owned(label), command);
        assert(items_view(items@) =~= before + opt(c, (key@, label@, command@)));
    } else {
        assert(items_view(items@) =~= before + opt(c, (key@, label@, command@)));
    }
}

fn pacman_command(bd: &str, p: &RestoreProbe) -> (c: String)
    ensures
        c@ == pacman_item(bd@, *p).2,
{
    let f = if p.pacman_official {
        "packages-pacman-official.txt"
    } else {
        "pacman-official.txt"
    };
    let mut c = cat3("sudo pacman -S --needed - < '", bd, "/");
    push_str(&mut c, f);
    push_str(&mut c, "'");
    c
}

fn aur_command(bd: &str, p: &RestoreProbe) -> (c: String)
    ensures
        c@ == aur_item(bd@, *p).2,
{
    let f = if p.aur {
        "packages-aur.txt"
    } else {
        "pacman-aur.txt"
    };
    let mut c = cat3("yay -S --needed - < '", bd, "/");
    push_str(&mut c, f);
    push_str(&mut c, "'");
    c
}

/// The package-install entries.
fn add_package_items(items: &mut Vec<RestoreItem>, bd: &str, p: &RestoreProbe)
    ensures
        items_view(final(items)@) == items_view(old(items)@) + package_items(bd@, *p),
{
    let ghost s0 = items_view(items@);
    let ghost o1 = opt((p.pacman_official || p.pacman_official_old) && p.has_pacman, pacman_item(bd@, *p));
    let ghost o2 = opt((p.aur || p.aur_old) && p.has_yay, aur_item(bd@, *p));
    let ghost o3 = opt(p.dpkg && p.has_dpkg, list_item(
        "dpkg-pkgs"@,
        "Install packages (dpkg/apt)"@,
        "sudo apt-get update && sudo apt-get install -y $(awk '{print $1}' '"@,
        bd@,
        "/packages-dpkg.txt')"@,
    ));
    let ghost o4 = opt(p.dnf && p.has_dnf, list_item(
        "dnf-pkgs"@,
        "Install packages (dnf)"@,
        "sudo dnf install -y $(cat '"@,
        bd@,
        "/packages-dnf.txt')"@,
    ));
    let ghost o5 = opt(p.zypper && p.has_zypper, list_item(
        "zypper-pkgs"@,
        "Install packages (zypper)"@,
        "sudo zypper install -y $(cat '"@,
        bd@,
        "/packages-zypper.txt')"@,
    ));
    let ghost o6 = opt(p.apk && p.has_apk, list_item(
        "apk-pkgs"@,
        "Install packages (apk)"@,
        "sudo apk add $(cat '"@,
        bd@,
        "/packages-apk.txt')"@,
    ));
    let ghost o7 = opt(p.flatpak && p.has_flatpak, list_item(
        "flatpaks"@,
        "Install Flatpaks"@,
        "xargs flatpak install -y < '"@,
        bd@,
        "/flatpak-list.txt'"@,
    ));
    add_opt(
        items,
        (p.pacman_official || p.pacman_official_old) && p.has_pacman,
        "official-pkgs",
        "Install official packages (pacman)",
        pacman_command(bd, p),
    );
    assert(items_view(items@) == s0 + o1);
    add_opt(items, (p.aur || p.aur_old) && p.has_yay, "aur-pkgs", "Install AUR packages (yay)", aur_command(bd, p));
    proof {
        lemma_assoc(s0, o1, o2);
    }
    assert(items_view(items@) == s0 + (o1 + o2));
    add_opt(
        items,
        p.dpkg && p.has_dpkg,
        "dpkg-pkgs",
        "Install packages (dpkg/apt)",
        cat3("sudo apt-get update && sudo apt-get install -y $(awk '{print $1}' '", bd, "/packages-dpkg.txt')"),
    );
    proof {
        lemma_assoc(s0, o1 + o2, o3);
    }
    assert(items_view(items@) == s0 + (o1 + o2 + o3));
    add_opt(
        items,
        p.dnf && p.has_dnf,
        "dnf-pkgs",
        "Install packages (dnf)",
        cat3("sudo dnf install -y $(cat '", bd, "/packages-dnf.txt')"),
    );
    proof {
        lemma_assoc(s0, o1 + o2 + o3, o4);
    }
    assert(items_view(items@) == s0 + (o1 + o2 + o3 + o4));
    add_opt(
        items,
        p.zypper && p.has_zypper,
        "zypper-pkgs",
        "Install packages (zypper)",
        cat3("sudo zypper install -y $(cat '", bd, "/packages-zypper.txt')"),
    );
    proof {
        lemma_assoc(s0, o1 + o2 + o3 + o4, o5);
    }
    assert(items_view(items@) == s0 + (o1 + o2 + o3 + o4 + o5));
    add_opt(
        items,
        p.apk && p.has_apk,
        "apk-pkgs",
        "Install packages (apk)",
        cat3("sudo apk add $(cat '", bd, "/packages-apk.txt')"),
    );
    proof {
        lemma_assoc(s0, o1 + o2 + o3 + o4 + o5, o6);
    }
    assert(items_view(items@) == s0 + (o1 + o2 + o3 + o4 + o5 + o6));
    add_opt(
        items,
        p.flatpak && p.has_flatpak,
        "flatpaks",
        "Install Flatpaks",
        cat3("xargs flatpak install -y < '", bd, "/flatpak-list.txt'"),
    );
    proof {
        lemma_assoc(s0, o1 + o2 + o3 + o4 + o5 + o6, o7);
    }
    assert(items_view(items@) == s0 + (o1 + o2 + o3 + o4 + o5 + o6 + o7));
    assert(package_items(bd@, *p) == o1 + o2 + o3 + o4 + o5 + o6 + o7);
}

/// Appending one more entry after a joined menu.
pub proof fn lemma_push_assoc<A>(a: Seq<A>, b: Seq<A>, x: A)
    ensures
        (a + b).push(x) == a + b.push(x),
{
    assert((a + b).push(x) =~= a + b.push(x));
}

fn config_command(bd: &str, dd: &str, ck: u32) -> (c: String)
    ensures
        c@ == config_item(bd@, dd@, ck).2,
{
    let mut c = cat3("rclone copy '", bd, "/config/' '");
    push_str(&mut c, dd);
    push_str(&mut c, "/.config/'");
    with_checkers(&mut c, ck);
    c
}

fn vm_configs_command(bd: &str, q: &str, ck: u32) -> (c: String)
    ensures
        c@ == vm_configs_item(bd@, q@, ck).2,
{
    let mut c = cat3("sudo rclone copy '", bd, "/virt-manager/qemu/' ");
    push_str(&mut c, q);
    push_str(&mut c, "/");
    with_checkers(&mut c, ck);
    push_str(&mut c, " 2>/dev/null");
    c
}

fn vm_images_command(bd: &str, q: &str, ck: u32) -> (c: String)
    ensures
        c@ == vm_images_item(bd@, q@, ck).2,
{
    let mut c = cat3("sudo rclone copy '", bd, "/virt-manager/images/' ");
    push_str(&mut c, q);
    push_str(&mut c, "/");
    with_checkers(&mut c, ck);
    push_str(&mut c, " 2>/dev/null");
    c
}

fn folder_entry(items: &mut Vec<RestoreItem>, c: bool, key: &str, label: &str, src: String, dst: String, ck: u32)
    ensures
        items_view(final(items)@) == items_view(old(items)@) + opt(c, folder_item(key@, label@, src@, dst@, ck)),
{
    add_opt(items, c, key, label, folder_command(src.as_str(), dst.as_str(), ck));
}

/// The browser entries.
fn add_browser_items(items: &mut Vec<RestoreItem>, bd: &str, dd: &str, ck: u32, platform: Platform, present: &Vec<bool>)
    requires
        present@.len() == 4,
    ensures
        items_view(final(items)@) == items_view(old(items)@) + browser_items(
            bd@,
            dd@,
            ck,
            browsers_spec(platform),
            present@,
            4,
        ),
{
    let ghost s0 = items_view(items@);
    let bs = browsers(platform);
    let ghost bv = bs@.map_values(|q: (String, String)| (q.0@, q.1@));
    assert(bv.len() == 4);
    assert(bs@.len() == 4);
    let mut k: usize = 0;
    assert(s0 + browser_items(bd@, dd@, ck, bv, present@, 0) =~= s0);
    while k < 4
        invariant
            k <= 4,
            bs@.len() == 4,
            present@.len() == 4,
            bv == bs@.map_values(|q: (String, String)| (q.0@, q.1@)),
            bv == browsers_spec(platform),
            items_view(items@) == s0 + browser_items(bd@, dd@, ck, bv, present@, k as int),
        decreases 4 - k,
    {
        let rel = bs[k].0.as_str();
        let name = bs[k].1.as_str();
        assert(bv[k as int] == (rel@, name@));
        let src = browser_backup_dir(bd, name);
        let mut c = cat3("rclone copy '", src.as_str(), "/' '");
        push_str(&mut c, dd);
        push_str(&mut c, "/");
        push_str(&mut c, rel);
        push_str(&mut c, "/'");
        with_checkers(&mut c, ck);
        push_str(&mut c, " 2>/dev/null");
        let key = cat2("browser-", name);
        let label = cat2("Restore ", name);
        add_opt(items, present[k], key.as_str(), label.as_str(), c);
        proof {
            lemma_assoc(
                s0,
                browser_items(bd@, dd@, ck, bv, present@, k as int),
                opt(present@[k as int], (key@, label@, c@)),
            );
        }
        k = k + 1;
    }
}

/// Whether a folder kept under home is one that only Linux uses.
pub fn is_linux_only(name: &str) -> (b: bool)
    ensures
        b == linux_only(name@),
{
    str_eq(name, ".config") || str_eq(name, ".local") || str_eq(name, ".var")
}

/// The entries for the folders saved from home.
fn add_home_items(items: &mut Vec<RestoreItem>, bd: &str, dd: &str, ck: u32, windows: bool, subs: &Vec<String>)
    ensures
        items_view(final(items)@) == items_view(old(items)@) + home_items(bd@, dd@, ck, windows, subs.deep_view()),
{
    let ghost s0 = items_view(items@);
    let ghost sv = subs.deep_view();
    let mut j: usize = 0;
    assert(sv.take(0) =~= Seq::<Seq<char>>::empty());
    assert(s0 + home_items(bd@, dd@, ck, windows, sv.take(0)) =~= s0);
    while j < subs.len()
        invariant
            j <= subs@.len(),
            sv == subs.deep_view(),
            items_view(items@) == s0 + home_items(bd@, dd@, ck, windows, sv.take(j as int)),
        decreases subs@.len() - j,
    {
        let s = subs[j].as_str();
        proof {
            assert(sv[j as int] == s@);
            assert(sv.take(j + 1).drop_last() =~= sv.take(j as int));
            assert(sv.take(j + 1).last() == s@);
        }
        if windows && is_linux_only(s) {
        } else {
            let (a, b) = (cat3(bd, "/home/", s), cat3(dd, "/", s));
            let key = cat2("home-", s);
            let label = cat2("Restore ~/", s);
            let c = folder_command(a.as_str(), b.as_str(), ck);
            add_item(items, key, label, c);
            proof {
                lemma_push_assoc(
                    s0,
                    home_items(bd@, dd@, ck, windows, sv.take(j as int)),
                    folder_item("home-"@ + s@, "Restore ~/"@ + s@, bd@ + "/home/"@ + s@, dd@ + "/"@ + s@, ck),
                );
            }
        }
        j = j + 1;
    }
    assert(sv.take(subs@.len() as int) =~= sv);
}

/// Where a folder saved as `name` under `extra` goes back to.
pub fn extra_home_of(name: &str, origins: &Vec<(String, String)>, dd: &str) -> (r: String)
    ensures
        r@ == extra_home(name@, origins_view(origins@), dd@),
{
    let ghost ov = origins_view(origins@);
    let mut i: usize = 0;
    assert(ov.skip(0) =~= ov);
    while i < origins.len()
        invariant
            i <= origins@.len(),
            ov == origins_view(origins@),
            extra_home(name@, ov, dd@) == extra_home(name@, ov.skip(i as int), dd@),
        decreases origins@.len() - i,
    {
        assert(ov.skip(i as int)[0] == ov[i as int]);
        assert(ov.skip(i as int).drop_first() =~= ov.skip(i + 1));
        if str_eq(origins[i].0.as_str(), name) {
            return origins[i].1.clone();
        }
        i = i + 1;
    }
    assert(ov.skip(i as int).len() == 0);
    cat3(dd, "/", name)
}

/// The entries for the extra folders saved in the backup.
fn add_extra_items(
    items: &mut Vec<RestoreItem>,
    bd: &str,
    dd: &str,
    ck: u32,
    names: &Vec<String>,
    origins: &Vec<(String, String)>,
)
    ensures
        items_view(final(items)@) == items_view(old(items)@) + extra_items(
            bd@,
            dd@,
            ck,
            names.deep_view(),
            origins_view(origins@),
        ),
{
    let ghost s0 = items_view(items@);
    let ghost nv = names.deep_view();
    let ghost ov = origins_view(origins@);
    let mut j: usize = 0;
    assert(nv.take(0) =~= Seq::<Seq<char>>::empty());
    assert(s0 + extra_items(bd@, dd@, ck, nv.take(0), ov) =~= s0);
    while j < names.len()
        invariant
            j <= names@.len(),
            nv == names.deep_view(),
            ov == origins_view(origins@),
            items_view(items@) == s0 + extra_items(bd@, dd@, ck, nv.take(j as int), ov),
        decreases names@.len() - j,
    {
        let n = names[j].as_str();
        proof {
            assert(nv[j as int] == n@);
            assert(nv.take(j + 1).drop_last() =~= nv.take(j as int));
            assert(nv.take(j + 1).last() == n@);
        }
        let src = cat3(bd, "/extra/", n);
        let dst = extra_home_of(n, origins, dd);
        let key = cat2("extra-", n);
        let label = cat2("Restore extra/", n);
        let c = folder_command(src.as_str(), dst.as_str(), ck);
        add_item(items, key, label, c);
        proof {
            lemma_push_assoc(
                s0,
                extra_items(bd@, dd@, ck, nv.take(j as int), ov),
                folder_item("extra-"@ + n@, "Restore extra/"@ + n@, bd@ + "/extra/"@ + n@, extra_home(n@, ov, dd@), ck),
            );
        }
        j = j + 1;
    }
    assert(nv.take(names@.len() as int) =~= nv);
}

/// The menu of what backup folder `bd` holds, restored into `dd` with `ck`
/// parallel copies.
pub fn restore_items(bd: &str, dd: &str, ck: u32, platform: Platform, p: &RestoreProbe) -> (r: Vec<
    RestoreItem,
>)
    requires
        p.browser_dirs@.len() == 4,
    ensures
        items_view(r@) == restore_items_spec(bd@, dd@, ck, platform, *p),
{
    let linux = match platform {
        Platform::Linux => true,
        Platform::Windows => false,
    };
    let mut items: Vec<RestoreItem> = Vec::new();
    let ghost e = Seq::<(Seq<char>, Seq<char>, Seq<char>)>::empty();
    assert(items_view(items@) =~= e);
    add_package_items(&mut items, bd, p);
    let ghost a1 = package_items(bd@, *p);
    assert(items_view(items@) == a1) by {
        assert(e + a1 =~= a1);
    }
    add_opt(&mut items, p.config && linux, "config", "Restore ~/.config", config_command(bd, dd, ck));
    add_browser_items(&mut items, bd, dd, ck, platform, &p.browser_dirs);
    folder_entry(&mut items, p.ssh, "ssh", "Restore ~/.ssh", cat2(bd, "/.ssh"), cat2(dd, "/.ssh"), ck);
    folder_entry(&mut items, p.gnupg, "gnupg", "Restore ~/.gnupg", cat2(bd, "/.gnupg"), cat2(dd, "/.gnupg"), ck);
    folder_entry(
        &mut items,
        p.keyrings && linux,
        "keyrings",
        "Restore keyrings (~/.local/share/keyrings)",
        cat2(bd, "/.local/share/keyrings"),
        cat2(dd, "/.local/share/keyrings"),
        ck,
    );
    let qemu_label = cat3("Restore libvirt VM configs (", p.vm_qemu_dst.as_str(), ")");
    add_opt(
        &mut items,
        p.vm_qemu,
        "vm-configs",
        qemu_label.as_str(),
        vm_configs_command(bd, p.vm_qemu_dst.as_str(), ck),
    );
    let images_label = cat3("Restore VM disk images (", p.vm_images_dst.as_str(), ")");
    add_opt(
        &mut items,
        p.vm_images,
        "vm-images",
        images_label.as_str(),
        vm_images_command(bd, p.vm_images_dst.as_str(), ck),
    );
    add_home_items(&mut items, bd, dd, ck, !linux, &p.home_subdirs);
    add_extra_items(&mut items, bd, dd, ck, &p.extra_dirs, &p.extra_origins);
    items
}

/// On Windows no entry of the menu restores into a folder that only Linux
/// uses: the menu is the Linux one without `~/.config`, without the
/// keyrings, and without the folders saved from home named `.config`,
/// `.local` or `.var`, and no remaining home entry names such a folder.
pub proof fn law_windows_skips_linux_only(bd: Seq<char>, dd: Seq<char>, ck: u32, p: RestoreProbe)
    ensures
        restore_items_spec(bd, dd, ck, Platform::Windows, p) == package_items(bd, p) + browser_items(
            bd,
            dd,
            ck,
            browsers_spec(Platform::Windows),
            p.browser_dirs@,
            4,
        ) + opt(p.ssh, folder_item("ssh"@, "Restore ~/.ssh"@, bd + "/.ssh"@, dd + "/.ssh"@, ck)) + opt(
            p.gnupg,
            folder_item("gnupg"@, "Restore ~/.gnupg"@, bd + "/.gnupg"@, dd + "/.gnupg"@, ck),
        ) + opt(p.vm_qemu, vm_configs_item(bd, p.vm_qemu_dst@, ck)) + opt(
            p.vm_images,
            vm_images_item(bd, p.vm_images_dst@, ck),
        ) + home_items(bd, dd, ck, true, p.home_subdirs.deep_view()) + extra_items(
            bd,
            dd,
            ck,
            p.extra_dirs.deep_view(),
            origins_view(p.extra_origins@),
        ),
        forall|i: int|
            0 <= i < home_items(bd, dd, ck, true, p.home_subdirs.deep_view()).len() ==> !linux_only(
                #[trigger] home_items(bd, dd, ck, true, p.home_subdirs.deep_view())[i].0.skip(5),
            ),
{
    let e = Seq::<(Seq<char>, Seq<char>, Seq<char>)>::empty();
    assert(opt(false, config_item(bd, dd, ck)) =~= e);
    assert(opt(false, keyrings_item(bd, dd, ck)) =~= e);
    let pk = package_items(bd, p);
    let br = browser_items(bd, dd, ck, browsers_spec(Platform::Windows), p.browser_dirs@, 4);
    let o1 = opt(p.ssh, folder_item("ssh"@, "Restore ~/.ssh"@, bd + "/.ssh"@, dd + "/.ssh"@, ck));
    let o2 = opt(p.gnupg, folder_item("gnupg"@, "Restore ~/.gnupg"@, bd + "/.gnupg"@, dd + "/.gnupg"@, ck));
    assert(pk + e + br + o1 + o2 + e =~= pk + br + o1 + o2);
    lemma_home_skips_linux_only(bd, dd, ck, p.home_subdirs.deep_view());
}

/// No entry for a folder saved from home names a Linux-only folder when
/// those are left out.
pub proof fn lemma_home_skips_linux_only(bd: Seq<char>, dd: Seq<char>, ck: u32, subs: Seq<Seq<char>>)
    ensures
        forall|i: int|
            0 <= i < home_items(bd, dd, ck, true, subs).len() ==> !linux_only(
                #[trigger] home_items(bd, dd, ck, true, subs)[i].0.skip(5),
            ),
    decreases subs.len(),
{
    if subs.len() > 0 {
        lemma_home_skips_linux_only(bd, dd, ck, subs.drop_last());
        let s = subs.last();
        let before = home_items(bd, dd, ck, true, subs.drop_last());
        let all = home_items(bd, dd, ck, true, subs);
        if !linux_only(s) {
            reveal_strlit("home-");
            assert(("home-"@ + s).skip(5) =~= s);
            assert forall|i: int| 0 <= i < all.len() implies !linux_only(#[trigger] all[i].0.skip(5)) by {
                if i < before.len() {
                    assert(all[i] == before[i]);
                }
            }
        }
    }
}


// ---------------------------------------------------------------------------
// Choosing from the menu
// ---------------------------------------------------------------------------

/// The lines given to the fuzzy finder: `key|label` per entry.
pub open spec fn fzf_lines(items: Seq<(Seq<char>, Seq<char>, Seq<char>)>) -> Seq<Seq<char>> {
    items.map_values(|e: (Seq<char>, Seq<char>, Seq<char>)| e.0 + "|"@ + e.1)
}

/// The fuzzy finder's input: `key|label` lines joined by line feeds.
pub fn fzf_input(items: &Vec<RestoreItem>) -> (r: String)
    ensures
        r@ == join(fzf_lines(items_view(items@)), "\n"@),
{
    let mut ls: Vec<String> = Vec::new();
    let mut i: usize = 0;
    let ghost f = |e: (Seq<char>, Seq<char>, Seq<char>)| e.0 + "|"@ + e.1;
    assert(ls.deep_view() =~= fzf_lines(items_view(items@)).take(0));
    while i < items.len()
        invariant
            i <= items@.len(),
            f == (|e: (Seq<char>, Seq<char>, Seq<char>)| e.0 + "|"@ + e.1),
            ls.deep_view() == fzf_lines(items_view(items@)).take(i as int),
        decreases items@.len() - i,
    {
        let l = cat3(items[i].key.as_str(), "|", items[i].label.as_str());
        let ghost before = ls.deep_view();
        ls.push(l);
        assert(ls.deep_view() =~= before.push(l@));
        assert(fzf_lines(items_view(items@)).take(i + 1) =~= fzf_lines(items_view(items@)).take(
            i as int,
        ).push(l@));
        i = i + 1;
    }
    assert(fzf_lines(items_view(items@)).take(items@.len() as int) =~= fzf_lines(items_view(items@)));
    join_strings(&ls, "\n")
}

/// The key of a chosen line: the text before the first `|`.
pub open spec fn key_of_line(l: Seq<char>) -> Seq<char> {
    l.take(index_of(l, '|'))
}

/// The index of the first key equal to `k`, or the number of keys.
pub open spec fn position(keys: Seq<Seq<char>>, k: Seq<char>) -> int
    decreases keys.len(),
{
    if keys.len() == 0 {
        0
    } else if keys[0] == k {
        0
    } else {
        1 + position(keys.drop_first(), k)
    }
}

proof fn lemma_position_at(keys: Seq<Seq<char>>, k: Seq<char>, j: int)
    requires
        0 <= j <= keys.len(),
        j < keys.len() ==> keys[j] == k,
        forall|q: int| 0 <= q < j ==> keys[q] != k,
    ensures
        position(keys, k) == j,
    decreases keys.len(),
{
    if keys.len() > 0 && j > 0 {
        assert forall|q: int| 0 <= q < j - 1 implies keys.drop_first()[q] != k by {
            assert(keys.drop_first()[q] == keys[q + 1]);
        }
        lemma_position_at(keys.drop_first(), k, j - 1);
    }
}

/// The entries chosen in the fuzzy finder: for each output line in order,
/// the first entry whose key is the line's key; lines with an unknown key
/// choose nothing.
pub open spec fn fzf_choices(keys: Seq<Seq<char>>, ls: Seq<Seq<char>>) -> Seq<int>
    decreases ls.len(),
{
    if ls.len() == 0 {
        seq![]
    } else {
        let p = fzf_choices(keys, ls.drop_last());
        let j = position(keys, key_of_line(ls.last()));
        if j < keys.len() {
            p.push(j)
        } else {
            p
        }
    }
}

/// The entries chosen in the fuzzy finder, from its output and the keys.
pub fn select_from_fzf(output: &str, keys: &Vec<String>) -> (r: Vec<usize>)
    ensures
        r@.map_values(|i: usize| i as int) == fzf_choices(keys.deep_view(), lines(output@)),
        forall|i: int| 0 <= i < r@.len() ==> r@[i] < keys@.len(),
{
    let ls = lines_of(output);
    let ghost lv = ls.deep_view();
    let ghost kv = keys.deep_view();
    let mut out: Vec<usize> = Vec::new();
    let mut i: usize = 0;
    assert(lv.take(0) =~= Seq::<Seq<char>>::empty());
    assert(out@.map_values(|i: usize| i as int) =~= Seq::<int>::empty());
    while i < ls.len()
        invariant
            i <= ls@.len(),
            lv == ls.deep_view(),
            kv == keys.deep_view(),
            out@.map_values(|i: usize| i as int) == fzf_choices(kv, lv.take(i as int)),
            forall|q: int| 0 <= q < out@.len() ==> out@[q] < keys@.len(),
        decreases ls@.len() - i,
    {
        let v = chars_of(ls[i].as_str());
        let e = find_char(&v, 0, v.len(), '|');
        assert(v@.subrange(0, v@.len() as int) =~= v@);
        let k = string_of(&v, 0, e);
        assert(k@ =~= key_of_line(lv[i as int]));
        let mut j: usize = 0;
        while j < keys.len() && !str_eq(keys[j].as_str(), k.as_str())
            invariant
                j <= keys@.len(),
                kv == keys.deep_view(),
                forall|q: int| 0 <= q < j ==> kv[q] != k@,
            decreases keys@.len() - j,
        {
            j = j + 1;
        }
        proof {
            lemma_position_at(kv, k@, j as int);
            assert(lv.take(i + 1).drop_last() =~= lv.take(i as int));
            assert(lv.take(i + 1).last() == lv[i as int]);
        }
        if j < keys.len() {
            let ghost before = out@;
            out.push(j);
            assert(out@.map_values(|i: usize| i as int) =~= before.map_values(|i: usize| i as int).push(
                j as int,
            ));
        }
        i = i + 1;
    }
    assert(lv.take(ls@.len() as int) =~= lv);
    out
}

/// The lines picked in the fuzzy finder choose back their entries: when the
/// keys are distinct, hold no `|`, and each `key|label` line is a plain line,
/// the finder's output of the lines at positions `picks` (each followed by a
/// line feed) chooses exactly `picks`, in order.
pub proof fn law_fzf_choice_round_trip(items: Seq<(Seq<char>, Seq<char>, Seq<char>)>, picks: Seq<int>)
    requires
        forall|i: int| 0 <= i < items.len() ==> free_of(#[trigger] items[i].0, '|'),
        forall|i: int| 0 <= i < items.len() ==> plain_line(#[trigger] fzf_lines(items)[i]),
        forall|i: int, j: int| 0 <= i < j < items.len() ==> items[i].0 != items[j].0,
        forall|k: int| 0 <= k < picks.len() ==> 0 <= #[trigger] picks[k] < items.len(),
    ensures
        fzf_choices(
            items.map_values(|e: (Seq<char>, Seq<char>, Seq<char>)| e.0),
            lines(terminated(picks.map_values(|i: int| fzf_lines(items)[i]))),
        ) == picks,
    decreases picks.len(),
{
    let chosen = picks.map_values(|i: int| fzf_lines(items)[i]);
    assert forall|k: int| 0 <= k < chosen.len() implies plain_line(#[trigger] chosen[k]) by {
        assert(chosen[k] == fzf_lines(items)[picks[k]]);
    }
    lemma_lines_terminated(chosen);
    lemma_fzf_choices_of_lines(items, picks);
}

proof fn lemma_fzf_choices_of_lines(items: Seq<(Seq<char>, Seq<char>, Seq<char>)>, picks: Seq<int>)
    requires
        forall|i: int| 0 <= i < items.len() ==> free_of(#[trigger] items[i].0, '|'),
        forall|i: int, j: int| 0 <= i < j < items.len() ==> items[i].0 != items[j].0,
        forall|k: int| 0 <= k < picks.len() ==> 0 <= #[trigger] picks[k] < items.len(),
    ensures
        fzf_choices(
            items.map_values(|e: (Seq<char>, Seq<char>, Seq<char>)| e.0),
            picks.map_values(|i: int| fzf_lines(items)[i]),
        ) == picks,
    decreases picks.len(),
{
    if picks.len() > 0 {
        let keys = items.map_values(|e: (Seq<char>, Seq<char>, Seq<char>)| e.0);
        let ls = picks.map_values(|i: int| fzf_lines(items)[i]);
        let front = picks.drop_last();
        assert forall|k: int| 0 <= k < front.len() implies 0 <= #[trigger] front[k] < items.len() by {
            assert(front[k] == picks[k]);
        }
        lemma_fzf_choices_of_lines(items, front);
        assert(ls.drop_last() =~= front.map_values(|i: int| fzf_lines(items)[i]));
        let p = picks.last();
        let key = items[p].0;
        let line = key + "|"@ + items[p].1;
        assert(ls.last() == line);
        reveal_strlit("|");
        assert(line.take(key.len() as int) =~= key);
        lemma_index_of_at(line, '|', key.len() as int);
        assert(key_of_line(line) == key);
        assert forall|q: int| 0 <= q < p implies keys[q] != key by {
            assert(keys[q] == items[q].0);
        }
        lemma_position_at(keys, key, p);
        assert(picks =~= front.push(p));
    }
}

/// `str::split_whitespace`: the runs of non-whitespace characters, in order.
pub open spec fn words(s: Seq<char>) -> Seq<Seq<char>>
    decreases s.len(),
{
    if s.len() == 0 {
        seq![]
    } else {
        let p = words(s.drop_last());
        let c = s.last();
        if is_ws(c) {
            p
        } else if s.len() > 1 && !is_ws(s[s.len() - 2]) && p.len() > 0 {
            p.update(p.len() - 1, p.last().push(c))
        } else {
            p.push(seq![c])
        }
    }
}

/// The last word of a sequence that ends in a non-whitespace character runs
/// from the start of that run.
proof fn lemma_words_last(s: Seq<char>, start: int)
    requires
        0 <= start < s.len(),
        start == 0 || is_ws(s[start - 1]),
        forall|q: int| start <= q < s.len() ==> !is_ws(s[q]),
    ensures
        words(s).len() > 0,
        words(s).last() == s.subrange(start, s.len() as int),
        words(s).drop_last() == words(s.take(start)),
    decreases s.len(),
{
    let p = words(s.drop_last());
    if s.len() - 1 > start {
        lemma_words_last(s.drop_last(), start);
        assert(s.drop_last().take(start) =~= s.take(start));
        assert(s.subrange(start, s.len() - 1).push(s.last()) =~= s.subrange(start, s.len() as int));
        assert(s[s.len() - 2] == s.drop_last()[s.len() - 2]);
    } else {
        assert(s.drop_last() =~= s.take(start));
        assert(s.subrange(start, s.len() as int) =~= seq![s.last()]);
        if start > 0 {
            assert(s[s.len() - 2] == s[start - 1]);
        }
    }
}

/// `str::split_whitespace`.
pub fn split_words(s: &str) -> (r: Vec<String>)
    ensures
        r.deep_view() == words(s@),
{
    let v = chars_of(s);
    let n = v.len();
    let mut out: Vec<String> = Vec::new();
    let mut start: usize = 0;
    let mut in_word = false;
    let mut i: usize = 0;
    assert(v@.take(0) =~= Seq::<char>::empty());
    assert(out.deep_view() =~= Seq::<Seq<char>>::empty());
    while i < n
        invariant
            n == v@.len(),
            v@ == s@,
            i <= n,
            in_word ==> start < i && (start == 0 || is_ws(v@[start - 1])) && forall|q: int|
                start <= q < i ==> !is_ws(v@[q]),
            in_word ==> out.deep_view() == words(v@.take(start as int)),
            !in_word ==> out.deep_view() == words(v@.take(i as int)),
            !in_word ==> (i == 0 || is_ws(v@[i - 1])),
        decreases n - i,
    {
        let ghost t = v@.take(i + 1);
        assert(t.drop_last() =~= v@.take(i as int));
        assert(t.last() == v@[i as int]);
        if is_whitespace(v[i]) {
            if in_word {
                let w = string_of(&v, start, i);
                proof {
                    let u = v@.take(i as int);
                    lemma_words_last(u, start as int);
                    assert(u.subrange(start as int, i as int) =~= w@);
                    assert(u.take(start as int) =~= v@.take(start as int));
                    assert(words(u) =~= words(v@.take(start as int)).push(w@));
                }
                let ghost before = out.deep_view();
                out.push(w);
                assert(out.deep_view() =~= before.push(w@));
                in_word = false;
            }
        } else {
            if !in_word {
                start = i;
                in_word = true;
            }
        }
        i = i + 1;
    }
    if in_word {
        let w = string_of(&v, start, n);
        proof {
            let u = v@.take(n as int);
            assert(u =~= v@);
            lemma_words_last(u, start as int);
            assert(u.subrange(start as int, n as int) =~= w@);
            assert(u.take(start as int) =~= v@.take(start as int));
            assert(words(u) =~= words(v@.take(start as int)).push(w@));
        }
        let ghost before = out.deep_view();
        out.push(w);
        assert(out.deep_view() =~= before.push(w@));
    } else {
        assert(v@.take(n as int) =~= v@);
    }
    out
}

/// The entries picked by their numbers (counting from 1) among `n`: a word
/// that is not a number, or is out of range, picks nothing.
pub open spec fn menu_picks(ws: Seq<Seq<char>>, n: nat) -> Seq<int>
    decreases ws.len(),
{
    if ws.len() == 0 {
        seq![]
    } else {
        let p = menu_picks(ws.drop_last(), n);
        match parse_unsigned(ws.last(), usize::MAX as nat) {
            Some(k) => if 1 <= k && k <= n {
                p.push(k - 1)
            } else {
                p
            },
            None => p,
        }
    }
}

/// The entries chosen by a trimmed, lower-cased answer: all of them for
/// `all`, else those picked by number.
pub open spec fn lowered_choices(a: Seq<char>, n: nat) -> Seq<int> {
    if a == "all"@ {
        Seq::new(n, |i: int| i)
    } else {
        menu_picks(words(a), n)
    }
}

/// The entries chosen in the numbered menu: all of them for `all` (in any
/// case, whitespace around it ignored), else those picked by number.
pub open spec fn menu_choices(answer: Seq<char>, n: nat) -> Seq<int> {
    lowered_choices(lowercase(trim(answer)), n)
}

/// The entries chosen in the numbered menu of `n` entries.
pub fn select_from_menu(answer: &str, n: usize) -> (r: Vec<usize>)
    ensures
        r@.map_values(|i: usize| i as int) == menu_choices(answer@, n as nat),
        forall|i: int| 0 <= i < r@.len() ==> r@[i] < n,
{
    let t = trim_str(answer);
    let a = to_lowercase(t.as_str());
    select_lowered(a.as_str(), n)
}

/// The entries of a numbered menu of `n` entries chosen by a trimmed,
/// lower-cased answer.
pub fn select_lowered(a: &str, n: usize) -> (r: Vec<usize>)
    ensures
        r@.map_values(|i: usize| i as int) == lowered_choices(a@, n as nat),
        forall|i: int| 0 <= i < r@.len() ==> r@[i] < n,
{
    let mut out: Vec<usize> = Vec::new();
    if str_eq(a, "all") {
        let mut i: usize = 0;
        while i < n
            invariant
                i <= n,
                out@.map_values(|i: usize| i as int) == Seq::new(i as nat, |q: int| q),
                forall|q: int| 0 <= q < out@.len() ==> out@[q] < n,
            decreases n - i,
        {
            let ghost before = out@;
            out.push(i);
            assert(out@ =~= before.push(i));
            assert(out@.map_values(|i: usize| i as int) =~= before.map_values(|i: usize| i as int).push(
                i as int,
            ));
            assert(out@.map_values(|i: usize| i as int) =~= Seq::new((i + 1) as nat, |q: int| q));
            i = i + 1;
        }
        return out;
    }
    let ws = split_words(a);
    let ghost wv = ws.deep_view();
    let mut j: usize = 0;
    assert(wv.take(0) =~= Seq::<Seq<char>>::empty());
    assert(out@.map_values(|i: usize| i as int) =~= Seq::<int>::empty());
    while j < ws.len()
        invariant
            j <= ws@.len(),
            wv == ws.deep_view(),
            out@.map_values(|i: usize| i as int) == menu_picks(wv.take(j as int), n as nat),
            forall|q: int| 0 <= q < out@.len() ==> out@[q] < n,
        decreases ws@.len() - j,
    {
        assert(wv.take(j + 1).drop_last() =~= wv.take(j as int));
        assert(wv.take(j + 1).last() == ws@[j as int]@);
        match parse_unsigned_str(ws[j].as_str(), usize::MAX as u64) {
            Some(k) => {
                if 1 <= k && k <= n as u64 {
                    let ghost before = out@;
                    out.push((k - 1) as usize);
                    assert(out@.map_values(|i: usize| i as int) =~= before.map_values(
                        |i: usize| i as int,
                    ).push(k - 1));
                }
            },
            None => {},
        }
        j = j + 1;
    }
    assert(wv.take(ws@.len() as int) =~= wv);
    out
}

/// Whether the answer to "Proceed? [Y/n]" cancels: `n` in any case.
pub fn cancelled(answer: &str) -> (b: bool)
    ensures
        b == (lowercase(trim(answer@)) == "n"@),
{
    let t = trim_str(answer);
    let l = to_lowercase(t.as_str());
    cancels(l.as_str())
}

/// Whether a trimmed, lower-cased answer cancels: it is exactly `n`.
pub fn cancels(lowered: &str) -> (b: bool)
    ensures
        b == (lowered@ == "n"@),
{
    str_eq(lowered, "n")
}

/// The labels of the chosen entries, in order, joined by `, `.
pub fn restore_summary(labels: &Vec<String>, chosen: &Vec<usize>) -> (r: String)
    requires
        forall|i: int| 0 <= i < chosen@.len() ==> chosen@[i] < labels@.len(),
    ensures
        r@ == join(chosen@.map_values(|i: usize| labels@[i as int]@), ", "@),
{
    let mut picked: Vec<String> = Vec::new();
    let mut i: usize = 0;
    let ghost f = |i: usize| labels@[i as int]@;
    assert(picked.deep_view() =~= chosen@.take(0).map_values(f));
    while i < chosen.len()
        invariant
            i <= chosen@.len(),
            forall|q: int| 0 <= q < chosen@.len() ==> chosen@[q] < labels@.len(),
            f == (|i: usize| labels@[i as int]@),
            picked.deep_view() == chosen@.take(i as int).map_values(f),
        decreases chosen@.len() - i,
    {
        let l = labels[chosen[i]].clone();
        let ghost before = picked.deep_view();
        picked.push(l);
        assert(picked.deep_view() =~= before.push(l@));
        assert(chosen@.take(i + 1).map_values(f) =~= chosen@.take(i as int).map_values(f).push(l@));
        i = i + 1;
    }
    assert(chosen@.take(chosen@.len() as int) =~= chosen@);
    join_strings(&picked, ", ")
}

/// The order in which the chosen entries run: each chosen entry among `n`,
/// in order, marked to run only the first time it is chosen (a repeated
/// choice is only announced).
pub open spec fn run_order_spec(chosen: Seq<usize>, n: nat) -> Seq<(usize, bool)>
    decreases chosen.len(),
{
    if chosen.len() == 0 {
        seq![]
    } else {
        let p = run_order_spec(chosen.drop_last(), n);
        let i = chosen.last();
        if i < n {
            p.push((i, !chosen.drop_last().contains(i)))
        } else {
            p
        }
    }
}

/// The order in which the chosen entries run.
pub fn run_order(chosen: &Vec<usize>, n: usize) -> (r: Vec<(usize, bool)>)
    ensures
        r@ == run_order_spec(chosen@, n as nat),
{
    let mut out: Vec<(usize, bool)> = Vec::new();
    let mut i: usize = 0;
    assert(chosen@.take(0) =~= Seq::<usize>::empty());
    while i < chosen.len()
        invariant
            i <= chosen@.len(),
            out@ == run_order_spec(chosen@.take(i as int), n as nat),
        decreases chosen@.len() - i,
    {
        let c = chosen[i];
        let mut seen = false;
        let mut j: usize = 0;
        while j < i
            invariant
                j <= i < chosen@.len(),
                seen == chosen@.take(j as int).contains(c),
            decreases i - j,
        {
            if chosen[j] == c {
                seen = true;
            }
            proof {
                let t0 = chosen@.take(j as int);
                let t1 = chosen@.take(j + 1);
                assert(t1 =~= t0.push(chosen@[j as int]));
                if chosen@[j as int] == c {
                    assert(t1[j as int] == c);
                } else {
                    if t1.contains(c) {
                        let k = choose|k: int| 0 <= k < t1.len() && t1[k] == c;
                        assert(k < j);
                        assert(t0[k] == c);
                    }
                    if t0.contains(c) {
                        let k = choose|k: int| 0 <= k < t0.len() && t0[k] == c;
                        assert(t1[k] == c);
                    }
                }
            }
            j = j + 1;
        }
        assert(chosen@.take(i + 1).drop_last() =~= chosen@.take(i as int));
        assert(chosen@.take(i + 1).last() == c);
        if c < n {
            out.push((c, !seen));
        }
        i = i + 1;
    }
    assert(chosen@.take(chosen@.len() as int) =~= chosen@);
    out
}

/// An entry runs at most once, however often it was chosen.
pub proof fn law_each_item_runs_once(chosen: Seq<usize>, n: nat)
    ensures
        forall|a: int, b: int|
            0 <= a < b < run_order_spec(chosen, n).len() && #[trigger] run_order_spec(chosen, n)[a].1
                && #[trigger] run_order_spec(chosen, n)[b].1 ==> run_order_spec(chosen, n)[a].0
                != run_order_spec(chosen, n)[b].0,
    decreases chosen.len(),
{
    if chosen.len() > 0 {
        let p = run_order_spec(chosen.drop_last(), n);
        law_run_order_members(chosen.drop_last(), n);
        law_each_item_runs_once(chosen.drop_last(), n);
        let r = run_order_spec(chosen, n);
        assert forall|a: int, b: int|
            0 <= a < b < r.len() && #[trigger] r[a].1 && #[trigger] r[b].1 implies r[a].0 != r[b].0 by {
            if b < p.len() {
                assert(r[a] == p[a] && r[b] == p[b]);
            } else {
                assert(r[a] == p[a]);
                assert(chosen.drop_last().contains(p[a].0));
            }
        }
    }
}

/// Every entry of the order was chosen.
pub proof fn law_run_order_members(chosen: Seq<usize>, n: nat)
    ensures
        forall|a: int| 0 <= a < run_order_spec(chosen, n).len() ==> chosen.contains(
            #[trigger] run_order_spec(chosen, n)[a].0,
        ) && run_order_spec(chosen, n)[a].0 < n,
    decreases chosen.len(),
{
    if chosen.len() > 0 {
        let p = run_order_spec(chosen.drop_last(), n);
        law_run_order_members(chosen.drop_last(), n);
        let r = run_order_spec(chosen, n);
        assert forall|a: int| 0 <= a < r.len() implies chosen.contains(#[trigger] r[a].0) && r[a].0 < n by {
            if a < p.len() {
                assert(r[a] == p[a]);
                let k = choose|k: int| 0 <= k < chosen.drop_last().len() && chosen.drop_last()[k] == p[a].0;
                assert(chosen[k] == p[a].0);
            } else {
                assert(chosen[chosen.len() - 1] == r[a].0);
            }
        }
    }
}


// ---------------------------------------------------------------------------
// Laws of the menu, the choice and the order
// ---------------------------------------------------------------------------

/// The package-list entries read the list the backup holds: when
/// `packages-aur.txt` is there (and yay is installed) the AUR entry installs
/// from it, and from the old name `pacman-aur.txt` only when it is absent;
/// likewise for the official packages and pacman.
pub proof fn law_package_entries_read_present_lists(
    bd: Seq<char>,
    dd: Seq<char>,
    ck: u32,
    platform: Platform,
    p: RestoreProbe,
)
    ensures
        p.has_yay && p.aur ==> restore_items_spec(bd, dd, ck, platform, p).contains(
            ("aur-pkgs"@, "Install AUR packages (yay)"@, "yay -S --needed - < '"@ + bd + "/packages-aur.txt'"@),
        ),
        p.has_yay && !p.aur && p.aur_old ==> restore_items_spec(bd, dd, ck, platform, p).contains(
            ("aur-pkgs"@, "Install AUR packages (yay)"@, "yay -S --needed - < '"@ + bd + "/pacman-aur.txt'"@),
        ),
        p.has_pacman && p.pacman_official ==> restore_items_spec(bd, dd, ck, platform, p).contains(
            (
                "official-pkgs"@,
                "Install official packages (pacman)"@,
                "sudo pacman -S --needed - < '"@ + bd + "/packages-pacman-official.txt'"@,
            ),
        ),
        p.has_pacman && !p.pacman_official && p.pacman_official_old ==> restore_items_spec(
            bd,
            dd,
            ck,
            platform,
            p,
        ).contains(
            (
                "official-pkgs"@,
                "Install official packages (pacman)"@,
                "sudo pacman -S --needed - < '"@ + bd + "/pacman-official.txt'"@,
            ),
        ),
{
    let all = restore_items_spec(bd, dd, ck, platform, p);
    let pk = package_items(bd, p);
    lemma_menu_starts_with_packages(bd, dd, ck, platform, p);
    lemma_package_entries(bd, p);
    if p.has_yay && (p.aur || p.aur_old) {
        let i = choose|i: int| 0 <= i < pk.len() && pk[i] == aur_item(bd, p);
        assert(all[i] == pk[i]);
        assert(all[i] == aur_item(bd, p));
        assert(all.contains(all[i]));
    }
    if p.has_pacman && (p.pacman_official || p.pacman_official_old) {
        let i = choose|i: int| 0 <= i < pk.len() && pk[i] == pacman_item(bd, p);
        assert(all[i] == pk[i]);
        assert(all[i] == pacman_item(bd, p));
        assert(all.contains(all[i]));
    }
}

/// `x` is a prefix of `y`.
pub open spec fn is_prefix<A>(x: Seq<A>, y: Seq<A>) -> bool {
    x.len() <= y.len() && forall|i: int| 0 <= i < x.len() ==> #[trigger] y[i] == x[i]
}

/// A prefix stays a prefix when more is appended.
proof fn lemma_prefix_add<A>(x: Seq<A>, y: Seq<A>, z: Seq<A>)
    requires
        is_prefix(x, y),
    ensures
        is_prefix(x, y + z),
{
    assert forall|i: int| 0 <= i < x.len() implies #[trigger] (y + z)[i] == x[i] by {
        assert((y + z)[i] == y[i]);
    }
}

/// The menu starts with the package entries.
proof fn lemma_menu_starts_with_packages(bd: Seq<char>, dd: Seq<char>, ck: u32, platform: Platform, p: RestoreProbe)
    ensures
        is_prefix(package_items(bd, p), restore_items_spec(bd, dd, ck, platform, p)),
{
    let pk = package_items(bd, p);
    let linux = platform == Platform::Linux;
    let s0 = pk;
    let s1 = s0 + opt(p.config && linux, config_item(bd, dd, ck));
    let s2 = s1 + browser_items(bd, dd, ck, browsers_spec(platform), p.browser_dirs@, 4);
    let s3 = s2 + opt(p.ssh, folder_item("ssh"@, "Restore ~/.ssh"@, bd + "/.ssh"@, dd + "/.ssh"@, ck));
    let s4 = s3 + opt(p.gnupg, folder_item("gnupg"@, "Restore ~/.gnupg"@, bd + "/.gnupg"@, dd + "/.gnupg"@, ck));
    let s5 = s4 + opt(p.keyrings && linux, keyrings_item(bd, dd, ck));
    let s6 = s5 + opt(p.vm_qemu, vm_configs_item(bd, p.vm_qemu_dst@, ck));
    let s7 = s6 + opt(p.vm_images, vm_images_item(bd, p.vm_images_dst@, ck));
    let s8 = s7 + home_items(bd, dd, ck, !linux, p.home_subdirs.deep_view());
    let s9 = s8 + extra_items(bd, dd, ck, p.extra_dirs.deep_view(), origins_view(p.extra_origins@));
    assert(is_prefix(pk, s0));
    lemma_prefix_add(pk, s0, opt(p.config && linux, config_item(bd, dd, ck)));
    lemma_prefix_add(pk, s1, browser_items(bd, dd, ck, browsers_spec(platform), p.browser_dirs@, 4));
    lemma_prefix_add(pk, s2, opt(p.ssh, folder_item("ssh"@, "Restore ~/.ssh"@, bd + "/.ssh"@, dd + "/.ssh"@, ck)));
    lemma_prefix_add(
        pk,
        s3,
        opt(p.gnupg, folder_item("gnupg"@, "Restore ~/.gnupg"@, bd + "/.gnupg"@, dd + "/.gnupg"@, ck)),
    );
    lemma_prefix_add(pk, s4, opt(p.keyrings && linux, keyrings_item(bd, dd, ck)));
    lemma_prefix_add(pk, s5, opt(p.vm_qemu, vm_configs_item(bd, p.vm_qemu_dst@, ck)));
    lemma_prefix_add(pk, s6, opt(p.vm_images, vm_images_item(bd, p.vm_images_dst@, ck)));
    lemma_prefix_add(pk, s7, home_items(bd, dd, ck, !linux, p.home_subdirs.deep_view()));
    lemma_prefix_add(pk, s8, extra_items(bd, dd, ck, p.extra_dirs.deep_view(), origins_view(p.extra_origins@)));
    assert(restore_items_spec(bd, dd, ck, platform, p) == s9);
}

/// The package entries hold the pacman and AUR entries when they apply, and
/// these read the list the backup holds.
proof fn lemma_package_entries(bd: Seq<char>, p: RestoreProbe)
    ensures
        (p.aur || p.aur_old) && p.has_yay ==> package_items(bd, p).contains(aur_item(bd, p)),
        (p.pacman_official || p.pacman_official_old) && p.has_pacman ==> package_items(bd, p).contains(
            pacman_item(bd, p),
        ),
        aur_item(bd, p) == (if p.aur {
            ("aur-pkgs"@, "Install AUR packages (yay)"@, "yay -S --needed - < '"@ + bd + "/packages-aur.txt'"@)
        } else {
            ("aur-pkgs"@, "Install AUR packages (yay)"@, "yay -S --needed - < '"@ + bd + "/pacman-aur.txt'"@)
        }),
        pacman_item(bd, p) == (if p.pacman_official {
            (
                "official-pkgs"@,
                "Install official packages (pacman)"@,
                "sudo pacman -S --needed - < '"@ + bd + "/packages-pacman-official.txt'"@,
            )
        } else {
            (
                "official-pkgs"@,
                "Install official packages (pacman)"@,
                "sudo pacman -S --needed - < '"@ + bd + "/pacman-official.txt'"@,
            )
        }),
{
    reveal_strlit("/");
    reveal_strlit("'");
    reveal_strlit("packages-aur.txt");
    reveal_strlit("pacman-aur.txt");
    reveal_strlit("/packages-aur.txt'");
    reveal_strlit("/pacman-aur.txt'");
    reveal_strlit("packages-pacman-official.txt");
    reveal_strlit("pacman-official.txt");
    reveal_strlit("/packages-pacman-official.txt'");
    reveal_strlit("/pacman-official.txt'");
    let pk = package_items(bd, p);
    let o1 = opt((p.pacman_official || p.pacman_official_old) && p.has_pacman, pacman_item(bd, p));
    let o2 = opt((p.aur || p.aur_old) && p.has_yay, aur_item(bd, p));
    let rest = pk.skip((o1.len() + o2.len()) as int);
    assert(pk =~= o1 + o2 + rest);
    if p.aur {
        assert(aur_item(bd, p).2 =~= "yay -S --needed - < '"@ + bd + "/packages-aur.txt'"@);
    } else {
        assert(aur_item(bd, p).2 =~= "yay -S --needed - < '"@ + bd + "/pacman-aur.txt'"@);
    }
    if p.pacman_official {
        assert(pacman_item(bd, p).2 =~= "sudo pacman -S --needed - < '"@ + bd + "/packages-pacman-official.txt'"@);
    } else {
        assert(pacman_item(bd, p).2 =~= "sudo pacman -S --needed - < '"@ + bd + "/pacman-official.txt'"@);
    }
    if (p.pacman_official || p.pacman_official_old) && p.has_pacman {
        assert(pk[0] == pacman_item(bd, p));
        assert(pk.contains(pk[0]));
    }
    if (p.aur || p.aur_old) && p.has_yay {
        let i = o1.len() as int;
        assert(pk[i] == aur_item(bd, p));
        assert(pk.contains(pk[i]));
    }
}

/// A word without whitespace is the only word.
proof fn lemma_words_single(s: Seq<char>)
    requires
        s.len() > 0,
        forall|q: int| 0 <= q < s.len() ==> !is_ws(#[trigger] s[q]),
    ensures
        words(s) == seq![s],
{
    lemma_words_last(s, 0);
    assert(s.take(0) =~= Seq::<char>::empty());
    assert(words(Seq::<char>::empty()) == Seq::<Seq<char>>::empty());
    assert(s.subrange(0, s.len() as int) =~= s);
    assert(words(s) =~= seq![s]);
}

/// Typing the number of an entry in the numbered menu chooses exactly that
/// entry: for every menu of `n` entries and every `k` from 1 to `n`, the
/// answer that is the decimal of `k` chooses entry `k - 1` alone.
pub proof fn law_menu_number_chooses_entry(k: nat, n: nat)
    requires
        1 <= k <= n,
        k <= usize::MAX,
    ensures
        lowered_choices(decimal(k), n) == seq![k - 1],
{
    let d = decimal(k);
    crate::text::lemma_decimal(k);
    crate::text::lemma_trim_decimal(k);
    assert forall|q: int| 0 <= q < d.len() implies !is_ws(#[trigger] d[q]) by {
        assert(crate::text::is_digit(d[q]));
    }
    lemma_words_single(d);
    reveal_strlit("all");
    assert(d != "all"@) by {
        assert(crate::text::is_digit(d[0]));
        if d == "all"@ {
            assert(d[0] == 'a');
        }
    }
    assert(parse_unsigned(d, usize::MAX as nat) == Some(k));
    let ws = seq![d];
    assert(ws.drop_last() =~= Seq::<Seq<char>>::empty());
    assert(ws.last() == d);
    assert(menu_picks(Seq::<Seq<char>>::empty(), n) == Seq::<int>::empty());
    assert(menu_picks(ws, n) == Seq::<int>::empty().push(k - 1));
    assert(menu_picks(ws, n) =~= seq![k - 1]);
}

/// Every chosen entry of the menu runs: for each entry `i` below `n` that
/// was chosen, the order holds `i` marked to run.
pub proof fn law_chosen_entries_run(chosen: Seq<usize>, n: nat, i: usize)
    requires
        i < n,
        chosen.contains(i),
    ensures
        run_order_spec(chosen, n).contains((i, true)),
    decreases chosen.len(),
{
    let p = run_order_spec(chosen.drop_last(), n);
    let r = run_order_spec(chosen, n);
    if chosen.drop_last().contains(i) {
        law_chosen_entries_run(chosen.drop_last(), n, i);
        let a = choose|a: int| 0 <= a < p.len() && p[a] == (i, true);
        assert(r[a] == p[a]);
        assert(r.contains(r[a]));
    } else {
        let k = choose|k: int| 0 <= k < chosen.len() && chosen[k] == i;
        if k < chosen.len() - 1 {
            assert(chosen.drop_last()[k] == i);
        }
        assert(chosen.last() == i);
        assert(r == p.push((i, true)));
        assert(r[p.len() as int] == (i, true));
        assert(r.contains(r[p.len() as int]));
    }
}

} // verus!
