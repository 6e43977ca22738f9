//! What a backup run does, step by step: the size estimate, the package
//! lists, and the copy jobs for settings, browser profiles, virtual
//! machines, the home folder and extra folders.
use vstd::prelude::*;
use crate::config::{
    Platform, browser_excludes, browser_excludes_spec, browsers, browsers_spec, cache_excludes,
    cache_excludes_spec, config_excludes, config_excludes_spec, gdu_ignore_dirs,
    gdu_ignore_dirs_spec, gdu_scan_dirs, gdu_scan_dirs_spec, home_excludes, home_excludes_spec,
    path_join, join_path,
};
use crate::manifest::{Manifest, is_unchanged, record, unchanged};
use crate::order::str_eq;
use crate::path::{file_name, file_name_of, parent, parent_path};
use crate::text::{
    join, join_strings, lines, lines_of, lowercase, owned, parse_unsigned, parse_unsigned_str,
    cat2, cat3, push_str, starts_with, starts_with_str, to_lowercase, trim, trim_char, trim_matches_char,
    trim_str,
};
use crate::util::{exclude_args, push_excludes};

verus! {

// ---------------------------------------------------------------------------
// Size estimate
// ---------------------------------------------------------------------------

/// The command that prints the size in bytes of `path`, ignoring the
/// folders named in `ignore`.
pub fn gdu_command(path: &str, ignore: &str) -> (r: String)
    ensures
        r@ == "gdu -n -s -p --no-prefix --ignore-dirs '"@ + ignore@ + "' '"@ + path@
            + "' 2>/dev/null | awk '{print $1}'"@,
{
    let mut r = owned("gdu -n -s -p --no-prefix --ignore-dirs '");
    push_str(&mut r, ignore);
    push_str(&mut r, "' '");
    push_str(&mut r, path);
    push_str(&mut r, "' 2>/dev/null | awk '{print $1}'");
    r
}

/// The size that the disk-usage command printed: its trimmed output read as
/// a number, or 0 when that fails (also when it printed nothing).
pub fn gdu_size(gdu_output: &str) -> (n: u64)
    ensures
        n == (match parse_unsigned(trim(gdu_output@), u64::MAX as nat) {
            Some(v) => v as u64,
            None => 0,
        }),
{
    let t = trim_str(gdu_output);
    match parse_unsigned_str(t.as_str(), u64::MAX) {
        Some(v) => v,
        None => 0,
    }
}

/// The ignored folders as the disk-usage tool takes them: comma-separated.
pub fn gdu_ignore_arg() -> (r: String)
    ensures
        r@ == join(gdu_ignore_dirs_spec(), ","@),
{
    join_strings(&gdu_ignore_dirs(), ",")
}

/// The folders under home whose sizes are added up.
pub fn home_scan_paths(home: &str) -> (r: Vec<String>)
    ensures
        r.deep_view() == gdu_scan_dirs_spec().map_values(|d: Seq<char>| home@ + "/"@ + d),
{
    let dirs = gdu_scan_dirs();
    let mut out: Vec<String> = Vec::new();
    let mut i: usize = 0;
    while i < dirs.len()
        invariant
            i <= dirs@.len(),
            dirs.deep_view() == gdu_scan_dirs_spec(),
            out.deep_view() == gdu_scan_dirs_spec().take(i as int).map_values(
                |d: Seq<char>| home@ + "/"@ + d,
            ),
        decreases dirs@.len() - i,
    {
        let mut p = owned(home);
        push_str(&mut p, "/");
        push_str(&mut p, dirs[i].as_str());
        let ghost before = out.deep_view();
        out.push(p);
        assert(out.deep_view() =~= before.push(p@));
        assert(dirs.deep_view()[i as int] == dirs@[i as int]@);
        assert(gdu_scan_dirs_spec().take(i + 1).map_values(|d: Seq<char>| home@ + "/"@ + d)
            =~= gdu_scan_dirs_spec().take(i as int).map_values(|d: Seq<char>| home@ + "/"@ + d).push(
            p@,
        ));
        i = i + 1;
    }
    assert(gdu_scan_dirs_spec().take(dirs@.len() as int) =~= gdu_scan_dirs_spec());
    out
}

/// The sum of the sizes.
pub open spec fn total(sizes: Seq<u64>) -> nat
    decreases sizes.len(),
{
    if sizes.len() == 0 {
        0
    } else {
        total(sizes.drop_last()) + sizes.last() as nat
    }
}

/// The estimated size of the data: 0 without the disk-usage tool, else the
/// sum of the sizes of the folders that exist; nothing when the sum does not
/// fit in 64 bits.
pub fn estimate_home_size(gdu_available: bool, sizes: &Vec<u64>) -> (r: Option<u64>)
    ensures
        !gdu_available ==> r == Some(0u64),
        gdu_available && total(sizes@) <= u64::MAX ==> r == Some(total(sizes@) as u64),
        gdu_available && total(sizes@) > u64::MAX ==> r is None,
{
    if !gdu_available {
        return Some(0);
    }
    let mut sum: u64 = 0;
    let mut i: usize = 0;
    assert(sizes@.take(0) =~= Seq::<u64>::empty());
    while i < sizes.len()
        invariant
            i <= sizes@.len(),
            gdu_available,
            sum == total(sizes@.take(i as int)),
        decreases sizes@.len() - i,
    {
        assert(sizes@.take(i + 1).drop_last() =~= sizes@.take(i as int));
        if sum > u64::MAX - sizes[i] {
            proof {
                lemma_total_prefix(sizes@, i + 1);
            }
            return None;
        }
        sum = sum + sizes[i];
        i = i + 1;
    }
    assert(sizes@.take(sizes@.len() as int) =~= sizes@);
    Some(sum)
}

/// A prefix never sums to more than the whole.
pub proof fn lemma_total_prefix(s: Seq<u64>, k: int)
    requires
        0 <= k <= s.len(),
    ensures
        total(s.take(k)) <= total(s),
    decreases s.len() - k,
{
    if k < s.len() {
        lemma_total_prefix(s, k + 1);
        assert(s.take(k + 1).drop_last() =~= s.take(k));
    } else {
        assert(s.take(k) =~= s);
    }
}

// ---------------------------------------------------------------------------
// Package lists
// ---------------------------------------------------------------------------

/// The text after `ID=` on the first line that starts with it.
pub open spec fn first_id_line(ls: Seq<Seq<char>>) -> Option<Seq<char>>
    decreases ls.len(),
{
    if ls.len() == 0 {
        None
    } else if starts_with(ls[0], seq!['I', 'D', '=']) {
        Some(ls[0].skip(3))
    } else {
        first_id_line(ls.drop_first())
    }
}

/// The distribution id in `/etc/os-release`: the value of the first `ID=`
/// line without quotes or surrounding whitespace, in lower case; empty when
/// there is none.
pub open spec fn os_id_spec(content: Seq<char>) -> Seq<char> {
    match first_id_line(lines(content)) {
        Some(v) => lowercase(trim(trim_char(v, '"'))),
        None => seq![],
    }
}

/// The distribution id from the text of `/etc/os-release` (empty when the
/// file could not be read).
pub fn os_id_from_release(content: &str) -> (r: String)
    ensures
        r@ == os_id_spec(content@),
{
    match release_id(content) {
        Some(t) => to_lowercase(t.as_str()),
        None => String::new(),
    }
}

/// The value of the first `ID=` line of `/etc/os-release`, without quotes
/// or surrounding whitespace, before it is lower-cased; nothing when no
/// line starts with `ID=`.
pub fn release_id(content: &str) -> (r: Option<String>)
    ensures
        r matches Some(t) ==> (first_id_line(lines(content@)) matches Some(v) && t@ == trim(trim_char(v, '"'))),
        r is None ==> first_id_line(lines(content@)) is None,
{
    let ls = lines_of(content);
    let ghost lv = ls.deep_view();
    let mut i: usize = 0;
    assert(lv.skip(0) =~= lv);
    while i < ls.len()
        invariant
            i <= ls@.len(),
            lv == ls.deep_view(),
            lv == lines(content@),
            first_id_line(lv) == first_id_line(lv.skip(i as int)),
        decreases ls@.len() - i,
    {
        assert(lv.skip(i as int)[0] == lv[i as int]);
        assert(lv.skip(i as int).drop_first() =~= lv.skip(i + 1));
        if starts_with_str(ls[i].as_str(), "ID=") {
            proof {
                reveal_strlit("ID=");
                assert("ID="@ =~= seq!['I', 'D', '=']);
            }
            let v = crate::text::chars_of(ls[i].as_str());
            let rest = crate::text::string_of(&v, 3, v.len());
            assert(rest@ =~= lv[i as int].skip(3));
            let unq = trim_matches_char(rest.as_str(), '"');
            let t = trim_str(unq.as_str());
            return Some(t);
        } else {
            proof {
                reveal_strlit("ID=");
                assert("ID="@ =~= seq!['I', 'D', '=']);
            }
        }
        i = i + 1;
    }
    None
}

/// The distribution family of an id: 0 Arch, 1 Debian, 2 Fedora, 3
/// openSUSE, 4 Alpine, 5 unknown.
pub open spec fn os_family(id: Seq<char>) -> int {
    if id == "arch"@ || id == "archarm"@ || id == "manjaro"@ || id == "endeavouros"@ || id
        == "cachyos"@ || id == "arcolinux"@ || id == "garuda"@ {
        0
    } else if id == "debian"@ || id == "ubuntu"@ || id == "linuxmint"@ || id == "pop"@ || id
        == "zorin"@ || id == "elementary"@ || id == "kali"@ {
        1
    } else if id == "fedora"@ || id == "rhel"@ || id == "centos"@ || id == "rocky"@ || id
        == "almalinux"@ {
        2
    } else if id == "opensuse"@ || id == "opensuse-tumbleweed"@ || id == "suse"@ || id
        == "opensuse-leap"@ {
        3
    } else if id == "alpine"@ {
        4
    } else {
        5
    }
}

/// The distribution family of an id.
pub fn os_family_of(id: &str) -> (f: u8)
    ensures
        f as int == os_family(id@),
{
    if str_eq(id, "arch") || str_eq(id, "archarm") || str_eq(id, "manjaro") || str_eq(
        id,
        "endeavouros",
    ) || str_eq(id, "cachyos") || str_eq(id, "arcolinux") || str_eq(id, "garuda") {
        0
    } else if str_eq(id, "debian") || str_eq(id, "ubuntu") || str_eq(id, "linuxmint") || str_eq(
        id,
        "pop",
    ) || str_eq(id, "zorin") || str_eq(id, "elementary") || str_eq(id, "kali") {
        1
    } else if str_eq(id, "fedora") || str_eq(id, "rhel") || str_eq(id, "centos") || str_eq(
        id,
        "rocky",
    ) || str_eq(id, "almalinux") {
        2
    } else if str_eq(id, "opensuse") || str_eq(id, "opensuse-tumbleweed") || str_eq(id, "suse")
        || str_eq(id, "opensuse-leap") {
        3
    } else if str_eq(id, "alpine") {
        4
    } else {
        5
    }
}

/// The pacman lists: official packages and AUR packages.
pub open spec fn pacman_lists() -> Seq<(Seq<char>, Seq<char>)> {
    seq![
        ("pacman -Qqen"@, "packages-pacman-official.txt"@),
        ("pacman -Qqem"@, "packages-aur.txt"@),
    ]
}

/// The dpkg list.
pub open spec fn dpkg_list() -> (Seq<char>, Seq<char>) {
    ("dpkg --get-selections"@, "packages-dpkg.txt"@)
}

/// The dnf list.
pub open spec fn dnf_list() -> (Seq<char>, Seq<char>) {
    ("dnf list installed 2>/dev/null | tail -n +2 | awk '{print $1}'"@, "packages-dnf.txt"@)
}

/// The zypper list.
pub open spec fn zypper_list() -> (Seq<char>, Seq<char>) {
    ("zypper se --installed-only -s 2>/dev/null | tail -n +5 | awk '{print $3}'"@, "packages-zypper.txt"@)
}

/// The apk list.
pub open spec fn apk_list() -> (Seq<char>, Seq<char>) {
    ("apk info"@, "packages-apk.txt"@)
}

/// The package-list commands and the files they write, for a distribution
/// id: those of its family (all of them for an unknown id), then Flatpak's
/// and Snap's.
pub open spec fn package_commands_spec(id: Seq<char>) -> Seq<(Seq<char>, Seq<char>)> {
    let f = os_family(id);
    (if f == 0 {
        pacman_lists()
    } else if f == 1 {
        seq![dpkg_list()]
    } else if f == 2 {
        seq![dnf_list()]
    } else if f == 3 {
        seq![zypper_list()]
    } else if f == 4 {
        seq![apk_list()]
    } else {
        pacman_lists() + seq![dpkg_list(), dnf_list(), zypper_list(), apk_list()]
    }) + seq![
        ("flatpak list --app --columns=application"@, "flatpak-list.txt"@),
        ("snap list"@, "snap-list.txt"@),
    ]
}

fn pair(a: &str, b: &str) -> (r: (String, String))
    ensures
        r.0@ == a@,
        r.1@ == b@,
{
    (owned(a), owned(b))
}

/// The package-list commands and the files they write, for a distribution
/// id.
pub fn package_list_commands(os_id: &str) -> (r: Vec<(String, String)>)
    ensures
        r@.map_values(|p: (String, String)| (p.0@, p.1@)) == package_commands_spec(os_id@),
{
    let f = os_family_of(os_id);
    let mut v: Vec<(String, String)> = Vec::new();
    if f == 0 || f == 5 {
        v.push(pair("pacman -Qqen", "packages-pacman-official.txt"));
        v.push(pair("pacman -Qqem", "packages-aur.txt"));
    }
    if f == 1 || f == 5 {
        v.push(pair("dpkg --get-selections", "packages-dpkg.txt"));
    }
    if f == 2 || f == 5 {
        v.push(pair("dnf list installed 2>/dev/null | tail -n +2 | awk '{print $1}'", "packages-dnf.txt"));
    }
    if f == 3 || f == 5 {
        v.push(
            pair(
                "zypper se --installed-only -s 2>/dev/null | tail -n +5 | awk '{print $3}'",
                "packages-zypper.txt",
            ),
        );
    }
    if f == 4 || f == 5 {
        v.push(pair("apk info", "packages-apk.txt"));
    }
    v.push(pair("flatpak list --app --columns=application", "flatpak-list.txt"));
    v.push(pair("snap list", "snap-list.txt"));
    assert(v@.map_values(|p: (String, String)| (p.0@, p.1@)) =~= package_commands_spec(os_id@));
    v
}

/// The shell command that writes one package list into the backup.
pub fn package_list_shell(cmd: &str, dest: &str, filename: &str) -> (r: String)
    ensures
        r@ == cmd@ + " > '"@ + dest@ + "/"@ + filename@ + "' 2>/dev/null"@,
{
    let mut r = owned(cmd);
    push_str(&mut r, " > '");
    push_str(&mut r, dest);
    push_str(&mut r, "/");
    push_str(&mut r, filename);
    push_str(&mut r, "' 2>/dev/null");
    r
}

// ---------------------------------------------------------------------------
// Copy jobs
// ---------------------------------------------------------------------------

/// When a copy job runs.
pub enum Condition {
    /// Always.
    Always,
    /// When this folder exists.
    IsDir(String),
    /// When the folder exists or the file exists.
    IsDirOrFile(String, String),
    /// When this path exists.
    Exists(String),
}

/// A condition with its paths as character sequences.
pub enum ConditionView {
    Always,
    IsDir(Seq<char>),
    IsDirOrFile(Seq<char>, Seq<char>),
    Exists(Seq<char>),
}

/// One copy: what is shown, source, destination, whether through sudo, the
/// extra arguments of the copy tool, and when it runs.
pub struct CopyJob {
    pub label: String,
    pub src: String,
    pub dst: String,
    pub sudo: bool,
    pub extra: Vec<String>,
    pub condition: Condition,
}

/// A copy job with its strings as character sequences.
pub struct JobView {
    pub label: Seq<char>,
    pub src: Seq<char>,
    pub dst: Seq<char>,
    pub sudo: bool,
    pub extra: Seq<Seq<char>>,
    pub condition: ConditionView,
}

/// The view of a copy job.
pub open spec fn job_view(j: CopyJob) -> JobView {
    JobView {
        label: j.label@,
        src: j.src@,
        dst: j.dst@,
        sudo: j.sudo,
        extra: j.extra.deep_view(),
        condition: match j.condition {
            Condition::Always => ConditionView::Always,
            Condition::IsDir(p) => ConditionView::IsDir(p@),
            Condition::IsDirOrFile(d, f) => ConditionView::IsDirOrFile(d@, f@),
            Condition::Exists(p) => ConditionView::Exists(p@),
        },
    }
}

/// The settings copies on Linux: `~/.config` without caches and the
/// excluded folders, then `.ssh`, `.gnupg` and the keyrings when present.
pub open spec fn config_jobs_linux(home: Seq<char>, dest: Seq<char>) -> Seq<JobView> {
    let item = |i: Seq<char>| JobView {
        label: i,
        src: home + "/"@ + i,
        dst: dest + "/"@ + i,
        sudo: false,
        extra: seq![],
        condition: ConditionView::IsDir(home + "/"@ + i),
    };
    seq![
        JobView {
            label: ".config"@,
            src: home + "/.config/"@,
            dst: dest + "/config"@,
            sudo: false,
            extra: exclude_args(cache_excludes_spec() + config_excludes_spec()),
            condition: ConditionView::Always,
        },
        item(".ssh"@),
        item(".gnupg"@),
        item(".local/share/keyrings"@),
    ]
}

/// The settings copies on Windows: `.ssh` and `.gnupg` in the profile
/// folder, then the git configuration.
pub open spec fn config_jobs_windows(profile: Seq<char>, dest: Seq<char>) -> Seq<JobView> {
    let item = |i: Seq<char>| JobView {
        label: i,
        src: profile + "\\"@ + i,
        dst: dest + "/"@ + i,
        sudo: false,
        extra: seq![],
        condition: ConditionView::IsDirOrFile(profile + "\\"@ + i, profile + "\\"@ + i + ".gitconfig"@),
    };
    seq![
        item(".ssh"@),
        item(".gnupg"@),
        JobView {
            label: "gitconfig"@,
            src: profile + "\\gitconfig"@,
            dst: dest + "/gitconfig"@,
            sudo: false,
            extra: seq![],
            condition: ConditionView::Exists(profile + "\\gitconfig"@),
        },
    ]
}

fn simple_job(label: &str, src: String, dst: String, condition: Condition) -> (j: CopyJob)
    ensures
        j.label@ == label@,
        j.src == src,
        j.dst == dst,
        !j.sudo,
        j.extra.deep_view() == Seq::<Seq<char>>::empty(),
        j.condition == condition,
{
    let j = CopyJob { label: owned(label), src, dst, sudo: false, extra: Vec::new(), condition };
    assert(j.extra.deep_view() =~= Seq::<Seq<char>>::empty());
    j
}

/// The copies that back up settings: on Linux from the home folder, on
/// Windows from the user profile.
pub fn backup_config(platform: Platform, home: &str, profile: &str, dest: &str) -> (r: Vec<CopyJob>)
    ensures
        r@.map_values(|j: CopyJob| job_view(j)) == (if platform == Platform::Linux {
            config_jobs_linux(home@, dest@)
        } else {
            config_jobs_windows(profile@, dest@)
        }),
{
    let mut v: Vec<CopyJob> = Vec::new();
    if platform == Platform::Linux {
        let mut extra: Vec<String> = Vec::new();
        let mut pats = cache_excludes();
        let mut more = config_excludes();
        let ghost p1 = pats.deep_view();
        let ghost p2 = more.deep_view();
        pats.append(&mut more);
        assert(pats.deep_view() =~= p1 + p2);
        push_excludes(&mut extra, &pats);
        assert(extra.deep_view() =~= exclude_args(cache_excludes_spec() + config_excludes_spec()));
        v.push(
            CopyJob {
                label: owned(".config"),
                src: cat2(home, "/.config/"),
                dst: cat2(dest, "/config"),
                sudo: false,
                extra,
                condition: Condition::Always,
            },
        );
        v.push(simple_job(".ssh", cat3(home, "/", ".ssh"), cat3(dest, "/", ".ssh"), Condition::IsDir(cat3(home, "/", ".ssh"))));
        v.push(simple_job(".gnupg", cat3(home, "/", ".gnupg"), cat3(dest, "/", ".gnupg"), Condition::IsDir(cat3(home, "/", ".gnupg"))));
        v.push(
            simple_job(
                ".local/share/keyrings",
                cat3(home, "/", ".local/share/keyrings"),
                cat3(dest, "/", ".local/share/keyrings"),
                Condition::IsDir(cat3(home, "/", ".local/share/keyrings")),
            ),
        );
        proof {
            let vv = v@.map_values(|j: CopyJob| job_view(j));
            let sp = config_jobs_linux(home@, dest@);
            assert(vv.len() == sp.len());
            assert(forall|i: int| 0 <= i < 4 ==> #[trigger] vv[i] == sp[i]);
            assert(vv =~= sp);
        }
    } else {
        let ssh = cat3(profile, "\\", ".ssh");
        let gnupg = cat3(profile, "\\", ".gnupg");
        v.push(
            simple_job(
                ".ssh",
                ssh.clone(),
                cat3(dest, "/", ".ssh"),
                Condition::IsDirOrFile(ssh.clone(), cat2(ssh.as_str(), ".gitconfig")),
            ),
        );
        v.push(
            simple_job(
                ".gnupg",
                gnupg.clone(),
                cat3(dest, "/", ".gnupg"),
                Condition::IsDirOrFile(gnupg.clone(), cat2(gnupg.as_str(), ".gitconfig")),
            ),
        );
        v.push(
            simple_job(
                "gitconfig",
                cat2(profile, "\\gitconfig"),
                cat2(dest, "/gitconfig"),
                Condition::Exists(cat2(profile, "\\gitconfig")),
            ),
        );
        proof {
            let vv = v@.map_values(|j: CopyJob| job_view(j));
            let sp = config_jobs_windows(profile@, dest@);
            assert(forall|i: int| 0 <= i < 3 ==> #[trigger] vv[i] == sp[i]);
            assert(vv =~= sp);
        }
    }
    v
}


/// One browser profile to back up: its saved name, its folder, and the
/// source and destination of its copy.
pub struct BrowserJob {
    pub name: String,
    pub src: String,
    pub copy_src: String,
    pub copy_dst: String,
}

/// The profile folder of a browser: under home on Linux, under the user
/// profile on Windows.
pub open spec fn browser_src(platform: Platform, home: Seq<char>, profile: Seq<char>, rel: Seq<char>) -> Seq<char> {
    if platform == Platform::Linux {
        home + "/"@ + rel
    } else {
        profile + "\\"@ + rel
    }
}

/// The view of a browser job from its profile entry.
pub open spec fn browser_job_spec(
    platform: Platform,
    home: Seq<char>,
    profile: Seq<char>,
    dest: Seq<char>,
    b: (Seq<char>, Seq<char>),
) -> (Seq<char>, Seq<char>, Seq<char>, Seq<char>) {
    let src = browser_src(platform, home, profile, b.0);
    (b.1, src, src + "/"@, dest + "/browser/"@ + b.1 + "/"@)
}

/// The browser profiles to back up, in order.
pub fn browser_jobs(platform: Platform, home: &str, profile: &str, dest: &str) -> (r: Vec<BrowserJob>)
    ensures
        r@.map_values(|j: BrowserJob| (j.name@, j.src@, j.copy_src@, j.copy_dst@)) == browsers_spec(
            platform,
        ).map_values(
            |b: (Seq<char>, Seq<char>)| browser_job_spec(platform, home@, profile@, dest@, b),
        ),
{
    let bs = browsers(platform);
    let ghost bv = bs@.map_values(|p: (String, String)| (p.0@, p.1@));
    let ghost f = |b: (Seq<char>, Seq<char>)| browser_job_spec(platform, home@, profile@, dest@, b);
    let ghost g = |j: BrowserJob| (j.name@, j.src@, j.copy_src@, j.copy_dst@);
    let mut out: Vec<BrowserJob> = Vec::new();
    let mut i: usize = 0;
    assert(out@.map_values(g) =~= bv.take(0).map_values(f));
    while i < bs.len()
        invariant
            i <= bs@.len(),
            bv == bs@.map_values(|p: (String, String)| (p.0@, p.1@)),
            bv == browsers_spec(platform),
            f == (|b: (Seq<char>, Seq<char>)| browser_job_spec(platform, home@, profile@, dest@, b)),
            g == (|j: BrowserJob| (j.name@, j.src@, j.copy_src@, j.copy_dst@)),
            out@.map_values(g) == bv.take(i as int).map_values(f),
        decreases bs@.len() - i,
    {
        let (rel, name) = (&bs[i].0, &bs[i].1);
        let src = if platform == Platform::Linux {
            cat3(home, "/", rel.as_str())
        } else {
            cat3(profile, "\\", rel.as_str())
        };
        let copy_src = cat2(src.as_str(), "/");
        let mut copy_dst = cat3(dest, "/browser/", name.as_str());
        push_str(&mut copy_dst, "/");
        let ghost before = out@;
        out.push(BrowserJob { name: name.clone(), src, copy_src, copy_dst });
        proof {
            assert(bv[i as int] == (rel@, name@));
            assert(out@.map_values(g) =~= before.map_values(g).push(f(bv[i as int])));
            assert(bv.take(i + 1).map_values(f) =~= bv.take(i as int).map_values(f).push(
                f(bv[i as int]),
            ));
        }
        i = i + 1;
    }
    assert(bv.take(bs@.len() as int) =~= bv);
    out
}

/// The extra arguments of a browser copy: caches and temporary data left out.
pub fn browser_copy_extra() -> (r: Vec<String>)
    ensures
        r.deep_view() == exclude_args(cache_excludes_spec() + browser_excludes_spec()),
{
    let mut extra: Vec<String> = Vec::new();
    let mut pats = cache_excludes();
    let mut more = browser_excludes();
    let ghost p1 = pats.deep_view();
    let ghost p2 = more.deep_view();
    pats.append(&mut more);
    assert(pats.deep_view() =~= p1 + p2);
    push_excludes(&mut extra, &pats);
    assert(extra.deep_view() =~= exclude_args(cache_excludes_spec() + browser_excludes_spec()));
    extra
}

/// How many folders were copied and how many skipped as unchanged.
pub struct SyncTally {
    pub changed: u32,
    pub skipped: u32,
}

impl SyncTally {
    /// Nothing counted yet.
    pub fn new() -> (t: Self)
        ensures
            t.changed == 0 && t.skipped == 0,
    {
        SyncTally { changed: 0, skipped: 0 }
    }

    /// Counts a copied folder.
    pub fn copied(&mut self)
        requires
            old(self).changed < u32::MAX,
        ensures
            final(self).changed == old(self).changed + 1,
            final(self).skipped == old(self).skipped,
    {
        self.changed = self.changed + 1;
    }

    /// Counts a skipped folder.
    pub fn skipped_one(&mut self)
        requires
            old(self).skipped < u32::MAX,
        ensures
            final(self).skipped == old(self).skipped + 1,
            final(self).changed == old(self).changed,
    {
        self.skipped = self.skipped + 1;
    }

    /// The closing message, when anything was counted.
    pub fn summary(&self) -> (r: Option<String>)
        ensures
            (self.changed > 0 || self.skipped > 0) ==> (r matches Some(m) && m@ == "Done: "@
                + crate::text::decimal(self.changed as nat) + " backed up, "@ + crate::text::decimal(
                self.skipped as nat,
            ) + " skipped"@),
            (self.changed == 0 && self.skipped == 0) ==> r is None,
    {
        if self.changed > 0 || self.skipped > 0 {
            let mut m = owned("Done: ");
            crate::text::push_decimal(&mut m, self.changed as u64);
            push_str(&mut m, " backed up, ");
            crate::text::push_decimal(&mut m, self.skipped as u64);
            push_str(&mut m, " skipped");
            Some(m)
        } else {
            None
        }
    }
}

/// One more, unless the count is at its largest.
pub open spec fn bump(x: u32) -> u32 {
    if x < u32::MAX {
        (x + 1) as u32
    } else {
        x
    }
}

/// A pass over folders that are copied only when they changed: the record
/// of what was copied and when, and the counts.
pub struct FolderSync {
    pub manifest: Manifest,
    pub tally: SyncTally,
}

impl FolderSync {
    /// A pass that starts from a manifest, with nothing counted.
    pub fn new(manifest: Manifest) -> (r: Self)
        ensures
            r.manifest == manifest,
            r.tally.changed == 0 && r.tally.skipped == 0,
    {
        FolderSync { manifest, tally: SyncTally::new() }
    }

    /// Whether folder `name`, last changed at `mtime`, is to be copied: not
    /// when the manifest records that very time, and then it is counted as
    /// skipped.
    pub fn needs_copy(&mut self, name: &str, mtime: u64) -> (b: bool)
        requires
            old(self).manifest.wf(),
        ensures
            final(self).manifest == old(self).manifest,
            b == !unchanged(old(self).manifest.map(), name@, mtime),
            final(self).tally.changed == old(self).tally.changed,
            final(self).tally.skipped == (if b {
                old(self).tally.skipped
            } else {
                bump(old(self).tally.skipped)
            }),
    {
        if is_unchanged(&self.manifest, name, mtime) {
            if self.tally.skipped < u32::MAX {
                self.tally.skipped = self.tally.skipped + 1;
            }
            false
        } else {
            true
        }
    }

    /// After a copy of folder `name` taken at `mtime` has run: it counts as
    /// backed up whatever the copy tool's exit status; it is recorded in the
    /// manifest only when the copy succeeded, so that a failed copy is not
    /// skipped as unchanged on the next run.
    pub fn copy_done(&mut self, name: String, mtime: u64, ok: bool)
        requires
            old(self).manifest.wf(),
        ensures
            final(self).manifest.wf(),
            final(self).tally.skipped == old(self).tally.skipped,
            final(self).tally.changed == bump(old(self).tally.changed),
            ok ==> final(self).manifest.map() == old(self).manifest.map().insert(name@, mtime),
            !ok ==> final(self).manifest == old(self).manifest,
    {
        if ok {
            record(&mut self.manifest, name, mtime);
        }
        if self.tally.changed < u32::MAX {
            self.tally.changed = self.tally.changed + 1;
        }
    }
}

// ---------------------------------------------------------------------------
// Virtual machines, home folder, extra folders
// ---------------------------------------------------------------------------

/// Where virtual machine data goes in the backup.
pub fn vm_dest(dest: &str) -> (r: String)
    ensures
        r@ == dest@ + "/virt-manager"@,
{
    cat2(dest, "/virt-manager")
}

/// The command that copies the virtual machines' definitions from
/// `qemu_src`, keeping ownership and times.
pub fn vm_config_command(vm_dest: &str, qemu_src: &str) -> (r: String)
    ensures
        r@ == "sudo cp -a '"@ + qemu_src@ + "' '"@ + vm_dest@ + "/' 2>/dev/null"@,
{
    let mut r = cat3("sudo cp -a '", qemu_src, "' '");
    push_str(&mut r, vm_dest);
    push_str(&mut r, "/' 2>/dev/null");
    r
}

/// The copy of the virtual machines' disk images from `images_src`: through
/// sudo, in place, when that folder exists.
pub fn vm_images_job(vm_dest: &str, images_src: &str) -> (j: CopyJob)
    ensures
        job_view(j) == (JobView {
            label: "VM disk images"@,
            src: images_src@,
            dst: vm_dest@ + "/images/"@,
            sudo: true,
            extra: seq!["--inplace"@],
            condition: ConditionView::IsDir(images_src@),
        }),
{
    let extra = vec![owned("--inplace")];
    assert(extra.deep_view() =~= seq!["--inplace"@]);
    CopyJob {
        label: owned("VM disk images"),
        src: owned(images_src),
        dst: cat2(vm_dest, "/images/"),
        sudo: true,
        extra,
        condition: Condition::IsDir(owned(images_src)),
    }
}

/// The copy of the whole home folder without the excluded folders and files.
/// On Linux it runs through sudo and keeps symbolic links as links; on
/// Windows it runs as the current user and passes no `--links`, since
/// links there need administrator rights.
pub fn backup_home(platform: Platform, home: &str, dest: &str) -> (j: CopyJob)
    ensures
        job_view(j) == (JobView {
            label: "~"@,
            src: home@ + "/"@,
            dst: dest@ + "/home"@,
            sudo: platform == Platform::Linux,
            extra: (if platform == Platform::Linux {
                seq!["--links"@]
            } else {
                seq![]
            }) + exclude_args(home_excludes_spec()),
            condition: ConditionView::Always,
        }),
{
    let linux = match platform {
        Platform::Linux => true,
        Platform::Windows => false,
    };
    let mut extra: Vec<String> = Vec::new();
    if linux {
        extra.push(owned("--links"));
    }
    assert(extra.deep_view() =~= (if platform == Platform::Linux {
        seq!["--links"@]
    } else {
        Seq::<Seq<char>>::empty()
    }));
    push_excludes(&mut extra, &home_excludes());
    CopyJob {
        label: owned("~"),
        src: cat2(home, "/"),
        dst: cat2(dest, "/home"),
        sudo: linux,
        extra,
        condition: Condition::Always,
    }
}

/// Where extra folders go in the backup.
pub fn extra_dest(dest: &str) -> (r: String)
    ensures
        r@ == dest@ + "/extra"@,
{
    cat2(dest, "/extra")
}

/// The name an extra folder is saved under (its last path component, or
/// empty when it has none) and its place in the backup.
pub fn extra_target(extra_dest: &str, src: &str) -> (r: (String, String))
    ensures
        r.0@ == (match file_name_of(src@) {
            Some(n) => n,
            None => seq![],
        }),
        r.1@ == extra_dest@ + "/"@ + r.0@,
{
    let name = match file_name(src) {
        Some(n) => n,
        None => String::new(),
    };
    let target = cat3(extra_dest, "/", name.as_str());
    (name, target)
}

// ---------------------------------------------------------------------------
// The run as a whole
// ---------------------------------------------------------------------------

/// The mount point that must be mounted for a Linux backup: the parent of
/// the destination's parent, or empty when there is none.
pub open spec fn mount_base_spec(dest: Seq<char>) -> Seq<char> {
    match parent_path(dest) {
        Some(p) => match parent_path(p) {
            Some(q) => q,
            None => seq![],
        },
        None => seq![],
    }
}

/// The mount point that must be mounted for a Linux backup.
pub fn mount_base(dest: &str) -> (r: String)
    ensures
        r@ == mount_base_spec(dest@),
{
    match parent(dest) {
        Some(p) => match parent(p.as_str()) {
            Some(q) => q,
            None => String::new(),
        },
        None => String::new(),
    }
}

/// The command that succeeds when a mount point is mounted.
pub fn mount_check_command(base: &str) -> (r: String)
    ensures
        r@ == "findmnt -n '"@ + base@ + "'"@,
{
    cat3("findmnt -n '", base, "'")
}

/// Whether the answer to "Overwrite existing backup? [y/N]" confirms.
pub fn confirm_overwrite(answer: &str) -> (b: bool)
    ensures
        b == (lowercase(trim(answer@)) == "y"@),
{
    let t = trim_str(answer);
    let l = to_lowercase(t.as_str());
    confirms(l.as_str())
}

/// Whether a trimmed, lower-cased answer confirms: it is exactly `y`.
pub fn confirms(lowered: &str) -> (b: bool)
    ensures
        b == (lowered@ == "y"@),
{
    str_eq(lowered, "y")
}

/// The marker written when a backup completes.
pub fn complete_marker(dest: &str) -> (r: String)
    ensures
        r@ == path_join(dest@, ".complete"@),
{
    join_path(dest, ".complete")
}

/// Whether the destination was left by a run that did not finish and is
/// cleared before this one: it exists but holds no completion marker.
pub fn incomplete_backup(dest_exists: bool, marker_exists: bool) -> (b: bool)
    ensures
        b == (dest_exists && !marker_exists),
{
    dest_exists && !marker_exists
}

/// The log file of a backup.
pub fn log_path(dest: &str) -> (r: String)
    ensures
        r@ == dest@ + "/backup.log"@,
{
    cat2(dest, "/backup.log")
}

/// The command that prints the size of the finished backup.
pub fn du_command(dest: &str) -> (r: String)
    ensures
        r@ == "du -sh '"@ + dest@ + "' | cut -f1"@,
{
    cat3("du -sh '", dest, "' | cut -f1")
}

} // verus!
