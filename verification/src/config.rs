//! The user's configuration file: `KEY=value` lines overriding built-in
//! defaults, the settings read from it, and the file the editor is given.
use vstd::prelude::*;
use crate::keymap::{KeyMap, entries_map};
use crate::text::{
    chars_of, find_char, free_of, index_of, lemma_lines_free, lemma_lines_terminated,
    lemma_trim_idempotent, lemma_trim_plain, lines, lines_of, owned, plain_line, push_char,
    push_str, split, split_char, split_once, string_of, terminated, trim, trim_bounds,
};

verus! {

/// One line of the configuration file read as a setting: blank lines and
/// lines starting with `#` are skipped; otherwise the trimmed text before the
/// first `=` is the key and the trimmed text after it the value.
pub open spec fn config_entry(line: Seq<char>) -> Option<(Seq<char>, Seq<char>)> {
    let t = trim(line);
    if t.len() == 0 || t[0] == '#' {
        None
    } else {
        match split_once(t, '=') {
            Some((k, v)) => Some((trim(k), trim(v))),
            None => None,
        }
    }
}

/// The settings that a sequence of lines holds, in order.
pub open spec fn config_entries(ls: Seq<Seq<char>>) -> Seq<(Seq<char>, Seq<char>)>
    decreases ls.len(),
{
    if ls.len() == 0 {
        seq![]
    } else {
        let p = config_entries(ls.drop_last());
        match config_entry(ls.last()) {
            Some(e) => p.push(e),
            None => p,
        }
    }
}

/// The configuration that a file's text holds; a later line for a key wins.
pub open spec fn user_config_of(content: Seq<char>) -> Map<Seq<char>, Seq<char>> {
    entries_map(config_entries(lines(content)))
}

/// The user's settings.
pub type UserConfig = KeyMap<String>;

/// Reads the configuration file's text (empty when the file is missing or
/// unreadable).
pub fn load_user_config(content: &str) -> (cfg: UserConfig)
    ensures
        cfg.wf(),
        cfg.map() == user_config_of(content@),
{
    let ls = lines_of(content);
    let ghost lv = ls.deep_view();
    let mut m: UserConfig = KeyMap::new();
    let mut j: usize = 0;
    assert(lv.take(0) =~= Seq::<Seq<char>>::empty());
    while j < ls.len()
        invariant
            j <= ls@.len(),
            lv == ls.deep_view(),
            lv == lines(content@),
            m.wf(),
            m.map() == entries_map(config_entries(lv.take(j as int))),
        decreases ls@.len() - j,
    {
        let v = chars_of(ls[j].as_str());
        let n = v.len();
        let ghost line = lv[j as int];
        assert(v@ == line);
        assert(lv.take(j + 1).drop_last() =~= lv.take(j as int));
        assert(lv.take(j + 1).last() == line);
        assert(v@.subrange(0, n as int) =~= v@);
        let (a, b) = trim_bounds(&v, 0, n);
        let ghost t = trim(line);
        if a < b && v[a] != '#' {
            let i = find_char(&v, a, b, '=');
            if i < b {
                let (ka, kb) = trim_bounds(&v, a, i);
                let (va, vb) = trim_bounds(&v, i + 1, b);
                assert(v@.subrange(a as int, i as int) =~= t.take(i - a));
                assert(v@.subrange(i + 1, b as int) =~= t.skip(i - a + 1));
                let key = string_of(&v, ka, kb);
                let value = string_of(&v, va, vb);
                proof {
                    let p = config_entries(lv.take(j as int));
                    assert(config_entry(line) == Some((key@, value@)));
                    assert(p.push((key@, value@)).drop_last() =~= p);
                }
                m.insert(key, value);
            } else {
                assert(config_entry(line) is None);
            }
        } else {
            assert(config_entry(line) is None);
        }
        j = j + 1;
    }
    assert(lv.take(ls@.len() as int) =~= lv);
    m
}

/// The value set for `key`, if any.
pub open spec fn setting(cfg: Map<Seq<char>, Seq<char>>, key: Seq<char>) -> Option<Seq<char>> {
    if cfg.contains_key(key) {
        Some(cfg[key])
    } else {
        None
    }
}

/// The value set for `key`, if any.
pub fn get_setting(cfg: &UserConfig, key: &str) -> (r: Option<String>)
    requires
        cfg.wf(),
    ensures
        r matches Some(v) ==> setting(cfg.map(), key@) == Some(v@),
        r is None ==> setting(cfg.map(), key@) is None,
{
    match cfg.get(key) {
        Some(v) => Some(v.clone()),
        None => None,
    }
}

/// The value set for `key`, or `default`.
pub open spec fn setting_or(cfg: Map<Seq<char>, Seq<char>>, key: Seq<char>, default: Seq<char>) -> Seq<char> {
    match setting(cfg, key) {
        Some(v) => v,
        None => default,
    }
}

/// The value set for `key`, or `default`.
fn setting_or_default(cfg: &UserConfig, key: &str, default: &str) -> (r: String)
    requires
        cfg.wf(),
    ensures
        r@ == setting_or(cfg.map(), key@, default@),
{
    match get_setting(cfg, key) {
        Some(v) => v,
        None => owned(default),
    }
}

// ---------------------------------------------------------------------------
// Android FTP settings
// ---------------------------------------------------------------------------

/// `ANDROID_FTP_HOST`, the phone's address; there is no default.
pub fn android_ftp_host(cfg: &UserConfig) -> (r: Option<String>)
    requires
        cfg.wf(),
    ensures
        r matches Some(v) ==> setting(cfg.map(), "ANDROID_FTP_HOST"@) == Some(v@),
        r is None ==> setting(cfg.map(), "ANDROID_FTP_HOST"@) is None,
{
    get_setting(cfg, "ANDROID_FTP_HOST")
}

/// `ANDROID_FTP_PORT`, by default `2121`.
pub fn android_ftp_port(cfg: &UserConfig) -> (r: String)
    requires
        cfg.wf(),
    ensures
        r@ == setting_or(cfg.map(), "ANDROID_FTP_PORT"@, "2121"@),
{
    setting_or_default(cfg, "ANDROID_FTP_PORT", "2121")
}

/// `ANDROID_FTP_USER`, by default `ftp`.
pub fn android_ftp_user(cfg: &UserConfig) -> (r: String)
    requires
        cfg.wf(),
    ensures
        r@ == setting_or(cfg.map(), "ANDROID_FTP_USER"@, "ftp"@),
{
    setting_or_default(cfg, "ANDROID_FTP_USER", "ftp")
}

/// `ANDROID_FTP_PASS`, by default `0000`.
pub fn android_ftp_pass(cfg: &UserConfig) -> (r: String)
    requires
        cfg.wf(),
    ensures
        r@ == setting_or(cfg.map(), "ANDROID_FTP_PASS"@, "0000"@),
{
    setting_or_default(cfg, "ANDROID_FTP_PASS", "0000")
}

// ---------------------------------------------------------------------------
// Extra directories
// ---------------------------------------------------------------------------

/// The trimmed, non-empty pieces of a comma-separated list, in order.
pub open spec fn list_items(pieces: Seq<Seq<char>>) -> Seq<Seq<char>>
    decreases pieces.len(),
{
    if pieces.len() == 0 {
        seq![]
    } else {
        let p = list_items(pieces.drop_last());
        let t = trim(pieces.last());
        if t.len() > 0 {
            p.push(t)
        } else {
            p
        }
    }
}

/// The directories listed in `BACKUP_EXTRA_DIRS`.
pub open spec fn extra_dirs_of(cfg: Map<Seq<char>, Seq<char>>) -> Seq<Seq<char>> {
    match setting(cfg, "BACKUP_EXTRA_DIRS"@) {
        Some(s) => list_items(split(s, ',')),
        None => seq![],
    }
}

/// The extra directories to back up: `BACKUP_EXTRA_DIRS` split at commas,
/// each trimmed, empty ones left out.
pub fn extra_backup_dirs(cfg: &UserConfig) -> (r: Vec<String>)
    requires
        cfg.wf(),
    ensures
        r.deep_view() == extra_dirs_of(cfg.map()),
{
    let mut out: Vec<String> = Vec::new();
    match get_setting(cfg, "BACKUP_EXTRA_DIRS") {
        None => {
            assert(out.deep_view() =~= Seq::<Seq<char>>::empty());
            out
        },
        Some(s) => {
            let pieces = split_char(s.as_str(), ',');
            let ghost pv = pieces.deep_view();
            let mut j: usize = 0;
            assert(pv.take(0) =~= Seq::<Seq<char>>::empty());
            assert(out.deep_view() =~= Seq::<Seq<char>>::empty());
            while j < pieces.len()
                invariant
                    j <= pieces@.len(),
                    pv == pieces.deep_view(),
                    out.deep_view() == list_items(pv.take(j as int)),
                decreases pieces@.len() - j,
            {
                let v = chars_of(pieces[j].as_str());
                let (a, b) = trim_bounds(&v, 0, v.len());
                assert(v@.subrange(0, v@.len() as int) =~= v@);
                assert(pv.take(j + 1).drop_last() =~= pv.take(j as int));
                if a < b {
                    let t = string_of(&v, a, b);
                    let ghost before = out.deep_view();
                    out.push(t);
                    assert(out.deep_view() =~= before.push(t@));
                }
                j = j + 1;
            }
            assert(pv.take(pieces@.len() as int) =~= pv);
            out
        },
    }
}

// ---------------------------------------------------------------------------
// Platform-dependent locations
// ---------------------------------------------------------------------------

/// The operating system the tool runs on.
#[derive(Clone, Copy, Debug, PartialEq, Eq, Structural)]
pub enum Platform {
    Linux,
    Windows,
}

/// Windows when any of `APPDATA`, `SYSTEMDRIVE` or `COMPUTERNAME` is set.
pub fn detect_platform(appdata_set: bool, systemdrive_set: bool, computername_set: bool) -> (p: Platform)
    ensures
        p == (if appdata_set || systemdrive_set || computername_set {
            Platform::Windows
        } else {
            Platform::Linux
        }),
{
    if appdata_set || systemdrive_set || computername_set {
        Platform::Windows
    } else {
        Platform::Linux
    }
}

/// The drive letters tried for a Windows backup location, in order.
pub open spec fn windows_drives_spec() -> Seq<Seq<char>> {
    seq!["E:"@, "F:"@, "D:"@, "C:"@]
}

/// The drive letters tried for a Windows backup location, in order.
pub fn windows_drives() -> (r: Vec<String>)
    ensures
        r.deep_view() == windows_drives_spec(),
{
    let v = vec![owned("E:"), owned("F:"), owned("D:"), owned("C:")];
    assert(v.deep_view() =~= windows_drives_spec());
    v
}

/// The root folder of a drive, whose presence is tested first.
pub fn drive_root(drive: &str) -> (r: String)
    ensures
        r@ == drive@ + "\\"@,
{
    let mut r = owned(drive);
    push_str(&mut r, "\\");
    r
}

/// The file written to test that a drive accepts writes.
pub fn space_test_path(drive: &str) -> (r: String)
    ensures
        r@ == drive@ + "\\.space_test"@,
{
    let mut r = owned(drive);
    push_str(&mut r, "\\.space_test");
    r
}

/// A location under the configured key, else on the first usable Windows
/// drive, else on `C:`, else the Linux default.
pub open spec fn located(
    cfg: Map<Seq<char>, Seq<char>>,
    key: Seq<char>,
    platform: Platform,
    usable_drive: Option<Seq<char>>,
    folder: Seq<char>,
    linux_default: Seq<char>,
) -> Seq<char> {
    match setting(cfg, key) {
        Some(v) => v,
        None => if platform == Platform::Windows {
            match usable_drive {
                Some(d) => d + "\\"@ + folder,
                None => "C:\\"@ + folder,
            }
        } else {
            linux_default
        },
    }
}

fn locate(
    cfg: &UserConfig,
    key: &str,
    platform: Platform,
    usable_drive: Option<&str>,
    folder: &str,
    linux_default: &str,
) -> (r: String)
    requires
        cfg.wf(),
    ensures
        r@ == located(
            cfg.map(),
            key@,
            platform,
            match usable_drive {
                Some(d) => Some(d@),
                None => None,
            },
            folder@,
            linux_default@,
        ),
{
    match get_setting(cfg, key) {
        Some(v) => v,
        None => {
            if platform == Platform::Windows {
                match usable_drive {
                    Some(d) => {
                        let mut r = owned(d);
                        push_str(&mut r, "\\");
                        push_str(&mut r, folder);
                        r
                    },
                    None => {
                        let mut r = owned("C:\\");
                        push_str(&mut r, folder);
                        r
                    },
                }
            } else {
                owned(linux_default)
            }
        },
    }
}

/// Where backups are saved: `BACKUP_BASE` if set; on Windows `BACKUP` on the
/// first drive (of E:, F:, D:, C:) that exists and accepts writes, else
/// `C:\BACKUP`; on Linux `/mnt/HDD4T/BACKUP`.
pub fn backup_base(cfg: &UserConfig, platform: Platform, usable_drive: Option<&str>) -> (r: String)
    requires
        cfg.wf(),
    ensures
        r@ == located(
            cfg.map(),
            "BACKUP_BASE"@,
            platform,
            match usable_drive {
                Some(d) => Some(d@),
                None => None,
            },
            "BACKUP"@,
            "/mnt/HDD4T/BACKUP"@,
        ),
{
    locate(cfg, "BACKUP_BASE", platform, usable_drive, "BACKUP", "/mnt/HDD4T/BACKUP")
}

/// Where manga backups go: `MIHON_PATH` if set; on Windows `Mihon` on the
/// first usable drive, else `C:\Mihon`; on Linux `/mnt/HDD4T/Mihon`.
pub fn mihon_path(cfg: &UserConfig, platform: Platform, usable_drive: Option<&str>) -> (r: String)
    requires
        cfg.wf(),
    ensures
        r@ == located(
            cfg.map(),
            "MIHON_PATH"@,
            platform,
            match usable_drive {
                Some(d) => Some(d@),
                None => None,
            },
            "Mihon"@,
            "/mnt/HDD4T/Mihon"@,
        ),
{
    locate(cfg, "MIHON_PATH", platform, usable_drive, "Mihon", "/mnt/HDD4T/Mihon")
}

/// `PathBuf::push` of a relative path on Unix: a separator is added unless
/// the base is empty or already ends with one.
pub open spec fn path_join(base: Seq<char>, rel: Seq<char>) -> Seq<char> {
    if base.len() == 0 || base.last() == '/' {
        base + rel
    } else {
        base + seq!['/'] + rel
    }
}

/// `base` joined with the relative path `rel`.
pub fn join_path(base: &str, rel: &str) -> (r: String)
    ensures
        r@ == path_join(base@, rel@),
{
    let v = chars_of(base);
    let mut r = owned(base);
    if v.len() > 0 && v[v.len() - 1] != '/' {
        push_char(&mut r, '/');
    }
    push_str(&mut r, rel);
    r
}

/// The home folder: `HOME` when set; else on Windows the user profile
/// (`USERPROFILE`, or `C:\\Users\\Default` without it); else `/root`.
pub fn home_folder(platform: Platform, home_env: Option<&str>, profile_env: Option<&str>) -> (r: String)
    ensures
        home_env matches Some(h) ==> r@ == h@,
        home_env is None && platform == Platform::Windows ==> r@ == (match profile_env {
            Some(p) => p@,
            None => "C:\\Users\\Default"@,
        }),
        home_env is None && platform == Platform::Linux ==> r@ == "/root"@,
{
    match home_env {
        Some(h) => owned(h),
        None => match platform {
            Platform::Windows => match profile_env {
                Some(p) => owned(p),
                None => owned("C:\\Users\\Default"),
            },
            Platform::Linux => owned("/root"),
        },
    }
}

/// The configuration file under the home folder.
pub fn config_path(home: &str) -> (r: String)
    ensures
        r@ == path_join(home@, ".config"@) + "/backup-restore/config"@,
{
    let mut r = join_path(home, ".config");
    push_str(&mut r, "/backup-restore/config");
    r
}

/// The manifest file: under `APPDATA` on Windows (or `C:\Windows\manifest`
/// without it), under the home folder on Linux.
pub fn manifest_path(platform: Platform, appdata: Option<&str>, home: &str) -> (r: String)
    ensures
        platform == Platform::Windows ==> r@ == (match appdata {
            Some(a) => a@ + "\\backup-restore\\manifest"@,
            None => "C:\\Windows\\manifest"@,
        }),
        platform == Platform::Linux ==> r@ == home@ + "/.local/share/backup-restore/manifest"@,
{
    if platform == Platform::Windows {
        match appdata {
            Some(a) => {
                let mut r = owned(a);
                push_str(&mut r, "\\backup-restore\\manifest");
                r
            },
            None => owned("C:\\Windows\\manifest"),
        }
    } else {
        let mut r = owned(home);
        push_str(&mut r, "/.local/share/backup-restore/manifest");
        r
    }
}

// ---------------------------------------------------------------------------
// The file given to the editor
// ---------------------------------------------------------------------------

/// The commented template of the configuration file, line by line.
pub open spec fn template_spec() -> Seq<Seq<char>> {
    seq![
        "# ── CONFIG for backup-restore ──────────────────────"@,
        "# Uncomment and set any values you want to override."@,
        "# Lines starting with # are ignored."@,
        ""@,
        "# ── Backup destination ──"@,
        "# Default: /mnt/HDD4T/BACKUP (Linux) or D:\\BACKUP (Windows)"@,
        "# BACKUP_BASE=/mnt/HDD4T/BACKUP"@,
        ""@,
        "# ── Extra directories to back up (comma-separated, relative to ~/) ──"@,
        "# Default: empty (no extra dirs)"@,
        "# BACKUP_EXTRA_DIRS="@,
        ""@,
        "# ── Android FTP backup (IP of phone running CX File Explorer) ──"@,
        "# Default: skipped (SMS/contacts still back up)"@,
        "# ANDROID_FTP_HOST="@,
        "# Default: 2121"@,
        "# ANDROID_FTP_PORT=2121"@,
        "# Default: ftp"@,
        "# ANDROID_FTP_USER=ftp"@,
        "# Default: 0000"@,
        "# ANDROID_FTP_PASS=0000"@,
        ""@,
        "# ── Mihon manga backup path ──"@,
        "# Default: /mnt/HDD4T/Mihon (Linux) or D:\\Mihon (Windows)"@,
        "# MIHON_PATH=/mnt/HDD4T/Mihon"@
    ]
}

/// The heading above the settings kept from the previous file.
pub open spec fn overrides_heading() -> Seq<char> {
    "# ── Active user overrides ──"@
}

/// The commented template of the configuration file, line by line.
pub fn template_lines() -> (r: Vec<&'static str>)
    ensures
        r@.map_values(|s: &str| s@) == template_spec(),
{
    let mut v: Vec<&'static str> = Vec::new();
    v.push("# ── CONFIG for backup-restore ──────────────────────");
    v.push("# Uncomment and set any values you want to override.");
    v.push("# Lines starting with # are ignored.");
    v.push("");
    v.push("# ── Backup destination ──");
    v.push("# Default: /mnt/HDD4T/BACKUP (Linux) or D:\\BACKUP (Windows)");
    v.push("# BACKUP_BASE=/mnt/HDD4T/BACKUP");
    v.push("");
    v.push("# ── Extra directories to back up (comma-separated, relative to ~/) ──");
    v.push("# Default: empty (no extra dirs)");
    v.push("# BACKUP_EXTRA_DIRS=");
    v.push("");
    v.push("# ── Android FTP backup (IP of phone running CX File Explorer) ──");
    v.push("# Default: skipped (SMS/contacts still back up)");
    v.push("# ANDROID_FTP_HOST=");
    v.push("# Default: 2121");
    v.push("# ANDROID_FTP_PORT=2121");
    v.push("# Default: ftp");
    v.push("# ANDROID_FTP_USER=ftp");
    v.push("# Default: 0000");
    v.push("# ANDROID_FTP_PASS=0000");
    v.push("");
    v.push("# ── Mihon manga backup path ──");
    v.push("# Default: /mnt/HDD4T/Mihon (Linux) or D:\\Mihon (Windows)");
    v.push("# MIHON_PATH=/mnt/HDD4T/Mihon");
    assert(v@.map_values(|s: &str| s@) =~= template_spec());
    v
}

/// Every template line is blank or a comment, and a plain line.
proof fn lemma_template()
    ensures
        forall|i: int| 0 <= i < template_spec().len() ==> config_entry(#[trigger] template_spec()[i]) is None,
        forall|i: int| 0 <= i < template_spec().len() ==> plain_line(#[trigger] template_spec()[i]),
        config_entry(overrides_heading()) is None,
        plain_line(overrides_heading()),
{
    reveal_strlit("# ── CONFIG for backup-restore ──────────────────────");
    reveal_strlit("# Uncomment and set any values you want to override.");
    reveal_strlit("# Lines starting with # are ignored.");
    reveal_strlit("");
    reveal_strlit("# ── Backup destination ──");
    reveal_strlit("# Default: /mnt/HDD4T/BACKUP (Linux) or D:\\BACKUP (Windows)");
    reveal_strlit("# BACKUP_BASE=/mnt/HDD4T/BACKUP");
    reveal_strlit("");
    reveal_strlit("# ── Extra directories to back up (comma-separated, relative to ~/) ──");
    reveal_strlit("# Default: empty (no extra dirs)");
    reveal_strlit("# BACKUP_EXTRA_DIRS=");
    reveal_strlit("");
    reveal_strlit("# ── Android FTP backup (IP of phone running CX File Explorer) ──");
    reveal_strlit("# Default: skipped (SMS/contacts still back up)");
    reveal_strlit("# ANDROID_FTP_HOST=");
    reveal_strlit("# Default: 2121");
    reveal_strlit("# ANDROID_FTP_PORT=2121");
    reveal_strlit("# Default: ftp");
    reveal_strlit("# ANDROID_FTP_USER=ftp");
    reveal_strlit("# Default: 0000");
    reveal_strlit("# ANDROID_FTP_PASS=0000");
    reveal_strlit("");
    reveal_strlit("# ── Mihon manga backup path ──");
    reveal_strlit("# Default: /mnt/HDD4T/Mihon (Linux) or D:\\Mihon (Windows)");
    reveal_strlit("# MIHON_PATH=/mnt/HDD4T/Mihon");
    reveal_strlit("# ── Active user overrides ──");
    assert forall|i: int| 0 <= i < template_spec().len() implies config_entry(#[trigger] template_spec()[i]) is None
        && plain_line(template_spec()[i]) by {
        let l = template_spec()[i];
        assert(l.len() == 0 || l[0] == '#');
        assert(free_of(l, '\n'));
        lemma_trim_idempotent(l);
        crate::text::lemma_trim_start(l);
        if l.len() > 0 {
            assert(trim_start_keeps_first(l));
        }
    }
    let h = overrides_heading();
    assert(h[0] == '#');
    assert(trim_start_keeps_first(h));
}

/// A line that starts with a non-whitespace character keeps it after trimming.
pub open spec fn trim_start_keeps_first(l: Seq<char>) -> bool {
    l.len() > 0 && !crate::text::is_ws(l[0]) ==> trim(l).len() > 0 && trim(l)[0] == l[0]
}

/// Whether a trimmed line is a setting to keep: not blank, not a comment,
/// and holding `=`.
pub open spec fn active(t: Seq<char>) -> bool {
    t.len() > 0 && t[0] != '#' && index_of(t, '=') < t.len()
}

/// The settings lines of a file, trimmed, in order.
pub open spec fn active_lines(ls: Seq<Seq<char>>) -> Seq<Seq<char>>
    decreases ls.len(),
{
    if ls.len() == 0 {
        seq![]
    } else {
        let p = active_lines(ls.drop_last());
        let t = trim(ls.last());
        if active(t) {
            p.push(t)
        } else {
            p
        }
    }
}

/// The lines of the file given to the editor: the template, then, when the
/// old file had settings, a blank line, a heading and those settings.
pub open spec fn config_file_lines(existing: Seq<char>) -> Seq<Seq<char>> {
    let a = active_lines(lines(existing));
    if a.len() > 0 {
        template_spec() + seq![seq![], overrides_heading()] + a
    } else {
        template_spec()
    }
}

/// The text of the file given to the editor, keeping the settings of the
/// old file (its text, or empty when there was none).
pub fn render_config(existing: &str) -> (r: String)
    ensures
        r@ == terminated(config_file_lines(existing@)),
{
    let tl = template_lines();
    let ls = lines_of(existing);
    let ghost lv = ls.deep_view();
    let mut active_v: Vec<String> = Vec::new();
    let mut j: usize = 0;
    assert(lv.take(0) =~= Seq::<Seq<char>>::empty());
    assert(active_v.deep_view() =~= Seq::<Seq<char>>::empty());
    while j < ls.len()
        invariant
            j <= ls@.len(),
            lv == ls.deep_view(),
            active_v.deep_view() == active_lines(lv.take(j as int)),
        decreases ls@.len() - j,
    {
        let v = chars_of(ls[j].as_str());
        let (a, b) = trim_bounds(&v, 0, v.len());
        assert(v@.subrange(0, v@.len() as int) =~= v@);
        assert(lv.take(j + 1).drop_last() =~= lv.take(j as int));
        let ghost t = trim(lv[j as int]);
        if a < b && v[a] != '#' && find_char(&v, a, b, '=') < b {
            assert(t =~= v@.subrange(a as int, b as int));
            let s = string_of(&v, a, b);
            let ghost before = active_v.deep_view();
            active_v.push(s);
            assert(active_v.deep_view() =~= before.push(t));
        }
        j = j + 1;
    }
    assert(lv.take(ls@.len() as int) =~= lv);
    let ghost all = config_file_lines(existing@);
    let mut r = String::new();
    let mut i: usize = 0;
    let ghost tv = tl@.map_values(|s: &str| s@);
    assert(all.take(0) =~= Seq::<Seq<char>>::empty());
    while i < tl.len()
        invariant
            i <= tl@.len(),
            tv == tl@.map_values(|s: &str| s@),
            tv == template_spec(),
            all == config_file_lines(existing@),
            r@ == terminated(all.take(i as int)),
        decreases tl@.len() - i,
    {
        let ghost before = r@;
        push_str(&mut r, tl[i]);
        push_char(&mut r, '\n');
        proof {
            assert(all[i as int] == tv[i as int]);
            assert(all.take(i + 1).drop_last() =~= all.take(i as int));
            assert(r@ =~= before + all[i as int].push('\n'));
        }
        i = i + 1;
    }
    if active_v.len() > 0 {
        let ghost before = r@;
        push_str(&mut r, "\n# ── Active user overrides ──\n");
        proof {
            reveal_strlit("\n# ── Active user overrides ──\n");
            reveal_strlit("# ── Active user overrides ──");
            let n = template_spec().len() as int;
            assert(tv.len() == n);
            assert(before == terminated(all.take(n)));
            assert("\n# ── Active user overrides ──\n"@ =~= seq!['\n'] + overrides_heading().push('\n'));
            assert(all.take(n + 1).drop_last() =~= all.take(n));
            assert(all.take(n + 2).drop_last() =~= all.take(n + 1));
            assert(all[n] =~= Seq::<char>::empty());
            assert(all[n + 1] == overrides_heading());
            assert(terminated(all.take(n + 1)) == terminated(all.take(n)) + all[n].push('\n'));
            assert(terminated(all.take(n + 2)) == terminated(all.take(n + 1)) + all[n + 1].push('\n'));
            assert(all[n].push('\n') =~= seq!['\n']);
            assert(r@ =~= terminated(all.take(n + 2)));
        }
        let mut k: usize = 0;
        while k < active_v.len()
            invariant
                k <= active_v@.len(),
                active_v.deep_view().len() > 0,
                all == config_file_lines(existing@),
                all == template_spec() + seq![seq![], overrides_heading()] + active_v.deep_view(),
                r@ == terminated(all.take(template_spec().len() + 2 + k)),
            decreases active_v@.len() - k,
        {
            let ghost before = r@;
            push_str(&mut r, active_v[k].as_str());
            push_char(&mut r, '\n');
            proof {
                let m = template_spec().len() + 2 + k;
                assert(all[m] == active_v.deep_view()[k as int]);
                assert(all.take(m + 1).drop_last() =~= all.take(m));
                assert(r@ =~= before + all[m].push('\n'));
            }
            k = k + 1;
        }
        assert(all.take(all.len() as int) =~= all);
    } else {
        assert(all.take(all.len() as int) =~= all);
    }
    r
}

/// Entries of joined line sequences are the joined entries.
proof fn lemma_config_entries_append(x: Seq<Seq<char>>, y: Seq<Seq<char>>)
    ensures
        config_entries(x + y) == config_entries(x) + config_entries(y),
    decreases y.len(),
{
    if y.len() == 0 {
        assert(x + y =~= x);
        assert(config_entries(x) + config_entries(y) =~= config_entries(x));
    } else {
        lemma_config_entries_append(x, y.drop_last());
        assert((x + y).drop_last() =~= x + y.drop_last());
        assert((x + y).last() == y.last());
        match config_entry(y.last()) {
            Some(e) => {
                assert(config_entries(x + y) =~= config_entries(x) + config_entries(y));
            },
            None => {},
        }
    }
}

/// Lines without a setting add nothing.
proof fn lemma_config_entries_none(x: Seq<Seq<char>>)
    requires
        forall|i: int| 0 <= i < x.len() ==> config_entry(#[trigger] x[i]) is None,
    ensures
        config_entries(x) == Seq::<(Seq<char>, Seq<char>)>::empty(),
    decreases x.len(),
{
    if x.len() > 0 {
        assert forall|i: int| 0 <= i < x.len() - 1 implies config_entry(#[trigger] x.drop_last()[i]) is None by {
            assert(x.drop_last()[i] == x[i]);
        }
        lemma_config_entries_none(x.drop_last());
        assert(config_entry(x[x.len() - 1]) is None);
    }
}

/// Keeping only the trimmed settings lines keeps the settings.
proof fn lemma_active_entries(ls: Seq<Seq<char>>)
    ensures
        config_entries(active_lines(ls)) == config_entries(ls),
    decreases ls.len(),
{
    if ls.len() > 0 {
        let p = ls.drop_last();
        let l = ls.last();
        let t = trim(l);
        lemma_active_entries(p);
        lemma_trim_idempotent(l);
        assert(config_entry(t) == config_entry(l));
        if active(t) {
            let a = active_lines(p).push(t);
            assert(a.drop_last() =~= active_lines(p));
            assert(config_entry(t) is Some);
        } else {
            assert(config_entry(l) is None);
        }
    }
}

/// The active lines are trimmed lines of the file, so plain.
proof fn lemma_active_plain(ls: Seq<Seq<char>>)
    requires
        forall|i: int| 0 <= i < ls.len() ==> free_of(#[trigger] ls[i], '\n'),
    ensures
        forall|i: int| 0 <= i < active_lines(ls).len() ==> plain_line(#[trigger] active_lines(ls)[i]),
    decreases ls.len(),
{
    if ls.len() > 0 {
        let p = ls.drop_last();
        assert forall|i: int| 0 <= i < p.len() implies free_of(#[trigger] p[i], '\n') by {
            assert(p[i] == ls[i]);
        }
        lemma_active_plain(p);
        lemma_trim_plain(ls.last());
        let ap = active_lines(p);
        assert forall|i: int| 0 <= i < active_lines(ls).len() implies plain_line(
            #[trigger] active_lines(ls)[i],
        ) by {
            if i < ap.len() {
                assert(active_lines(ls)[i] == ap[i]);
            }
        }
    }
}

/// Editing keeps the settings: the file given to the editor holds exactly
/// the settings of the file it replaces.
pub proof fn law_edit_keeps_settings(existing: Seq<char>)
    ensures
        user_config_of(terminated(config_file_lines(existing))) == user_config_of(existing),
{
    let ls = lines(existing);
    let a = active_lines(ls);
    lemma_template();
    lemma_lines_free(existing);
    lemma_active_plain(ls);
    lemma_active_entries(ls);
    let all = config_file_lines(existing);
    let t = template_spec();
    assert forall|i: int| 0 <= i < all.len() implies plain_line(#[trigger] all[i]) by {
        if i >= t.len() + 2 {
            assert(all[i] == a[i - t.len() - 2]);
        } else if i == t.len() {
            assert(all[i] =~= Seq::<char>::empty());
        }
    }
    lemma_lines_terminated(all);
    lemma_config_entries_none(t);
    if a.len() > 0 {
        let h = seq![seq![], overrides_heading()];
        assert forall|i: int| 0 <= i < h.len() implies config_entry(#[trigger] h[i]) is None by {
            if i == 0 {
                assert(trim(h[0]) =~= Seq::<char>::empty());
            }
        }
        lemma_config_entries_none(h);
        lemma_config_entries_append(t, h);
        lemma_config_entries_append(t + h, a);
        assert(config_entries(all) =~= config_entries(a));
    }
}

/// A line without a setting is not kept as a setting.
proof fn lemma_inactive(l: Seq<char>)
    requires
        config_entry(l) is None,
    ensures
        !active(trim(l)),
{
    lemma_trim_idempotent(l);
    let t = trim(l);
    assert(config_entry(t) == config_entry(l));
    if active(t) {
        assert(config_entry(t) is Some);
    }
}

/// The settings lines of joined line sequences are the joined settings lines.
proof fn lemma_active_append(x: Seq<Seq<char>>, y: Seq<Seq<char>>)
    ensures
        active_lines(x + y) == active_lines(x) + active_lines(y),
    decreases y.len(),
{
    if y.len() == 0 {
        assert(x + y =~= x);
        assert(active_lines(x) + active_lines(y) =~= active_lines(x));
    } else {
        lemma_active_append(x, y.drop_last());
        assert((x + y).drop_last() =~= x + y.drop_last());
        assert((x + y).last() == y.last());
        assert(active_lines(x + y) =~= active_lines(x) + active_lines(y));
    }
}

/// Lines without a setting hold no settings lines.
proof fn lemma_active_none(x: Seq<Seq<char>>)
    requires
        forall|i: int| 0 <= i < x.len() ==> config_entry(#[trigger] x[i]) is None,
    ensures
        active_lines(x) == Seq::<Seq<char>>::empty(),
    decreases x.len(),
{
    if x.len() > 0 {
        assert forall|i: int| 0 <= i < x.len() - 1 implies config_entry(#[trigger] x.drop_last()[i]) is None by {
            assert(x.drop_last()[i] == x[i]);
        }
        lemma_active_none(x.drop_last());
        lemma_inactive(x.last());
    }
}

/// The settings lines are trimmed settings lines.
proof fn lemma_active_trimmed(ls: Seq<Seq<char>>)
    ensures
        forall|i: int| 0 <= i < active_lines(ls).len() ==> trim(#[trigger] active_lines(ls)[i]) == active_lines(ls)[i]
            && active(active_lines(ls)[i]),
    decreases ls.len(),
{
    if ls.len() > 0 {
        let p = ls.drop_last();
        lemma_active_trimmed(p);
        lemma_trim_idempotent(ls.last());
        let ap = active_lines(p);
        assert forall|i: int| 0 <= i < active_lines(ls).len() implies trim(#[trigger] active_lines(ls)[i])
            == active_lines(ls)[i] && active(active_lines(ls)[i]) by {
            if i < ap.len() {
                assert(active_lines(ls)[i] == ap[i]);
            }
        }
    }
}

/// Trimmed settings lines are their own settings lines.
proof fn lemma_active_fixed(a: Seq<Seq<char>>)
    requires
        forall|i: int| 0 <= i < a.len() ==> trim(#[trigger] a[i]) == a[i] && active(a[i]),
    ensures
        active_lines(a) == a,
    decreases a.len(),
{
    if a.len() > 0 {
        assert forall|i: int| 0 <= i < a.len() - 1 implies trim(#[trigger] a.drop_last()[i]) == a.drop_last()[i]
            && active(a.drop_last()[i]) by {
            assert(a.drop_last()[i] == a[i]);
        }
        lemma_active_fixed(a.drop_last());
        assert(trim(a[a.len() - 1]) == a[a.len() - 1]);
        assert(active_lines(a) =~= a);
    }
}

/// Editing twice writes the same text: the file written for the editor,
/// read back and written again without changes, is the same text.
pub proof fn law_edit_twice_same(existing: Seq<char>)
    ensures
        terminated(config_file_lines(terminated(config_file_lines(existing)))) == terminated(
            config_file_lines(existing),
        ),
{
    let ls = lines(existing);
    let a = active_lines(ls);
    let all = config_file_lines(existing);
    let t = template_spec();
    lemma_template();
    lemma_lines_free(existing);
    lemma_active_plain(ls);
    lemma_active_trimmed(ls);
    assert forall|i: int| 0 <= i < all.len() implies plain_line(#[trigger] all[i]) by {
        if i >= t.len() + 2 {
            assert(all[i] == a[i - t.len() - 2]);
        } else if i == t.len() {
            assert(all[i] =~= Seq::<char>::empty());
        }
    }
    lemma_lines_terminated(all);
    lemma_active_none(t);
    if a.len() > 0 {
        let h = seq![seq![], overrides_heading()];
        assert forall|i: int| 0 <= i < h.len() implies config_entry(#[trigger] h[i]) is None by {
            if i == 0 {
                assert(trim(h[0]) =~= Seq::<char>::empty());
            }
        }
        lemma_active_none(h);
        lemma_active_fixed(a);
        lemma_active_append(t, h);
        lemma_active_append(t + h, a);
        assert(active_lines(all) =~= a);
    } else {
        assert(all == t);
    }
}

// ---------------------------------------------------------------------------
// Editor and browser profiles
// ---------------------------------------------------------------------------

/// The editors tried, in order, when neither `EDITOR` nor `VISUAL` is set.
pub open spec fn editor_candidates_spec() -> Seq<Seq<char>> {
    seq!["nvim"@, "vim"@, "nano"@]
}

/// The editors tried, in order, when neither `EDITOR` nor `VISUAL` is set.
pub fn editor_candidates() -> (r: Vec<String>)
    ensures
        r.deep_view() == editor_candidates_spec(),
{
    let v = vec![owned("nvim"), owned("vim"), owned("nano")];
    assert(v.deep_view() =~= editor_candidates_spec());
    v
}

/// The first candidate found on the path, if any.
pub open spec fn first_found(found: Seq<bool>, n: int) -> int
    decreases n - 0,
{
    if n <= 0 {
        -1
    } else if first_found(found, n - 1) >= 0 {
        first_found(found, n - 1)
    } else if found[n - 1] {
        n - 1
    } else {
        -1
    }
}

/// The editor to launch: `EDITOR`, else `VISUAL`, else the first of nvim,
/// vim and nano found on the path (`found[i]` for candidate `i`), else nano.
pub fn choose_editor(editor: Option<String>, visual: Option<String>, found: &Vec<bool>) -> (r: String)
    requires
        found@.len() == 3,
    ensures
        editor matches Some(e) ==> r@ == e@,
        editor is None && visual is Some ==> r@ == visual->0@,
        editor is None && visual is None ==> r@ == (if first_found(found@, 3) >= 0 {
            editor_candidates_spec()[first_found(found@, 3)]
        } else {
            "nano"@
        }),
{
    match editor {
        Some(e) => e,
        None => match visual {
            Some(v) => v,
            None => {
                let c = editor_candidates();
                assert(c.deep_view().len() == 3);
                assert(c@.len() == 3);
                let mut i: usize = 0;
                while i < 3
                    invariant
                        i <= 3,
                        found@.len() == 3,
                        c.deep_view() == editor_candidates_spec(),
                        c@.len() == 3,
                        editor is None,
                        visual is None,
                        first_found(found@, i as int) == -1,
                    decreases 3 - i,
                {
                    if found[i] {
                        assert(first_found(found@, i + 1) == i);
                        assert(first_found(found@, 2) >= 0 ==> first_found(found@, 3) == first_found(found@, 2));
                        assert(first_found(found@, 3) == i) by {
                            if i == 0 {
                                assert(first_found(found@, 2) == 0);
                            } else if i == 1 {
                                assert(first_found(found@, 2) == 1);
                            }
                        }
                        assert(c.deep_view()[i as int] == c@[i as int]@);
                        return c[i].clone();
                    }
                    i = i + 1;
                }
                owned("nano")
            },
        },
    }
}

/// A browser's profile folder (relative to the home folder) and the name it
/// is saved under.
pub open spec fn browsers_spec(platform: Platform) -> Seq<(Seq<char>, Seq<char>)> {
    if platform == Platform::Windows {
        seq![
            ("AppData\\Roaming\\Mozilla"@, "mozilla"@),
            ("AppData\\Local\\Chromium\\User Data"@, "chromium"@),
            ("AppData\\Local\\Google\\Chrome\\User Data"@, "google-chrome"@),
            ("AppData\\Local\\BraveSoftware\\Brave-Browser\\User Data"@, "BraveSoftware"@),
        ]
    } else {
        seq![
            (".mozilla"@, "mozilla"@),
            (".config/chromium"@, "chromium"@),
            (".config/google-chrome"@, "google-chrome"@),
            (".config/BraveSoftware"@, "BraveSoftware"@),
        ]
    }
}

/// The browser profiles of the platform: (folder under home, saved name).
pub fn browsers(platform: Platform) -> (r: Vec<(String, String)>)
    ensures
        r@.map_values(|p: (String, String)| (p.0@, p.1@)) == browsers_spec(platform),
{
    let v = if platform == Platform::Windows {
        vec![
            (owned("AppData\\Roaming\\Mozilla"), owned("mozilla")),
            (owned("AppData\\Local\\Chromium\\User Data"), owned("chromium")),
            (owned("AppData\\Local\\Google\\Chrome\\User Data"), owned("google-chrome")),
            (owned("AppData\\Local\\BraveSoftware\\Brave-Browser\\User Data"), owned("BraveSoftware")),
        ]
    } else {
        vec![
            (owned(".mozilla"), owned("mozilla")),
            (owned(".config/chromium"), owned("chromium")),
            (owned(".config/google-chrome"), owned("google-chrome")),
            (owned(".config/BraveSoftware"), owned("BraveSoftware")),
        ]
    };
    assert(v@.map_values(|p: (String, String)| (p.0@, p.1@)) =~= browsers_spec(platform));
    v
}


// ---------------------------------------------------------------------------
// What is left out of copies
// ---------------------------------------------------------------------------

/// Folder names skipped inside any copied profile: caches that rebuild themselves.
pub open spec fn cache_excludes_spec() -> Seq<Seq<char>> {
    seq![
        "Cache"@,
        "cache"@,
        "Caches"@,
        "Crash Reports"@,
        "crashpad"@
    ]
}

/// Folder names skipped inside any copied profile: caches that rebuild themselves.
pub fn cache_excludes() -> (r: Vec<String>)
    ensures
        r.deep_view() == cache_excludes_spec(),
{
    let v = vec![
        owned("Cache"),
        owned("cache"),
        owned("Caches"),
        owned("Crash Reports"),
        owned("crashpad")
    ];
    assert(v.deep_view() =~= cache_excludes_spec());
    v
}

/// What the home-folder copy leaves out: caches, trash, build output, package stores, virtual machines, games and backup files.
pub open spec fn home_excludes_spec() -> Seq<Seq<char>> {
    seq![
        ".cache/"@,
        ".local/share/Trash/"@,
        ".thumbnails/"@,
        "*__pycache__/"@,
        "*.pyc"@,
        "node_modules/"@,
        "target/"@,
        ".next/"@,
        "snap/"@,
        ".local/share/flatpak/"@,
        ".npm/"@,
        ".cargo/"@,
        ".rustup/"@,
        ".gradle/"@,
        ".m2/"@,
        "VirtualBox VMs/"@,
        ".vagrant.d/"@,
        "Cache/"@,
        "Code Cache/"@,
        "GPUCache/"@,
        "Caches/"@,
        "Games/"@,
        "*~"@,
        "*.bak"@,
        "*.swp"@
    ]
}

/// What the home-folder copy leaves out: caches, trash, build output, package stores, virtual machines, games and backup files.
pub fn home_excludes() -> (r: Vec<String>)
    ensures
        r.deep_view() == home_excludes_spec(),
{
    let v = vec![
        owned(".cache/"),
        owned(".local/share/Trash/"),
        owned(".thumbnails/"),
        owned("*__pycache__/"),
        owned("*.pyc"),
        owned("node_modules/"),
        owned("target/"),
        owned(".next/"),
        owned("snap/"),
        owned(".local/share/flatpak/"),
        owned(".npm/"),
        owned(".cargo/"),
        owned(".rustup/"),
        owned(".gradle/"),
        owned(".m2/"),
        owned("VirtualBox VMs/"),
        owned(".vagrant.d/"),
        owned("Cache/"),
        owned("Code Cache/"),
        owned("GPUCache/"),
        owned("Caches/"),
        owned("Games/"),
        owned("*~"),
        owned("*.bak"),
        owned("*.swp")
    ];
    assert(v.deep_view() =~= home_excludes_spec());
    v
}

/// What the `~/.config` copy leaves out: trash, sessions, temporary files, logs, browser profiles (copied on their own) and large application data.
pub open spec fn config_excludes_spec() -> Seq<Seq<char>> {
    seq![
        "Trash"@,
        "trash"@,
        "Session"@,
        "sessions"@,
        "tmp"@,
        "temp"@,
        "thumbnails"@,
        "thumbcache"@,
        "logs"@,
        "Logs"@,
        "node_modules/"@,
        "*.bak"@,
        "*~"@,
        "google-chrome/"@,
        "chromium/"@,
        "BraveSoftware/"@,
        "mozilla/"@,
        "firefox/"@,
        "librewolf/"@,
        "Code/"@,
        "Code - OSS/"@,
        "VSCodium/"@,
        "discord/"@,
        "Slack/"@,
        "spotify/"@,
        "vesktop/"@,
        "Vesktop/"@
    ]
}

/// What the `~/.config` copy leaves out: trash, sessions, temporary files, logs, browser profiles (copied on their own) and large application data.
pub fn config_excludes() -> (r: Vec<String>)
    ensures
        r.deep_view() == config_excludes_spec(),
{
    let v = vec![
        owned("Trash"),
        owned("trash"),
        owned("Session"),
        owned("sessions"),
        owned("tmp"),
        owned("temp"),
        owned("thumbnails"),
        owned("thumbcache"),
        owned("logs"),
        owned("Logs"),
        owned("node_modules/"),
        owned("*.bak"),
        owned("*~"),
        owned("google-chrome/"),
        owned("chromium/"),
        owned("BraveSoftware/"),
        owned("mozilla/"),
        owned("firefox/"),
        owned("librewolf/"),
        owned("Code/"),
        owned("Code - OSS/"),
        owned("VSCodium/"),
        owned("discord/"),
        owned("Slack/"),
        owned("spotify/"),
        owned("vesktop/"),
        owned("Vesktop/")
    ];
    assert(v.deep_view() =~= config_excludes_spec());
    v
}

/// Rendering caches and other temporary data skipped inside browser profiles.
pub open spec fn browser_excludes_spec() -> Seq<Seq<char>> {
    seq![
        "GPUCache"@,
        "Code Cache"@,
        "Dictionaries"@,
        "Safe Browsing"@
    ]
}

/// Rendering caches and other temporary data skipped inside browser profiles.
pub fn browser_excludes() -> (r: Vec<String>)
    ensures
        r.deep_view() == browser_excludes_spec(),
{
    let v = vec![
        owned("GPUCache"),
        owned("Code Cache"),
        owned("Dictionaries"),
        owned("Safe Browsing")
    ];
    assert(v.deep_view() =~= browser_excludes_spec());
    v
}

/// Folders the disk-usage estimate ignores.
pub open spec fn gdu_ignore_dirs_spec() -> Seq<Seq<char>> {
    seq![
        ".cache"@,
        "node_modules"@,
        "target"@,
        ".next"@,
        "snap"@,
        ".npm"@,
        ".cargo"@,
        ".rustup"@,
        ".gradle"@,
        ".m2"@,
        "VirtualBox VMs"@,
        ".vagrant.d"@,
        ".thumbnails"@,
        "flatpak"@,
        "Trash"@,
        "Cache"@,
        "Code Cache"@,
        "GPUCache"@,
        "Caches"@
    ]
}

/// Folders the disk-usage estimate ignores.
pub fn gdu_ignore_dirs() -> (r: Vec<String>)
    ensures
        r.deep_view() == gdu_ignore_dirs_spec(),
{
    let v = vec![
        owned(".cache"),
        owned("node_modules"),
        owned("target"),
        owned(".next"),
        owned("snap"),
        owned(".npm"),
        owned(".cargo"),
        owned(".rustup"),
        owned(".gradle"),
        owned(".m2"),
        owned("VirtualBox VMs"),
        owned(".vagrant.d"),
        owned(".thumbnails"),
        owned("flatpak"),
        owned("Trash"),
        owned("Cache"),
        owned("Code Cache"),
        owned("GPUCache"),
        owned("Caches")
    ];
    assert(v.deep_view() =~= gdu_ignore_dirs_spec());
    v
}

/// The folders under home whose size the estimate adds up.
pub open spec fn gdu_scan_dirs_spec() -> Seq<Seq<char>> {
    seq![
        "Documents"@,
        "Pictures"@,
        "Music"@,
        "Videos"@,
        "Downloads"@,
        "Desktop"@,
        "Projects"@,
        "Templates"@,
        "Public"@,
        "Games"@,
        ".local"@,
        ".fonts"@,
        ".themes"@,
        ".icons"@
    ]
}

/// The folders under home whose size the estimate adds up.
pub fn gdu_scan_dirs() -> (r: Vec<String>)
    ensures
        r.deep_view() == gdu_scan_dirs_spec(),
{
    let v = vec![
        owned("Documents"),
        owned("Pictures"),
        owned("Music"),
        owned("Videos"),
        owned("Downloads"),
        owned("Desktop"),
        owned("Projects"),
        owned("Templates"),
        owned("Public"),
        owned("Games"),
        owned(".local"),
        owned(".fonts"),
        owned(".themes"),
        owned(".icons")
    ];
    assert(v.deep_view() =~= gdu_scan_dirs_spec());
    v
}

/// The system folder holding the virtual machines' definitions.
pub open spec fn vm_qemu_src() -> Seq<char> {
    "/etc/libvirt/qemu"@
}

/// The system folder holding the virtual machines' disk images.
pub open spec fn vm_images_src() -> Seq<char> {
    "/var/lib/libvirt/images"@
}

/// Where the virtual machines' definitions are kept: `VM_QEMU_SRC` if set,
/// else `/etc/libvirt/qemu`.
pub fn vm_qemu_path(cfg: &UserConfig) -> (r: String)
    requires
        cfg.wf(),
    ensures
        r@ == setting_or(cfg.map(), "VM_QEMU_SRC"@, vm_qemu_src()),
{
    setting_or_default(cfg, "VM_QEMU_SRC", "/etc/libvirt/qemu")
}

/// Where the virtual machines' disk images are kept: `VM_IMAGES_SRC` if
/// set, else `/var/lib/libvirt/images`.
pub fn vm_images_path(cfg: &UserConfig) -> (r: String)
    requires
        cfg.wf(),
    ensures
        r@ == setting_or(cfg.map(), "VM_IMAGES_SRC"@, vm_images_src()),
{
    setting_or_default(cfg, "VM_IMAGES_SRC", "/var/lib/libvirt/images")
}

} // verus!
