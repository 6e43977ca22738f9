//! Terminal colours, the log target, command lines for the copy tool, size
//! formatting and the detection of the backup path and the drive type.
use vstd::prelude::*;
use crate::config::Platform;
use crate::text::{
    cat2, chars_of, contains, contains_str, decimal, index_of, lemma_index_of, lowercase, occurs_at, owned,
    push_char, push_decimal, push_str, starts_with, starts_with_str, to_lowercase,
};
use crate::order::str_eq;

verus! {

// ---------------------------------------------------------------------------
// Removing colour codes before logging
// ---------------------------------------------------------------------------

/// `s` without its ANSI escape sequences: an escape character followed by
/// `[` is dropped together with everything up to and including the next
/// `m`; an escape character followed by anything else is dropped together
/// with that one character.
pub open spec fn strip_ansi_spec(s: Seq<char>) -> Seq<char>
    decreases s.len(),
{
    if s.len() == 0 {
        seq![]
    } else if s[0] == '\u{1b}' {
        if s.len() >= 2 && s[1] == '[' {
            let rest = s.skip(2);
            let k = index_of(rest, 'm');
            proof {
                lemma_index_of(rest, 'm');
            }
            if k < rest.len() {
                strip_ansi_spec(rest.skip(k + 1))
            } else {
                seq![]
            }
        } else if s.len() >= 2 {
            strip_ansi_spec(s.skip(2))
        } else {
            seq![]
        }
    } else {
        seq![s[0]] + strip_ansi_spec(s.drop_first())
    }
}

/// What is left of a message after removing its colour codes holds no
/// escape character, and removing them again changes nothing.
pub proof fn law_strip_ansi_clean(s: Seq<char>)
    ensures
        !strip_ansi_spec(s).contains('\u{1b}'),
        strip_ansi_spec(strip_ansi_spec(s)) == strip_ansi_spec(s),
    decreases s.len(),
{
    lemma_strip_ansi_no_escape(s);
    lemma_strip_ansi_plain(strip_ansi_spec(s));
}

/// `a` is a subsequence of `b`: its characters occur in `b` in order.
pub open spec fn is_subsequence(a: Seq<char>, b: Seq<char>) -> bool
    decreases b.len(),
{
    if a.len() == 0 {
        true
    } else if b.len() == 0 {
        false
    } else if a[0] == b[0] {
        is_subsequence(a.drop_first(), b.drop_first())
    } else {
        is_subsequence(a, b.drop_first())
    }
}

/// A subsequence of the tail is a subsequence of the whole.
proof fn lemma_subseq_extend(a: Seq<char>, b: Seq<char>)
    requires
        b.len() > 0,
        is_subsequence(a, b.drop_first()),
    ensures
        is_subsequence(a, b),
    decreases b.len(), 1int,
{
    let c = b.drop_first();
    if a.len() > 0 && a[0] == b[0] {
        if a[0] == c[0] {
            lemma_subseq_extend(a.drop_first(), c);
        } else {
            lemma_subseq_tail(a, c.drop_first());
            lemma_subseq_extend(a.drop_first(), c);
        }
    }
}

/// Dropping the first character keeps a subsequence.
proof fn lemma_subseq_tail(a: Seq<char>, d: Seq<char>)
    requires
        a.len() > 0,
        is_subsequence(a, d),
    ensures
        is_subsequence(a.drop_first(), d),
    decreases d.len(), 2int,
{
    if a[0] == d[0] {
        lemma_subseq_extend(a.drop_first(), d);
    } else {
        lemma_subseq_tail(a, d.drop_first());
        lemma_subseq_extend(a.drop_first(), d);
    }
}

/// A subsequence of a suffix is a subsequence of the whole.
proof fn lemma_subseq_skip(a: Seq<char>, b: Seq<char>, k: int)
    requires
        0 <= k <= b.len(),
        is_subsequence(a, b.skip(k)),
    ensures
        is_subsequence(a, b),
    decreases k,
{
    if k == 0 {
        assert(b.skip(0) =~= b);
    } else {
        assert(b.drop_first().skip(k - 1) =~= b.skip(k));
        lemma_subseq_skip(a, b.drop_first(), k - 1);
        lemma_subseq_extend(a, b);
    }
}

/// What is left after removing colour codes is a subsequence of the text.
pub proof fn law_strip_ansi_keeps_order(s: Seq<char>)
    ensures
        is_subsequence(strip_ansi_spec(s), s),
    decreases s.len(),
{
    if s.len() == 0 {
    } else if s[0] == '\u{1b}' {
        if s.len() >= 2 && s[1] == '[' {
            let rest = s.skip(2);
            let k = index_of(rest, 'm');
            lemma_index_of(rest, 'm');
            if k < rest.len() {
                law_strip_ansi_keeps_order(rest.skip(k + 1));
                assert(rest.skip(k + 1) =~= s.skip(k + 3));
                lemma_subseq_skip(strip_ansi_spec(s), s, k + 3);
            }
        } else if s.len() >= 2 {
            law_strip_ansi_keeps_order(s.skip(2));
            lemma_subseq_skip(strip_ansi_spec(s), s, 2);
        }
    } else {
        law_strip_ansi_keeps_order(s.drop_first());
        let t = strip_ansi_spec(s.drop_first());
        assert((seq![s[0]] + t)[0] == s[0]);
        assert((seq![s[0]] + t).drop_first() =~= t);
    }
}

proof fn lemma_strip_ansi_no_escape(s: Seq<char>)
    ensures
        !strip_ansi_spec(s).contains('\u{1b}'),
    decreases s.len(),
{
    if s.len() == 0 {
    } else if s[0] == '\u{1b}' {
        if s.len() >= 2 && s[1] == '[' {
            let rest = s.skip(2);
            let k = index_of(rest, 'm');
            lemma_index_of(rest, 'm');
            if k < rest.len() {
                lemma_strip_ansi_no_escape(rest.skip(k + 1));
            }
        } else if s.len() >= 2 {
            lemma_strip_ansi_no_escape(s.skip(2));
        }
    } else {
        lemma_strip_ansi_no_escape(s.drop_first());
        let t = strip_ansi_spec(s.drop_first());
        assert forall|i: int| 0 <= i < (seq![s[0]] + t).len() implies (seq![s[0]] + t)[i] != '\u{1b}' by {
            if i > 0 {
                assert((seq![s[0]] + t)[i] == t[i - 1]);
            }
        }
    }
}

proof fn lemma_strip_ansi_plain(s: Seq<char>)
    requires
        !s.contains('\u{1b}'),
    ensures
        strip_ansi_spec(s) == s,
    decreases s.len(),
{
    if s.len() > 0 {
        assert(s[0] != '\u{1b}') by {
            if s[0] == '\u{1b}' {
                assert(s.contains(s[0]));
            }
        }
        assert(!s.drop_first().contains('\u{1b}')) by {
            if s.drop_first().contains('\u{1b}') {
                let i = choose|i: int| 0 <= i < s.drop_first().len() && s.drop_first()[i] == '\u{1b}';
                assert(s[i + 1] == '\u{1b}');
            }
        }
        lemma_strip_ansi_plain(s.drop_first());
        assert(seq![s[0]] + s.drop_first() =~= s);
    }
}

/// Removes colour codes from a message before it goes to the log file.
pub fn strip_ansi(s: &str) -> (r: String)
    ensures
        r@ == strip_ansi_spec(s@),
{
    let v = chars_of(s);
    let n = v.len();
    let mut out = String::new();
    let mut i: usize = 0;
    assert(v@.skip(0) =~= v@);
    while i < n
        invariant
            n == v@.len(),
            v@ == s@,
            i <= n,
            strip_ansi_spec(s@) == out@ + strip_ansi_spec(v@.skip(i as int)),
        decreases n - i,
    {
        let ghost t = v@.skip(i as int);
        if v[i] == '\u{1b}' {
            if i + 1 < n && v[i + 1] == '[' {
                let mut j = i + 2;
                while j < n && v[j] != 'm'
                    invariant
                        i + 2 <= j <= n == v@.len(),
                        forall|q: int| i + 2 <= q < j ==> v@[q] != 'm',
                    decreases n - j,
                {
                    j = j + 1;
                }
                proof {
                    let rest = t.skip(2);
                    assert(rest =~= v@.skip(i + 2));
                    assert forall|q: int| 0 <= q < j - i - 2 implies rest[q] != 'm' by {
                        assert(rest[q] == v@[i + 2 + q]);
                    }
                    crate::text::lemma_index_of_at(rest, 'm', j - i - 2);
                    if j < n {
                        assert(rest.skip(j - i - 2 + 1) =~= v@.skip(j + 1));
                    } else {
                        assert(v@.skip(n as int) =~= Seq::<char>::empty());
                    }
                }
                if j < n {
                    i = j + 1;
                } else {
                    i = n;
                }
            } else if i + 1 < n {
                assert(t.skip(2) =~= v@.skip(i + 2));
                i = i + 2;
            } else {
                assert(v@.skip(n as int) =~= Seq::<char>::empty());
                i = n;
            }
        } else {
            let ghost before = out@;
            push_char(&mut out, v[i]);
            assert(t.drop_first() =~= v@.skip(i + 1));
            assert(before + (seq![v@[i as int]] + strip_ansi_spec(t.drop_first())) =~= out@
                + strip_ansi_spec(v@.skip(i + 1)));
            i = i + 1;
        }
    }
    assert(v@.skip(n as int) =~= Seq::<char>::empty());
    assert(out@ + Seq::<char>::empty() =~= out@);
    out
}

// ---------------------------------------------------------------------------
// Colours
// ---------------------------------------------------------------------------

/// Colours are turned off when `NO_COLOR` holds a non-empty value.
pub fn no_color(value: Option<&str>) -> (b: bool)
    ensures
        b == (value matches Some(v) && v@.len() > 0),
{
    match value {
        Some(v) => v.unicode_len() > 0,
        None => false,
    }
}

/// The escape codes used in messages: red, green, yellow, magenta, cyan,
/// bold white, bold, and the reset code.
pub struct Palette {
    pub r: String,
    pub g: String,
    pub y: String,
    pub m: String,
    pub c: String,
    pub w: String,
    pub bold: String,
    pub n: String,
}

/// The code, or nothing when colours are off.
pub open spec fn code(no_color: bool, c: Seq<char>) -> Seq<char> {
    if no_color {
        seq![]
    } else {
        c
    }
}

fn code_str(no_color: bool, c: &str) -> (r: String)
    ensures
        r@ == code(no_color, c@),
{
    if no_color {
        String::new()
    } else {
        owned(c)
    }
}

/// The colour codes, all empty when colours are off.
pub fn palette(no_color: bool) -> (p: Palette)
    ensures
        p.r@ == code(no_color, "\x1b[0;31m"@),
        p.g@ == code(no_color, "\x1b[0;32m"@),
        p.y@ == code(no_color, "\x1b[0;33m"@),
        p.m@ == code(no_color, "\x1b[0;35m"@),
        p.c@ == code(no_color, "\x1b[0;36m"@),
        p.w@ == code(no_color, "\x1b[1;37m"@),
        p.bold@ == code(no_color, "\x1b[1m"@),
        p.n@ == code(no_color, "\x1b[0m"@),
{
    Palette {
        r: code_str(no_color, "\x1b[0;31m"),
        g: code_str(no_color, "\x1b[0;32m"),
        y: code_str(no_color, "\x1b[0;33m"),
        m: code_str(no_color, "\x1b[0;35m"),
        c: code_str(no_color, "\x1b[0;36m"),
        w: code_str(no_color, "\x1b[1;37m"),
        bold: code_str(no_color, "\x1b[1m"),
        n: code_str(no_color, "\x1b[0m"),
    }
}

// ---------------------------------------------------------------------------
// The log file
// ---------------------------------------------------------------------------

/// Where log lines go, once it is set.
pub struct LogTarget {
    pub path: Option<String>,
}

/// Sets the log file; only the first setting counts.
pub fn init_log(log: &mut LogTarget, path: String)
    ensures
        old(log).path is Some ==> final(log).path == old(log).path,
        old(log).path is None ==> final(log).path == Some(path),
{
    if log.path.is_none() {
        log.path = Some(path);
    }
}

// ---------------------------------------------------------------------------
// The copy tool
// ---------------------------------------------------------------------------

/// The program that runs the copy: `sudo` when elevated, else `rclone`.
pub open spec fn copy_program(sudo: bool) -> Seq<char> {
    if sudo {
        "sudo"@
    } else {
        "rclone"@
    }
}

/// The arguments of `rclone copy` with live progress, `checkers` parallel
/// checks and transfers, and the extra arguments at the end; prefixed by
/// `rclone` when run through sudo.
pub open spec fn copy_args(
    src: Seq<char>,
    dst: Seq<char>,
    checkers: u32,
    sudo: bool,
    extra: Seq<Seq<char>>,
) -> Seq<Seq<char>> {
    (if sudo {
        seq!["rclone"@]
    } else {
        seq![]
    }) + seq![
        "copy"@,
        src,
        dst,
        "--progress"@,
        "--stats=1s"@,
        "--checkers="@ + decimal(checkers as nat),
        "--transfers="@ + decimal(checkers as nat),
    ] + extra
}

/// A program and its arguments.
pub struct CommandLine {
    pub program: String,
    pub args: Vec<String>,
}

/// The command that copies `src` to `dst` with progress shown.
pub fn copy_command(src: &str, dst: &str, checkers: u32, sudo: bool, extra: &Vec<String>) -> (c:
    CommandLine)
    ensures
        c.program@ == copy_program(sudo),
        c.args.deep_view() == copy_args(src@, dst@, checkers, sudo, extra.deep_view()),
{
    let program = if sudo {
        owned("sudo")
    } else {
        owned("rclone")
    };
    let mut args: Vec<String> = Vec::new();
    if sudo {
        args.push(owned("rclone"));
    }
    args.push(owned("copy"));
    args.push(owned(src));
    args.push(owned(dst));
    args.push(owned("--progress"));
    args.push(owned("--stats=1s"));
    let mut ck = owned("--checkers=");
    push_decimal(&mut ck, checkers as u64);
    args.push(ck);
    let mut tr = owned("--transfers=");
    push_decimal(&mut tr, checkers as u64);
    args.push(tr);
    let ghost head = args.deep_view();
    assert(head =~= (if sudo {
        seq!["rclone"@]
    } else {
        seq![]
    }) + seq![
        "copy"@,
        src@,
        dst@,
        "--progress"@,
        "--stats=1s"@,
        "--checkers="@ + decimal(checkers as nat),
        "--transfers="@ + decimal(checkers as nat),
    ]);
    let mut i: usize = 0;
    while i < extra.len()
        invariant
            i <= extra@.len(),
            args.deep_view() == head + extra.deep_view().take(i as int),
        decreases extra@.len() - i,
    {
        let ghost before = args.deep_view();
        args.push(extra[i].clone());
        assert(args.deep_view() =~= before.push(extra@[i as int]@));
        assert(extra.deep_view()[i as int] == extra@[i as int]@);
        assert(args.deep_view() =~= head + extra.deep_view().take(i + 1));
        i = i + 1;
    }
    assert(extra.deep_view().take(extra@.len() as int) =~= extra.deep_view());
    CommandLine { program, args }
}

/// `--exclude` before each pattern, in order.
pub open spec fn exclude_args(patterns: Seq<Seq<char>>) -> Seq<Seq<char>>
    decreases patterns.len(),
{
    if patterns.len() == 0 {
        seq![]
    } else {
        exclude_args(patterns.drop_last()) + seq!["--exclude"@, patterns.last()]
    }
}

/// Appends `--exclude pattern` for each pattern.
pub fn push_excludes(args: &mut Vec<String>, patterns: &Vec<String>)
    ensures
        final(args).deep_view() == old(args).deep_view() + exclude_args(patterns.deep_view()),
{
    let ghost start = args.deep_view();
    let mut i: usize = 0;
    assert(patterns.deep_view().take(0) =~= Seq::<Seq<char>>::empty());
    assert(args.deep_view() =~= start + exclude_args(patterns.deep_view().take(0)));
    while i < patterns.len()
        invariant
            i <= patterns@.len(),
            args.deep_view() == start + exclude_args(patterns.deep_view().take(i as int)),
        decreases patterns@.len() - i,
    {
        let ghost before = args.deep_view();
        args.push(owned("--exclude"));
        args.push(patterns[i].clone());
        proof {
            assert(args.deep_view() =~= before + seq!["--exclude"@, patterns@[i as int]@]);
            assert(patterns.deep_view()[i as int] == patterns@[i as int]@);
            let t = patterns.deep_view().take(i + 1);
            assert(t.drop_last() =~= patterns.deep_view().take(i as int));
            assert(args.deep_view() =~= start + exclude_args(t));
        }
        i = i + 1;
    }
    assert(patterns.deep_view().take(patterns@.len() as int) =~= patterns.deep_view());
}

// ---------------------------------------------------------------------------
// Sizes
// ---------------------------------------------------------------------------

/// The command that formats a byte count with binary prefixes.
pub fn fmt_command(size: u64) -> (r: String)
    ensures
        r@ == "numfmt --to=iec "@ + decimal(size as nat),
{
    let mut r = owned("numfmt --to=iec ");
    push_decimal(&mut r, size);
    r
}

/// A byte count for people: the formatter's (trimmed) output when it gave
/// any, else the whole mebibytes followed by ` MiB`.
pub fn fmt(size: u64, numfmt_output: &str) -> (r: String)
    ensures
        numfmt_output@.len() > 0 ==> r@ == numfmt_output@,
        numfmt_output@.len() == 0 ==> r@ == decimal((size / 1024 / 1024) as nat) + " MiB"@,
{
    if numfmt_output.unicode_len() > 0 {
        owned(numfmt_output)
    } else {
        let mut r = String::new();
        push_decimal(&mut r, size / 1024 / 1024);
        push_str(&mut r, " MiB");
        r
    }
}

// ---------------------------------------------------------------------------
// The backup path
// ---------------------------------------------------------------------------

/// The tag appended to the host name: `-` and the OS id, unless the OS id is
/// empty or already part of the host name (ignoring case).
pub open spec fn os_tag(host: Seq<char>, os_id: Seq<char>) -> Seq<char> {
    os_tag_lowered(os_id, lowercase(host), lowercase(os_id))
}

/// The tag appended to the host name, from the OS id and the lower-cased
/// host name and OS id: `-` and the OS id, unless the OS id is empty or the
/// lower-cased id occurs in the lower-cased host name.
pub open spec fn os_tag_lowered(os_id: Seq<char>, lower_host: Seq<char>, lower_id: Seq<char>) -> Seq<char> {
    if os_id.len() > 0 && !contains(lower_host, lower_id) {
        seq!['-'] + os_id
    } else {
        seq![]
    }
}

/// The tag appended to the host name, from the lower-cased names.
pub fn os_tag_of(os_id: &str, lower_host: &str, lower_id: &str) -> (r: String)
    ensures
        r@ == os_tag_lowered(os_id@, lower_host@, lower_id@),
{
    if os_id.unicode_len() > 0 && !contains_str(lower_host, lower_id) {
        let r = cat2("-", os_id);
        proof {
            reveal_strlit("-");
            assert(r@ =~= seq!['-'] + os_id@);
        }
        r
    } else {
        String::new()
    }
}

/// The host name, or `unknown` when `hostname` printed nothing.
pub open spec fn host_or_unknown(hostname_output: Seq<char>) -> Seq<char> {
    if hostname_output.len() == 0 {
        "unknown"@
    } else {
        hostname_output
    }
}

/// The backup destination: on Windows `base\host`; on Linux
/// `base/host` followed by the OS tag.
pub open spec fn detect_path_spec(
    base: Seq<char>,
    hostname_output: Seq<char>,
    platform: Platform,
    os_id_output: Seq<char>,
) -> Seq<char> {
    let host = host_or_unknown(hostname_output);
    if platform == Platform::Windows {
        base + "\\"@ + host
    } else {
        base + "/"@ + host + os_tag(host, os_id_output)
    }
}

/// The command that prints the short host name.
pub fn hostname_command() -> (r: &'static str)
    ensures
        r@ == "hostname -s"@,
{
    "hostname -s"
}

/// The command that prints the OS id from `/etc/os-release`.
pub fn os_id_command() -> (r: &'static str)
    ensures
        r@ == "grep -oP '(?<=^ID=).*' /etc/os-release | tr -d '\"'"@,
{
    "grep -oP '(?<=^ID=).*' /etc/os-release | tr -d '\"'"
}

/// The backup destination from the base folder, the (trimmed) output of the
/// host-name command and, on Linux, that of the OS-id command.
pub fn detect_path(base: &str, hostname_output: &str, platform: Platform, os_id_output: &str) -> (r:
    String)
    ensures
        r@ == detect_path_spec(base@, hostname_output@, platform, os_id_output@),
{
    let host = if hostname_output.unicode_len() == 0 {
        owned("unknown")
    } else {
        owned(hostname_output)
    };
    assert(host@ == host_or_unknown(hostname_output@));
    let mut r = owned(base);
    if platform == Platform::Windows {
        push_str(&mut r, "\\");
        push_str(&mut r, host.as_str());
        r
    } else {
        push_str(&mut r, "/");
        push_str(&mut r, host.as_str());
        let lh = to_lowercase(host.as_str());
        let lo = to_lowercase(os_id_output);
        let tag = os_tag_of(os_id_output, lh.as_str(), lo.as_str());
        push_str(&mut r, tag.as_str());
        r
    }
}

// ---------------------------------------------------------------------------
// The drive type
// ---------------------------------------------------------------------------

/// The `lsblk` command that prints one column of the device holding `path`.
pub fn lsblk_command(column: &str, path: &str) -> (r: String)
    ensures
        r@ == "lsblk -ndo "@ + column@ + " $(findmnt -T '"@ + path@ + "' -o SOURCE | tail -1) 2>/dev/null"@,
{
    let mut r = owned("lsblk -ndo ");
    push_str(&mut r, column);
    push_str(&mut r, " $(findmnt -T '");
    push_str(&mut r, path);
    push_str(&mut r, "' -o SOURCE | tail -1) 2>/dev/null");
    r
}

/// The number of parallel checks and transfers: 1 for a rotating disk (or
/// an unknown device), 16 for an NVMe drive, 8 for another SSD.
pub open spec fn checkers_for(rota_output: Seq<char>, pkname_output: Seq<char>) -> u32 {
    if rota_output == "0"@ {
        if starts_with(pkname_output, "nvme"@) {
            16
        } else {
            8
        }
    } else {
        1
    }
}

/// Whether the parent device's name is needed: only for a non-rotating disk.
pub fn needs_device_name(rota_output: &str) -> (b: bool)
    ensures
        b == (rota_output@ == "0"@),
{
    str_eq(rota_output, "0")
}

/// The number of parallel checks and transfers from the (trimmed) outputs
/// of `lsblk` for the rotational flag and the parent device name.
pub fn detect_checkers(rota_output: &str, pkname_output: &str) -> (n: u32)
    ensures
        n == checkers_for(rota_output@, pkname_output@),
        n == 1 || n == 8 || n == 16,
{
    if str_eq(rota_output, "0") {
        if starts_with_str(pkname_output, "nvme") {
            16
        } else {
            8
        }
    } else {
        1
    }
}

/// The kind of drive a number of checkers stands for.
pub fn checkers_kind(ck: u32) -> (r: &'static str)
    ensures
        r@ == (if ck <= 1 {
            "HDD"@
        } else if ck <= 8 {
            "SSD"@
        } else {
            "NVMe"@
        }),
{
    if ck <= 1 {
        "HDD"
    } else if ck <= 8 {
        "SSD"
    } else {
        "NVMe"
    }
}


// ---------------------------------------------------------------------------
// Installing the tools the program needs
// ---------------------------------------------------------------------------

/// A tool that can install programs on Windows.
#[derive(Clone, Copy, Debug, PartialEq, Eq, Structural)]
pub enum Installer {
    Winget,
    Choco,
}

/// Where the installer stands.
#[derive(Clone, Copy, Debug, PartialEq, Eq, Structural)]
pub enum InstallState {
    /// Nothing done yet.
    Start { windows: bool },
    /// Waiting for whether the copy tool is on the path.
    WinCheck,
    /// The copy tool is missing and the user has been told.
    WinMissing,
    /// Waiting for whether this installer is on the path.
    WinHasInstaller { installer: Installer, tried: bool },
    /// The user has been told that this installer runs.
    WinInstall { installer: Installer },
    /// The installer has run; the copy tool is looked for again.
    WinRecheck { installer: Installer },
    /// Waiting for whether the copy tool is now on the path.
    WinRechecked { installer: Installer },
    /// The user has been told how it ended.
    WinOver { ok: bool },
    /// Waiting for whether package manager `index` is on the path.
    LinuxManager { index: usize },
    /// No package manager was found and the user has been told.
    LinuxNoManager,
    /// Waiting for whether package `index` is on the path; `missing` so far.
    LinuxPackage { manager: usize, index: usize, m0: bool, m1: bool, m2: bool },
    /// Installing the missing packages from `next` on.
    LinuxInstall { manager: usize, next: usize, m0: bool, m1: bool, m2: bool },
    /// Finished.
    Done { ok: bool },
}

/// A message for the user.
#[derive(Clone, Copy, Debug, PartialEq, Eq, Structural)]
pub enum InstallNotice {
    /// The copy tool is not installed.
    RcloneNotFound,
    /// The copy tool is being installed with this installer.
    Installing(Installer),
    /// The copy tool was installed with this installer.
    Installed(Installer),
    /// No installer was found; where to get one.
    NoInstaller,
    /// The installers did not install it; how to do it by hand.
    InstallFailed,
    /// No known package manager was found.
    NoPackageManager,
    /// The missing packages are being installed.
    InstallingPackages,
}

/// What the caller is to do next.
pub enum InstallStep {
    /// Run the shell command and give back whether it succeeded.
    Probe(String),
    /// Run the shell command; its outcome does not matter.
    Run(String),
    /// Tell the user.
    Notice(InstallNotice),
    /// Stop: whether the tools are there or being installed.
    Finish(bool),
}

/// What the caller is to do next, with commands as character sequences.
pub enum StepView {
    Probe(Seq<char>),
    Run(Seq<char>),
    Notice(InstallNotice),
    Finish(bool),
}

/// The view of a step.
pub open spec fn step_view(s: InstallStep) -> StepView {
    match s {
        InstallStep::Probe(c) => StepView::Probe(c@),
        InstallStep::Run(c) => StepView::Run(c@),
        InstallStep::Notice(n) => StepView::Notice(n),
        InstallStep::Finish(b) => StepView::Finish(b),
    }
}

/// The Linux package managers, in the order they are looked for.
pub open spec fn manager_name(i: int) -> Seq<char> {
    if i == 0 {
        "pacman"@
    } else if i == 1 {
        "apt-get"@
    } else if i == 2 {
        "dnf"@
    } else if i == 3 {
        "zypper"@
    } else {
        "apk"@
    }
}

/// The install command of each package manager.
pub open spec fn manager_install(i: int) -> Seq<char> {
    if i == 0 {
        "sudo pacman -S --noconfirm"@
    } else if i == 1 {
        "sudo apt-get install -y"@
    } else if i == 2 {
        "sudo dnf install -y"@
    } else if i == 3 {
        "sudo zypper install -y"@
    } else {
        "sudo apk add"@
    }
}

/// The packages the program needs.
pub open spec fn package_name(i: int) -> Seq<char> {
    if i == 0 {
        "rclone"@
    } else if i == 1 {
        "gdu"@
    } else {
        "fzf"@
    }
}

/// The installer's command that installs the copy tool.
pub open spec fn installer_command(t: Installer) -> Seq<char> {
    match t {
        Installer::Winget => "winget install --id Rclone.Rclone --silent --accept-package-agreements --accept-source-agreements"@,
        Installer::Choco => "choco install rclone -y"@,
    }
}

/// The command that tests whether a Windows program is on the path.
pub open spec fn installer_probe(t: Installer) -> Seq<char> {
    match t {
        Installer::Winget => "where winget"@,
        Installer::Choco => "where choco"@,
    }
}

/// Whether package `i` is marked missing.
pub open spec fn is_missing(i: int, m0: bool, m1: bool, m2: bool) -> bool {
    if i == 0 {
        m0
    } else if i == 1 {
        m1
    } else {
        m2
    }
}

/// The first missing package at or after `next`, or 3.
pub open spec fn next_missing(next: int, m0: bool, m1: bool, m2: bool) -> int {
    if next <= 0 && m0 {
        0
    } else if next <= 1 && m1 {
        1
    } else if next <= 2 && m2 {
        2
    } else {
        3
    }
}

/// The transition of the installer: from a state and the answer to the last
/// probe (ignored after any other step), the next state and step.
pub open spec fn install_next(s: InstallState, answer: bool) -> (InstallState, StepView) {
    match s {
        InstallState::Start { windows } => if windows {
            (InstallState::WinCheck, StepView::Probe("where rclone"@))
        } else {
            (InstallState::LinuxManager { index: 0 }, StepView::Probe("which "@ + manager_name(0)))
        },
        InstallState::WinCheck => if answer {
            (InstallState::Done { ok: true }, StepView::Finish(true))
        } else {
            (InstallState::WinMissing, StepView::Notice(InstallNotice::RcloneNotFound))
        },
        InstallState::WinMissing => (
            InstallState::WinHasInstaller { installer: Installer::Winget, tried: false },
            StepView::Probe(installer_probe(Installer::Winget)),
        ),
        InstallState::WinHasInstaller { installer, tried } => if answer {
            (InstallState::WinInstall { installer }, StepView::Notice(InstallNotice::Installing(installer)))
        } else if installer == Installer::Winget {
            (
                InstallState::WinHasInstaller { installer: Installer::Choco, tried },
                StepView::Probe(installer_probe(Installer::Choco)),
            )
        } else {
            (
                InstallState::WinOver { ok: false },
                StepView::Notice(if tried {
                    InstallNotice::InstallFailed
                } else {
                    InstallNotice::NoInstaller
                }),
            )
        },
        InstallState::WinInstall { installer } => (
            InstallState::WinRecheck { installer },
            StepView::Run(installer_command(installer)),
        ),
        InstallState::WinRecheck { installer } => (
            InstallState::WinRechecked { installer },
            StepView::Probe("where rclone"@),
        ),
        InstallState::WinRechecked { installer } => if answer {
            (InstallState::WinOver { ok: true }, StepView::Notice(InstallNotice::Installed(installer)))
        } else if installer == Installer::Winget {
            (
                InstallState::WinHasInstaller { installer: Installer::Choco, tried: true },
                StepView::Probe(installer_probe(Installer::Choco)),
            )
        } else {
            (InstallState::WinOver { ok: false }, StepView::Notice(InstallNotice::InstallFailed))
        },
        InstallState::WinOver { ok } => (InstallState::Done { ok }, StepView::Finish(ok)),
        InstallState::LinuxManager { index } => if answer {
            (
                InstallState::LinuxPackage { manager: index, index: 0, m0: false, m1: false, m2: false },
                StepView::Probe("which "@ + package_name(0)),
            )
        } else if index + 1 < 5 {
            (
                InstallState::LinuxManager { index: (index + 1) as usize },
                StepView::Probe("which "@ + manager_name(index + 1)),
            )
        } else {
            (InstallState::LinuxNoManager, StepView::Notice(InstallNotice::NoPackageManager))
        },
        InstallState::LinuxNoManager => (InstallState::Done { ok: false }, StepView::Finish(false)),
        InstallState::LinuxPackage { manager, index, m0, m1, m2 } => {
            let n0 = m0 || (index == 0 && !answer);
            let n1 = m1 || (index == 1 && !answer);
            let n2 = m2 || (index >= 2 && !answer);
            if index + 1 < 3 {
                (
                    InstallState::LinuxPackage { manager, index: (index + 1) as usize, m0: n0, m1: n1, m2: n2 },
                    StepView::Probe("which "@ + package_name(index + 1)),
                )
            } else if !n0 && !n1 && !n2 {
                (InstallState::Done { ok: true }, StepView::Finish(true))
            } else {
                (
                    InstallState::LinuxInstall { manager, next: 0, m0: n0, m1: n1, m2: n2 },
                    StepView::Notice(InstallNotice::InstallingPackages),
                )
            }
        },
        InstallState::LinuxInstall { manager, next, m0, m1, m2 } => {
            let k = next_missing(next as int, m0, m1, m2);
            if k < 3 {
                (
                    InstallState::LinuxInstall { manager, next: (k + 1) as usize, m0, m1, m2 },
                    StepView::Run(manager_install(manager as int) + " "@ + package_name(k)),
                )
            } else {
                (InstallState::Done { ok: true }, StepView::Finish(true))
            }
        },
        InstallState::Done { ok } => (InstallState::Done { ok }, StepView::Finish(ok)),
    }
}

/// Whether a state is well formed: indices in range.
pub open spec fn install_state_ok(s: InstallState) -> bool {
    match s {
        InstallState::LinuxManager { index } => index < 5,
        InstallState::LinuxPackage { manager, index, .. } => manager < 5 && index < 3,
        InstallState::LinuxInstall { manager, next, .. } => manager < 5 && next <= 3,
        _ => true,
    }
}

/// How far a state is from the end: every step from a state that is not
/// `Done` lowers it.
pub open spec fn install_rank(s: InstallState) -> nat {
    match s {
        InstallState::Start { .. } => 30,
        InstallState::WinCheck => 20,
        InstallState::WinMissing => 19,
        InstallState::WinHasInstaller { installer, .. } => if installer == Installer::Winget {
            18
        } else {
            14
        },
        InstallState::WinInstall { installer } => if installer == Installer::Winget {
            17
        } else {
            13
        },
        InstallState::WinRecheck { installer } => if installer == Installer::Winget {
            16
        } else {
            12
        },
        InstallState::WinRechecked { installer } => if installer == Installer::Winget {
            15
        } else {
            11
        },
        InstallState::WinOver { .. } => 1,
        InstallState::LinuxManager { index } => (29 - index) as nat,
        InstallState::LinuxNoManager => 1,
        InstallState::LinuxPackage { index, .. } => (10 - index) as nat,
        InstallState::LinuxInstall { next, .. } => (5 - next) as nat,
        InstallState::Done { .. } => 0,
    }
}

/// The installer always finishes: whatever the probes answer, each step
/// from a state that is not `Done` leads to a well-formed state of lower
/// rank, so from the start `Done` is reached within thirty steps; and once
/// `Done`, it stays there and says to stop.
pub proof fn law_install_finishes(s: InstallState, answer: bool)
    requires
        install_state_ok(s),
    ensures
        install_state_ok(install_next(s, answer).0),
        !(s is Done) ==> install_rank(install_next(s, answer).0) < install_rank(s),
        install_rank(s) <= 30,
        s matches InstallState::Done { ok } ==> install_next(s, answer) == (s, StepView::Finish(ok)),
{
    if let InstallState::LinuxInstall { manager, next, m0, m1, m2 } = s {
        let k = next_missing(next as int, m0, m1, m2);
        assert(k >= next || k == 3);
    }
}

/// The answer handed to the installer after step `st`: the next of
/// `answers` after a probe (not found when there is none left), else none.
pub open spec fn next_answer(st: StepView, answers: Seq<bool>) -> bool {
    if st is Probe && answers.len() > 0 {
        answers[0]
    } else {
        false
    }
}

/// The answers left after step `st`.
pub open spec fn rest_answers(st: StepView, answers: Seq<bool>) -> Seq<bool> {
    if st is Probe && answers.len() > 0 {
        answers.drop_first()
    } else {
        answers
    }
}

/// The steps the installer takes from state `s`, when the last probe was
/// answered `answer` and the probes after it are answered by `answers` in
/// order (missing answers count as "not found"), for at most `fuel` steps.
pub open spec fn install_trace(s: InstallState, answer: bool, answers: Seq<bool>, fuel: nat) -> Seq<StepView>
    decreases fuel,
{
    if fuel == 0 {
        seq![]
    } else {
        let (n, st) = install_next(s, answer);
        if st is Finish {
            seq![st]
        } else {
            seq![st] + install_trace(n, next_answer(st, answers), rest_answers(st, answers), (fuel - 1) as nat)
        }
    }
}

/// The command a step runs, if any.
pub open spec fn step_runs(st: StepView) -> Seq<Seq<char>> {
    match st {
        StepView::Run(c) => seq![c],
        _ => seq![],
    }
}

/// The commands that a sequence of steps runs, in order.
pub open spec fn runs(t: Seq<StepView>) -> Seq<Seq<char>>
    decreases t.len(),
{
    if t.len() == 0 {
        seq![]
    } else {
        step_runs(t[0]) + runs(t.drop_first())
    }
}

/// The install command of package `k` with manager `m`, unless the package
/// was found.
pub open spec fn install_if_missing(m: int, k: int, found: bool) -> Seq<Seq<char>> {
    if found {
        seq![]
    } else {
        seq![manager_install(m) + " "@ + package_name(k)]
    }
}

/// The install commands of the missing packages from `next` on.
pub open spec fn installs_from(m: int, next: int, m0: bool, m1: bool, m2: bool) -> Seq<Seq<char>> {
    (if next <= 0 {
        install_if_missing(m, 0, !m0)
    } else {
        seq![]
    }) + (if next <= 1 {
        install_if_missing(m, 1, !m1)
    } else {
        seq![]
    }) + (if next <= 2 {
        install_if_missing(m, 2, !m2)
    } else {
        seq![]
    })
}

/// The probe answers on Linux when manager `m` is the first one found and the
/// three packages are found or not.
pub open spec fn linux_answers(m: int, p0: bool, p1: bool, p2: bool) -> Seq<bool> {
    Seq::new(m as nat, |i: int| false) + seq![true, p0, p1, p2]
}

/// One step that does not finish: its command, then the rest of the trace.
proof fn lemma_trace_step(s: InstallState, a: bool, answers: Seq<bool>, fuel: nat)
    requires
        fuel >= 2,
        !(install_next(s, a).1 is Finish),
    ensures
        ({
            let (n, st) = install_next(s, a);
            let t2 = install_trace(n, next_answer(st, answers), rest_answers(st, answers), (fuel - 1) as nat);
            &&& runs(install_trace(s, a, answers, fuel)) == step_runs(st) + runs(t2)
            &&& install_trace(s, a, answers, fuel).last() == t2.last()
        }),
{
    let (n, st) = install_next(s, a);
    let t2 = install_trace(n, next_answer(st, answers), rest_answers(st, answers), (fuel - 1) as nat);
    let t = install_trace(s, a, answers, fuel);
    assert(t == seq![st] + t2);
    assert(t2.len() > 0);
    assert(t.drop_first() =~= t2);
    assert(t[0] == st);
}

/// A finishing step runs nothing and ends the trace.
proof fn lemma_trace_finish(s: InstallState, a: bool, answers: Seq<bool>, fuel: nat)
    requires
        fuel >= 1,
        install_next(s, a).1 is Finish,
    ensures
        runs(install_trace(s, a, answers, fuel)) == Seq::<Seq<char>>::empty(),
        install_trace(s, a, answers, fuel).last() == install_next(s, a).1,
{
    let t = install_trace(s, a, answers, fuel);
    assert(t == seq![install_next(s, a).1]);
    assert(t.drop_first() =~= Seq::<StepView>::empty());
    assert(runs(t.drop_first()) == Seq::<Seq<char>>::empty());
    assert(step_runs(t[0]) =~= Seq::<Seq<char>>::empty());
    assert(runs(t) =~= Seq::<Seq<char>>::empty());
}

/// From the install state, the missing packages are installed in order.
proof fn lemma_trace_install(m: usize, next: usize, m0: bool, m1: bool, m2: bool, fuel: nat)
    requires
        m < 5,
        next <= 3,
        fuel >= 5 - next,
    ensures
        runs(install_trace(InstallState::LinuxInstall { manager: m, next, m0, m1, m2 }, false, seq![], fuel))
            == installs_from(m as int, next as int, m0, m1, m2),
        install_trace(InstallState::LinuxInstall { manager: m, next, m0, m1, m2 }, false, seq![], fuel).last()
            == StepView::Finish(true),
    decreases 3 - next,
{
    let s = InstallState::LinuxInstall { manager: m, next, m0, m1, m2 };
    let k = next_missing(next as int, m0, m1, m2);
    if k < 3 {
        lemma_trace_step(s, false, seq![], fuel);
        let st = install_next(s, false).1;
        assert(next_answer(st, seq![]) == false);
        assert(rest_answers(st, seq![]) == Seq::<bool>::empty());
        lemma_trace_install(m, (k + 1) as usize, m0, m1, m2, (fuel - 1) as nat);
        assert(installs_from(m as int, next as int, m0, m1, m2) =~= seq![manager_install(m as int) + " "@
            + package_name(k)] + installs_from(m as int, k + 1, m0, m1, m2));
    } else {
        lemma_trace_finish(s, false, seq![], fuel);
        assert(installs_from(m as int, next as int, m0, m1, m2) =~= Seq::<Seq<char>>::empty());
    }
}

/// From the first package probe, the packages not found are installed.
proof fn lemma_trace_packages(m: usize, p0: bool, p1: bool, p2: bool, fuel: nat)
    requires
        m < 5,
        fuel >= 10,
    ensures
        runs(install_trace(
            InstallState::LinuxPackage { manager: m, index: 0, m0: false, m1: false, m2: false },
            p0,
            seq![p1, p2],
            fuel,
        )) == install_if_missing(m as int, 0, p0) + install_if_missing(m as int, 1, p1) + install_if_missing(
            m as int,
            2,
            p2,
        ),
        install_trace(
            InstallState::LinuxPackage { manager: m, index: 0, m0: false, m1: false, m2: false },
            p0,
            seq![p1, p2],
            fuel,
        ).last() == StepView::Finish(true),
{
    let e = install_if_missing(m as int, 0, p0) + install_if_missing(m as int, 1, p1) + install_if_missing(
        m as int,
        2,
        p2,
    );
    let s0 = InstallState::LinuxPackage { manager: m, index: 0, m0: false, m1: false, m2: false };
    lemma_trace_step(s0, p0, seq![p1, p2], fuel);
    assert(seq![p1, p2].drop_first() =~= seq![p2]);
    let s1 = InstallState::LinuxPackage { manager: m, index: 1, m0: !p0, m1: false, m2: false };
    lemma_trace_step(s1, p1, seq![p2], (fuel - 1) as nat);
    assert(seq![p2].drop_first() =~= Seq::<bool>::empty());
    let s2 = InstallState::LinuxPackage { manager: m, index: 2, m0: !p0, m1: !p1, m2: false };
    if p0 && p1 && p2 {
        lemma_trace_finish(s2, p2, seq![], (fuel - 2) as nat);
        assert(e =~= Seq::<Seq<char>>::empty());
    } else {
        lemma_trace_step(s2, p2, seq![], (fuel - 2) as nat);
        lemma_trace_install(m, 0, !p0, !p1, !p2, (fuel - 3) as nat);
        assert(installs_from(m as int, 0, !p0, !p1, !p2) =~= e);
    }
}

/// From manager probe `j`, the first manager found is `m`.
proof fn lemma_trace_managers(j: usize, m: usize, p0: bool, p1: bool, p2: bool, fuel: nat)
    requires
        j <= m < 5,
        fuel >= 12 + m - j,
    ensures
        ({
            let ans = linux_answers(m as int, p0, p1, p2);
            let t = install_trace(InstallState::LinuxManager { index: j }, ans[j as int], ans.skip(j + 1), fuel);
            &&& runs(t) == install_if_missing(m as int, 0, p0) + install_if_missing(m as int, 1, p1)
                + install_if_missing(m as int, 2, p2)
            &&& t.last() == StepView::Finish(true)
        }),
    decreases m - j,
{
    let ans = linux_answers(m as int, p0, p1, p2);
    let s = InstallState::LinuxManager { index: j };
    assert(ans.len() == m + 4);
    assert(ans[m as int] == true);
    if j == m {
        lemma_trace_step(s, true, ans.skip(j + 1), fuel);
        assert(ans.skip(j + 1) =~= seq![p0, p1, p2]);
        assert(seq![p0, p1, p2].drop_first() =~= seq![p1, p2]);
        lemma_trace_packages(m, p0, p1, p2, (fuel - 1) as nat);
    } else {
        assert(ans[j as int] == false);
        lemma_trace_step(s, false, ans.skip(j + 1), fuel);
        assert(ans.skip(j + 1)[0] == ans[j + 1]);
        assert(ans.skip(j + 1).drop_first() =~= ans.skip(j + 2));
        lemma_trace_managers((j + 1) as usize, m, p0, p1, p2, (fuel - 1) as nat);
    }
}

/// On Linux the installer runs exactly the install command of each needed
/// package that was not found, in order, with the first package manager
/// found; then it finishes successfully.
pub proof fn law_linux_installs_missing(m: usize, p0: bool, p1: bool, p2: bool)
    requires
        m < 5,
    ensures
        runs(install_trace(InstallState::Start { windows: false }, false, linux_answers(m as int, p0, p1, p2), 20))
            == install_if_missing(m as int, 0, p0) + install_if_missing(m as int, 1, p1) + install_if_missing(
            m as int,
            2,
            p2,
        ),
        install_trace(InstallState::Start { windows: false }, false, linux_answers(m as int, p0, p1, p2), 20).last()
            == StepView::Finish(true),
{
    let ans = linux_answers(m as int, p0, p1, p2);
    lemma_trace_step(InstallState::Start { windows: false }, false, ans, 20);
    assert(ans.len() == m + 4);
    assert(ans.drop_first() =~= ans.skip(1));
    lemma_trace_managers(0, m, p0, p1, p2, 19);
}

/// On Windows, when the copy tool is missing and winget is found, the
/// installer runs winget's install command and nothing else, and finishes
/// successfully exactly when the copy tool is then found; when the copy
/// tool is already there it runs nothing and finishes successfully.
pub proof fn law_windows_installs_with_winget(installed: bool)
    ensures
        runs(install_trace(InstallState::Start { windows: true }, false, seq![false, true, installed], 20))
            == seq![installer_command(Installer::Winget)],
        install_trace(InstallState::Start { windows: true }, false, seq![false, true, installed], 20).last()
            == StepView::Finish(installed),
        runs(install_trace(InstallState::Start { windows: true }, false, seq![true], 20)) == Seq::<Seq<char>>::empty(),
        install_trace(InstallState::Start { windows: true }, false, seq![true], 20).last() == StepView::Finish(true),
{
    let a3 = seq![false, true, installed];
    let a2 = seq![true, installed];
    let a1 = seq![installed];
    let a0 = Seq::<bool>::empty();
    assert(a3.drop_first() =~= a2);
    assert(a2.drop_first() =~= a1);
    assert(a1.drop_first() =~= a0);
    lemma_trace_step(InstallState::Start { windows: true }, false, a3, 20);
    lemma_trace_step(InstallState::WinCheck, false, a2, 19);
    lemma_trace_step(InstallState::WinMissing, false, a2, 18);
    lemma_trace_step(InstallState::WinHasInstaller { installer: Installer::Winget, tried: false }, true, a1, 17);
    lemma_trace_step(InstallState::WinInstall { installer: Installer::Winget }, false, a1, 16);
    lemma_trace_step(InstallState::WinRecheck { installer: Installer::Winget }, false, a1, 15);
    if installed {
        lemma_trace_step(InstallState::WinRechecked { installer: Installer::Winget }, true, a0, 14);
        lemma_trace_finish(InstallState::WinOver { ok: true }, false, a0, 13);
    } else {
        lemma_trace_step(InstallState::WinRechecked { installer: Installer::Winget }, false, a0, 14);
        lemma_trace_step(InstallState::WinHasInstaller { installer: Installer::Choco, tried: true }, false, a0, 13);
        lemma_trace_finish(InstallState::WinOver { ok: false }, false, a0, 12);
    }
    let b1 = seq![true];
    assert(b1.drop_first() =~= a0);
    lemma_trace_step(InstallState::Start { windows: true }, false, b1, 20);
    lemma_trace_finish(InstallState::WinCheck, true, a0, 19);
}

/// On Windows, when the copy tool is missing and winget is not found but
/// choco is, the installer runs choco's install command and nothing else,
/// and finishes successfully exactly when the copy tool is then found; when
/// winget is found but its install leaves the copy tool missing, choco is
/// tried next in the same way, after winget's command.
pub proof fn law_windows_installs_with_choco(installed: bool)
    ensures
        runs(install_trace(InstallState::Start { windows: true }, false, seq![false, false, true, installed], 20))
            == seq![installer_command(Installer::Choco)],
        install_trace(InstallState::Start { windows: true }, false, seq![false, false, true, installed], 20).last()
            == StepView::Finish(installed),
        runs(install_trace(InstallState::Start { windows: true }, false, seq![false, true, false, true, installed], 20))
            == seq![installer_command(Installer::Winget), installer_command(Installer::Choco)],
        install_trace(InstallState::Start { windows: true }, false, seq![false, true, false, true, installed], 20).last()
            == StepView::Finish(installed),
{
    let a4 = seq![false, false, true, installed];
    let a3 = seq![false, true, installed];
    let a2 = seq![true, installed];
    let a1 = seq![installed];
    let a0 = Seq::<bool>::empty();
    assert(a4.drop_first() =~= a3);
    assert(a3.drop_first() =~= a2);
    assert(a2.drop_first() =~= a1);
    assert(a1.drop_first() =~= a0);
    let choco_has = InstallState::WinHasInstaller { installer: Installer::Choco, tried: false };
    lemma_trace_step(InstallState::Start { windows: true }, false, a4, 20);
    lemma_trace_step(InstallState::WinCheck, false, a3, 19);
    lemma_trace_step(InstallState::WinMissing, false, a3, 18);
    lemma_trace_step(InstallState::WinHasInstaller { installer: Installer::Winget, tried: false }, false, a2, 17);
    lemma_trace_choco(choco_has, a1, installed, 16);
    let b5 = seq![false, true, false, true, installed];
    let b4 = seq![true, false, true, installed];
    let b3 = seq![false, true, installed];
    assert(b5.drop_first() =~= b4);
    assert(b4.drop_first() =~= b3);
    lemma_trace_step(InstallState::Start { windows: true }, false, b5, 20);
    lemma_trace_step(InstallState::WinCheck, false, b4, 19);
    lemma_trace_step(InstallState::WinMissing, false, b4, 18);
    lemma_trace_step(InstallState::WinHasInstaller { installer: Installer::Winget, tried: false }, true, b3, 17);
    lemma_trace_step(InstallState::WinInstall { installer: Installer::Winget }, false, b3, 16);
    lemma_trace_step(InstallState::WinRecheck { installer: Installer::Winget }, false, b3, 15);
    lemma_trace_step(InstallState::WinRechecked { installer: Installer::Winget }, false, a2, 14);
    lemma_trace_choco(InstallState::WinHasInstaller { installer: Installer::Choco, tried: true }, a1, installed, 13);
    assert(seq![installer_command(Installer::Winget)] + seq![installer_command(Installer::Choco)] =~= seq![
        installer_command(Installer::Winget),
        installer_command(Installer::Choco),
    ]);
}

/// From choco found: its install command runs, and the run ends by whether
/// the copy tool is then found.
proof fn lemma_trace_choco(s: InstallState, a1: Seq<bool>, installed: bool, fuel: nat)
    requires
        s matches InstallState::WinHasInstaller { installer, .. } && installer == Installer::Choco,
        a1 == seq![installed],
        fuel >= 8,
    ensures
        runs(install_trace(s, true, a1, fuel)) == seq![installer_command(Installer::Choco)],
        install_trace(s, true, a1, fuel).last() == StepView::Finish(installed),
{
    let a0 = Seq::<bool>::empty();
    assert(a1.drop_first() =~= a0);
    let c = Installer::Choco;
    lemma_trace_step(s, true, a1, fuel);
    lemma_trace_step(InstallState::WinInstall { installer: c }, false, a1, (fuel - 1) as nat);
    lemma_trace_step(InstallState::WinRecheck { installer: c }, false, a1, (fuel - 2) as nat);
    if installed {
        lemma_trace_step(InstallState::WinRechecked { installer: c }, true, a0, (fuel - 3) as nat);
        lemma_trace_finish(InstallState::WinOver { ok: true }, false, a0, (fuel - 4) as nat);
    } else {
        lemma_trace_step(InstallState::WinRechecked { installer: c }, false, a0, (fuel - 3) as nat);
        lemma_trace_finish(InstallState::WinOver { ok: false }, false, a0, (fuel - 4) as nat);
    }
    assert(Seq::<Seq<char>>::empty() + (seq![installer_command(c)] + (Seq::<Seq<char>>::empty()
        + Seq::<Seq<char>>::empty())) =~= seq![installer_command(c)]);
}

/// The host-name tag is left out exactly when the OS id is empty or its
/// lower-cased form occurs somewhere in the lower-cased host name; otherwise
/// it is `-` followed by the OS id as given.
pub proof fn law_os_tag_substring(os_id: Seq<char>, lower_host: Seq<char>, lower_id: Seq<char>)
    ensures
        os_id.len() == 0 ==> os_tag_lowered(os_id, lower_host, lower_id) == Seq::<char>::empty(),
        os_id.len() > 0 ==> (os_tag_lowered(os_id, lower_host, lower_id) == Seq::<char>::empty() <==> exists|k: int|
            0 <= k && k + lower_id.len() <= lower_host.len() && #[trigger] lower_host.subrange(k, k + lower_id.len())
                == lower_id),
        os_id.len() > 0 && !(exists|k: int|
            0 <= k && k + lower_id.len() <= lower_host.len() && #[trigger] lower_host.subrange(k, k + lower_id.len())
                == lower_id) ==> os_tag_lowered(os_id, lower_host, lower_id) == seq!['-'] + os_id,
{
    if exists|k: int|
        0 <= k && k + lower_id.len() <= lower_host.len() && #[trigger] lower_host.subrange(k, k + lower_id.len())
            == lower_id {
        let k = choose|k: int|
            0 <= k && k + lower_id.len() <= lower_host.len() && #[trigger] lower_host.subrange(k, k + lower_id.len())
                == lower_id;
        assert(occurs_at(lower_host, lower_id, k));
    }
    if contains(lower_host, lower_id) {
        let k = choose|k: int| occurs_at(lower_host, lower_id, k);
        assert(lower_host.subrange(k, k + lower_id.len()) == lower_id);
    }
    if os_id.len() > 0 {
        assert((seq!['-'] + os_id).len() > 0);
    }
}

fn manager_name_str(i: usize) -> (r: &'static str)
    requires
        i < 5,
    ensures
        r@ == manager_name(i as int),
{
    if i == 0 {
        "pacman"
    } else if i == 1 {
        "apt-get"
    } else if i == 2 {
        "dnf"
    } else if i == 3 {
        "zypper"
    } else {
        "apk"
    }
}

fn manager_install_str(i: usize) -> (r: &'static str)
    requires
        i < 5,
    ensures
        r@ == manager_install(i as int),
{
    if i == 0 {
        "sudo pacman -S --noconfirm"
    } else if i == 1 {
        "sudo apt-get install -y"
    } else if i == 2 {
        "sudo dnf install -y"
    } else if i == 3 {
        "sudo zypper install -y"
    } else {
        "sudo apk add"
    }
}

fn package_name_str(i: usize) -> (r: &'static str)
    requires
        i < 3,
    ensures
        r@ == package_name(i as int),
{
    if i == 0 {
        "rclone"
    } else if i == 1 {
        "gdu"
    } else {
        "fzf"
    }
}

fn which(name: &str) -> (r: String)
    ensures
        r@ == "which "@ + name@,
{
    let mut r = owned("which ");
    push_str(&mut r, name);
    r
}

fn probe_installer(t: Installer) -> (r: String)
    ensures
        r@ == installer_probe(t),
{
    match t {
        Installer::Winget => owned("where winget"),
        Installer::Choco => owned("where choco"),
    }
}

/// The packages marked missing, in order, separated by spaces, as the
/// message about installing them lists them.
pub fn missing_packages(m0: bool, m1: bool, m2: bool) -> (r: Vec<&'static str>)
    ensures
        r@.map_values(|s: &str| s@) == Seq::new(3, |i: int| i).filter(
            |i: int| is_missing(i, m0, m1, m2),
        ).map_values(|i: int| package_name(i)),
{
    let mut v: Vec<&'static str> = Vec::new();
    if m0 {
        v.push("rclone");
    }
    if m1 {
        v.push("gdu");
    }
    if m2 {
        v.push("fzf");
    }
    proof {
        let idx = Seq::new(3, |i: int| i);
        let f = |i: int| is_missing(i, m0, m1, m2);
        reveal_with_fuel(Seq::<_>::filter, 4);
        assert(idx.take(0) =~= Seq::<int>::empty());
        assert(idx.take(1).drop_last() =~= idx.take(0));
        assert(idx.take(2).drop_last() =~= idx.take(1));
        assert(idx.take(3).drop_last() =~= idx.take(2));
        assert(idx.take(3) =~= idx);
        assert(v@.map_values(|s: &str| s@) =~= idx.filter(f).map_values(|i: int| package_name(i)));
    }
    v
}

/// One step of installing the tools the program needs: the copy tool on
/// Windows (through winget, else choco), the copy tool, disk-usage tool and
/// fuzzy finder on Linux (through the first package manager found).
/// `answer` is whether the command of the last `Probe` step succeeded.
pub fn install_deps(state: InstallState, answer: bool) -> (r: (InstallState, InstallStep))
    requires
        install_state_ok(state),
    ensures
        (r.0, step_view(r.1)) == install_next(state, answer),
        install_state_ok(r.0),
{
    match state {
        InstallState::Start { windows } => if windows {
            (InstallState::WinCheck, InstallStep::Probe(owned("where rclone")))
        } else {
            (InstallState::LinuxManager { index: 0 }, InstallStep::Probe(which(manager_name_str(0))))
        },
        InstallState::WinCheck => if answer {
            (InstallState::Done { ok: true }, InstallStep::Finish(true))
        } else {
            (InstallState::WinMissing, InstallStep::Notice(InstallNotice::RcloneNotFound))
        },
        InstallState::WinMissing => (
            InstallState::WinHasInstaller { installer: Installer::Winget, tried: false },
            InstallStep::Probe(probe_installer(Installer::Winget)),
        ),
        InstallState::WinHasInstaller { installer, tried } => if answer {
            (InstallState::WinInstall { installer }, InstallStep::Notice(InstallNotice::Installing(installer)))
        } else if installer == Installer::Winget {
            (
                InstallState::WinHasInstaller { installer: Installer::Choco, tried },
                InstallStep::Probe(probe_installer(Installer::Choco)),
            )
        } else {
            (
                InstallState::WinOver { ok: false },
                InstallStep::Notice(if tried {
                    InstallNotice::InstallFailed
                } else {
                    InstallNotice::NoInstaller
                }),
            )
        },
        InstallState::WinInstall { installer } => {
            let c = match installer {
                Installer::Winget => owned(
                    "winget install --id Rclone.Rclone --silent --accept-package-agreements --accept-source-agreements",
                ),
                Installer::Choco => owned("choco install rclone -y"),
            };
            (InstallState::WinRecheck { installer }, InstallStep::Run(c))
        },
        InstallState::WinRecheck { installer } => (
            InstallState::WinRechecked { installer },
            InstallStep::Probe(owned("where rclone")),
        ),
        InstallState::WinRechecked { installer } => if answer {
            (InstallState::WinOver { ok: true }, InstallStep::Notice(InstallNotice::Installed(installer)))
        } else if installer == Installer::Winget {
            (
                InstallState::WinHasInstaller { installer: Installer::Choco, tried: true },
                InstallStep::Probe(probe_installer(Installer::Choco)),
            )
        } else {
            (InstallState::WinOver { ok: false }, InstallStep::Notice(InstallNotice::InstallFailed))
        },
        InstallState::WinOver { ok } => (InstallState::Done { ok }, InstallStep::Finish(ok)),
        InstallState::LinuxManager { index } => if answer {
            (
                InstallState::LinuxPackage { manager: index, index: 0, m0: false, m1: false, m2: false },
                InstallStep::Probe(which(package_name_str(0))),
            )
        } else if index + 1 < 5 {
            (
                InstallState::LinuxManager { index: index + 1 },
                InstallStep::Probe(which(manager_name_str(index + 1))),
            )
        } else {
            (InstallState::LinuxNoManager, InstallStep::Notice(InstallNotice::NoPackageManager))
        },
        InstallState::LinuxNoManager => (InstallState::Done { ok: false }, InstallStep::Finish(false)),
        InstallState::LinuxPackage { manager, index, m0, m1, m2 } => {
            let n0 = m0 || (index == 0 && !answer);
            let n1 = m1 || (index == 1 && !answer);
            let n2 = m2 || (index >= 2 && !answer);
            if index + 1 < 3 {
                (
                    InstallState::LinuxPackage { manager, index: index + 1, m0: n0, m1: n1, m2: n2 },
                    InstallStep::Probe(which(package_name_str(index + 1))),
                )
            } else if !n0 && !n1 && !n2 {
                (InstallState::Done { ok: true }, InstallStep::Finish(true))
            } else {
                (
                    InstallState::LinuxInstall { manager, next: 0, m0: n0, m1: n1, m2: n2 },
                    InstallStep::Notice(InstallNotice::InstallingPackages),
                )
            }
        },
        InstallState::LinuxInstall { manager, next, m0, m1, m2 } => {
            let k: usize = if next <= 0 && m0 {
                0
            } else if next <= 1 && m1 {
                1
            } else if next <= 2 && m2 {
                2
            } else {
                3
            };
            if k < 3 {
                let mut c = owned(manager_install_str(manager));
                push_str(&mut c, " ");
                push_str(&mut c, package_name_str(k));
                (InstallState::LinuxInstall { manager, next: k + 1, m0, m1, m2 }, InstallStep::Run(c))
            } else {
                (InstallState::Done { ok: true }, InstallStep::Finish(true))
            }
        },
        InstallState::Done { ok } => (InstallState::Done { ok }, InstallStep::Finish(ok)),
    }
}

} // verus!
