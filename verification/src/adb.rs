//! The Android side: reading `adb` output, the phone's name and folder, the
//! FTP copy commands, and the plans of an Android backup and restore.
use vstd::prelude::*;
use crate::backup::total;
use crate::order::{sort_strings, sorted, str_eq};
use crate::text::{
    alphanumeric, cat2, cat3, chars_of, contains, contains_str, first_word, first_word_of,
    is_alphanumeric, join, join_strings, lines, lines_of, lowercase, owned, push_char, push_str,
    starts_with, starts_with_str, to_lowercase, trim, trim_str,
};

verus! {

// ---------------------------------------------------------------------------
// Running adb
// ---------------------------------------------------------------------------

/// The outcome of an `adb` command: its trimmed output when it succeeded,
/// else a message naming the command and its trimmed error output.
pub fn adb_result(args: &Vec<String>, success: bool, stdout: &str, stderr: &str) -> (r: Result<
    String,
    String,
>)
    ensures
        success ==> (r matches Ok(o) && o@ == trim(stdout@)),
        !success ==> (r matches Err(m) && m@ == "adb "@ + join(args.deep_view(), " "@) + " failed: "@
            + trim(stderr@)),
{
    if success {
        Ok(trim_str(stdout))
    } else {
        let mut m = owned("adb ");
        let joined = join_strings(args, " ");
        push_str(&mut m, joined.as_str());
        push_str(&mut m, " failed: ");
        let e = trim_str(stderr);
        push_str(&mut m, e.as_str());
        Err(m)
    }
}

/// Whether Android backups can run: `adb` is on the path and answers.
pub fn available(adb_on_path: bool, adb_answers: bool) -> (b: bool)
    ensures
        b == (adb_on_path && adb_answers),
{
    adb_on_path && adb_answers
}

/// The arguments of `adb shell` running `cmd` on the phone.
pub fn shell(cmd: &str) -> (r: Vec<String>)
    ensures
        r.deep_view() == seq!["shell"@, cmd@],
{
    let v = vec![owned("shell"), owned(cmd)];
    assert(v.deep_view() =~= seq!["shell"@, cmd@]);
    v
}

/// The phone command that lists the rows of a content provider.
pub fn content_query(uri: &str) -> (r: String)
    ensures
        r@ == "content query --uri "@ + uri@,
{
    cat2("content query --uri ", uri)
}

// ---------------------------------------------------------------------------
// Connected devices
// ---------------------------------------------------------------------------

/// A line of `adb devices` for a usable device: it says `device` and
/// neither `unauthorized` nor `offline`.
pub open spec fn usable_device_line(l: Seq<char>) -> bool {
    contains(l, "device"@) && !contains(l, "unauthorized"@) && !contains(l, "offline"@)
}

/// The serial numbers on usable device lines, in order.
pub open spec fn serials(ls: Seq<Seq<char>>) -> Seq<Seq<char>>
    decreases ls.len(),
{
    if ls.len() == 0 {
        seq![]
    } else {
        let p = serials(ls.drop_last());
        let l = ls.last();
        if usable_device_line(l) && first_word(l) is Some {
            p.push(first_word(l)->0)
        } else {
            p
        }
    }
}

/// The serial numbers that `adb devices` lists, after its heading line.
pub open spec fn devices_spec(output: Seq<char>) -> Seq<Seq<char>> {
    let ls = lines(output);
    if ls.len() == 0 {
        seq![]
    } else {
        serials(ls.skip(1))
    }
}

/// The serial numbers of the usable devices in the output of `adb devices`
/// (empty when the command failed).
pub fn devices(adb_output: &str) -> (r: Vec<String>)
    ensures
        r.deep_view() == devices_spec(adb_output@),
{
    let ls = lines_of(adb_output);
    let ghost lv = ls.deep_view();
    let mut out: Vec<String> = Vec::new();
    if ls.len() == 0 {
        assert(out.deep_view() =~= Seq::<Seq<char>>::empty());
        return out;
    }
    let ghost body = lv.skip(1);
    let mut i: usize = 1;
    assert(body.take(0) =~= Seq::<Seq<char>>::empty());
    assert(out.deep_view() =~= Seq::<Seq<char>>::empty());
    while i < ls.len()
        invariant
            1 <= i <= ls@.len(),
            lv == ls.deep_view(),
            body == lv.skip(1),
            out.deep_view() == serials(body.take(i - 1)),
        decreases ls@.len() - i,
    {
        let l = &ls[i];
        assert(body.take(i as int).drop_last() =~= body.take(i - 1));
        assert(body.take(i as int).last() == l@);
        if contains_str(l.as_str(), "device") && !contains_str(l.as_str(), "unauthorized")
            && !contains_str(l.as_str(), "offline") {
            match first_word_of(l.as_str()) {
                Some(w) => {
                    let ghost before = out.deep_view();
                    out.push(w);
                    assert(out.deep_view() =~= before.push(w@));
                },
                None => {},
            }
        }
        i = i + 1;
    }
    assert(body.take(ls@.len() - 1) =~= body);
    out
}

// ---------------------------------------------------------------------------
// The phone's model and the backup folder named after it
// ---------------------------------------------------------------------------

/// Whether the model name is of no use: empty, or the emulator's.
pub open spec fn model_unusable(model_output: Seq<char>) -> bool {
    trim(model_output).len() == 0 || trim(model_output) == "sdk_gphone64_arm64"@
}

/// Whether the product name has to be asked for, the model being of no use.
pub fn model_needs_name(model_output: &str) -> (b: bool)
    ensures
        b == model_unusable(model_output@),
{
    let m = trim_str(model_output);
    m.unicode_len() == 0 || str_eq(m.as_str(), "sdk_gphone64_arm64")
}

/// The phone's name: its trimmed model, or its trimmed product name when the
/// model is of no use.
pub fn device_model(model_output: &str, name_output: &str) -> (r: String)
    ensures
        r@ == (if model_unusable(model_output@) {
            trim(name_output@)
        } else {
            trim(model_output@)
        }),
{
    if model_needs_name(model_output) {
        trim_str(name_output)
    } else {
        trim_str(model_output)
    }
}

/// The folder name made from a (lower-case) model name: spaces become `-`,
/// and only alphanumeric characters and `-` are kept.
pub open spec fn tag_chars(s: Seq<char>) -> Seq<char>
    decreases s.len(),
{
    if s.len() == 0 {
        seq![]
    } else {
        let p = tag_chars(s.drop_last());
        let c = if s.last() == ' ' {
            '-'
        } else {
            s.last()
        };
        if alphanumeric(c) || c == '-' {
            p.push(c)
        } else {
            p
        }
    }
}

/// The folder a phone's backup goes to: the tag of its lower-case model, or
/// its serial number when the tag is empty.
pub open spec fn device_tag_spec(model: Seq<char>, serial: Seq<char>) -> Seq<char> {
    let t = tag_chars(lowercase(model));
    if t.len() == 0 {
        serial
    } else {
        t
    }
}

/// The folder a phone's backup goes to.
pub fn device_tag(model: &str, serial: &str) -> (r: String)
    ensures
        r@ == device_tag_spec(model@, serial@),
{
    let lower = to_lowercase(model);
    tag_from_lowered(lower.as_str(), serial)
}

/// The folder a phone's backup goes to, from its lower-cased model: the
/// tag of that name, or the serial number when the tag is empty.
pub fn tag_from_lowered(lower: &str, serial: &str) -> (r: String)
    ensures
        r@ == (if tag_chars(lower@).len() == 0 {
            serial@
        } else {
            tag_chars(lower@)
        }),
{
    let v = chars_of(lower);
    let mut t = String::new();
    let mut i: usize = 0;
    assert(v@.take(0) =~= Seq::<char>::empty());
    while i < v.len()
        invariant
            i <= v@.len(),
            v@ == lower@,
            t@ == tag_chars(v@.take(i as int)),
        decreases v@.len() - i,
    {
        assert(v@.take(i + 1).drop_last() =~= v@.take(i as int));
        let c = if v[i] == ' ' {
            '-'
        } else {
            v[i]
        };
        if is_alphanumeric(c) || c == '-' {
            push_char(&mut t, c);
        }
        i = i + 1;
    }
    assert(v@.take(v@.len() as int) =~= v@);
    if t.unicode_len() == 0 {
        owned(serial)
    } else {
        t
    }
}

/// A tag made from a model name holds only alphanumeric characters and `-`.
pub proof fn law_tag_chars(s: Seq<char>)
    ensures
        forall|i: int| 0 <= i < tag_chars(s).len() ==> alphanumeric(#[trigger] tag_chars(s)[i])
            || tag_chars(s)[i] == '-',
    decreases s.len(),
{
    if s.len() > 0 {
        law_tag_chars(s.drop_last());
        let p = tag_chars(s.drop_last());
        assert forall|i: int| 0 <= i < tag_chars(s).len() implies alphanumeric(
            #[trigger] tag_chars(s)[i],
        ) || tag_chars(s)[i] == '-' by {
            if i < p.len() {
                assert(tag_chars(s)[i] == p[i]);
            }
        }
    }
}

// ---------------------------------------------------------------------------
// The FTP server on the phone
// ---------------------------------------------------------------------------

/// The file manager's broadcasts that start its FTP server.
pub open spec fn ftp_start_intents() -> Seq<Seq<char>> {
    seq![
        "com.cxinventor.file.explorer.action.FTP_START"@,
        "com.cxinventor.file.explorer.action.FTPSERVER"@,
        "com.alphainventor.filemanager.action.FTP_START"@,
        "com.alphainventor.filemanager.action.FTPSERVER"@,
    ]
}

/// The file manager's broadcasts that stop its FTP server.
pub open spec fn ftp_stop_intents() -> Seq<Seq<char>> {
    seq![
        "com.cxinventor.file.explorer.action.FTP_STOP"@,
        "com.cxinventor.file.explorer.action.FTPSERVER_STOP"@,
        "com.alphainventor.filemanager.action.FTP_STOP"@,
    ]
}

/// The `adb` arguments that send a broadcast.
pub open spec fn broadcast_args(intent: Seq<char>) -> Seq<Seq<char>> {
    seq!["shell"@, "am"@, "broadcast"@, "-a"@, intent]
}

fn broadcast(intent: &str) -> (r: Vec<String>)
    ensures
        r.deep_view() == broadcast_args(intent@),
{
    let v = vec![owned("shell"), owned("am"), owned("broadcast"), owned("-a"), owned(intent)];
    assert(v.deep_view() =~= broadcast_args(intent@));
    v
}

/// The `adb` invocations that start the phone's FTP server: each start
/// broadcast, then launching the file manager.
pub fn ftp_start_commands() -> (r: Vec<Vec<String>>)
    ensures
        r@.map_values(|a: Vec<String>| a.deep_view()) == ftp_start_intents().map_values(
            |i: Seq<char>| broadcast_args(i),
        ).push(
            seq![
                "shell"@,
                "am"@,
                "start"@,
                "-n"@,
                "com.cxinventor.file.explorer/com.alphainventor.filemanager.activity.MainActivity"@,
            ],
        ),
{
    let launch = vec![
        owned("shell"),
        owned("am"),
        owned("start"),
        owned("-n"),
        owned("com.cxinventor.file.explorer/com.alphainventor.filemanager.activity.MainActivity"),
    ];
    assert(launch.deep_view() =~= seq![
        "shell"@,
        "am"@,
        "start"@,
        "-n"@,
        "com.cxinventor.file.explorer/com.alphainventor.filemanager.activity.MainActivity"@,
    ]);
    let r = vec![
        broadcast("com.cxinventor.file.explorer.action.FTP_START"),
        broadcast("com.cxinventor.file.explorer.action.FTPSERVER"),
        broadcast("com.alphainventor.filemanager.action.FTP_START"),
        broadcast("com.alphainventor.filemanager.action.FTPSERVER"),
        launch,
    ];
    assert(r@.map_values(|a: Vec<String>| a.deep_view()) =~= ftp_start_intents().map_values(
        |i: Seq<char>| broadcast_args(i),
    ).push(
        seq![
            "shell"@,
            "am"@,
            "start"@,
            "-n"@,
            "com.cxinventor.file.explorer/com.alphainventor.filemanager.activity.MainActivity"@,
        ],
    ));
    r
}

/// The `adb` invocations that stop the phone's FTP server.
pub fn ftp_stop_commands() -> (r: Vec<Vec<String>>)
    ensures
        r@.map_values(|a: Vec<String>| a.deep_view()) == ftp_stop_intents().map_values(
            |i: Seq<char>| broadcast_args(i),
        ),
{
    let r = vec![
        broadcast("com.cxinventor.file.explorer.action.FTP_STOP"),
        broadcast("com.cxinventor.file.explorer.action.FTPSERVER_STOP"),
        broadcast("com.alphainventor.filemanager.action.FTP_STOP"),
    ];
    assert(r@.map_values(|a: Vec<String>| a.deep_view()) =~= ftp_stop_intents().map_values(
        |i: Seq<char>| broadcast_args(i),
    ));
    r
}

/// The address of the phone's FTP server.
pub fn ftp_address(host: &str, port: &str) -> (r: String)
    ensures
        r@ == host@ + ":"@ + port@,
{
    cat3(host, ":", port)
}

/// The command that turns the password into the copy tool's obscured form.
pub fn obscure_command(pass: &str) -> (r: String)
    ensures
        r@ == "rclone obscure '"@ + pass@ + "'"@,
{
    cat3("rclone obscure '", pass, "'")
}

/// The arguments of the incremental copy of a phone folder over FTP.
pub open spec fn ftp_copy_args_spec(
    src: Seq<char>,
    dst: Seq<char>,
    host: Seq<char>,
    port: Seq<char>,
    user: Seq<char>,
    obscured: Seq<char>,
) -> Seq<Seq<char>> {
    seq![
        "copy"@,
        ":ftp:"@ + src,
        dst,
        "--progress"@,
        "--ftp-host"@,
        host,
        "--ftp-port"@,
        port,
        "--ftp-user"@,
        user,
        "--ftp-pass"@,
        trim(obscured),
    ]
}

/// The arguments of the incremental copy of a phone folder over FTP, with
/// the (trimmed) obscured password.
pub fn ftp_copy_args(src: &str, dst: &str, host: &str, port: &str, user: &str, obscured: &str) -> (r:
    Vec<String>)
    ensures
        r.deep_view() == ftp_copy_args_spec(src@, dst@, host@, port@, user@, obscured@),
{
    let v = vec![
        owned("copy"),
        cat2(":ftp:", src),
        owned(dst),
        owned("--progress"),
        owned("--ftp-host"),
        owned(host),
        owned("--ftp-port"),
        owned(port),
        owned("--ftp-user"),
        owned(user),
        owned("--ftp-pass"),
        trim_str(obscured),
    ];
    assert(v.deep_view() =~= ftp_copy_args_spec(src@, dst@, host@, port@, user@, obscured@));
    v
}

/// Which wait for the phone's FTP server is running: the short one right
/// after asking the phone to start it, or the longer one while the user
/// starts it by hand.
#[derive(Clone, Copy, Debug, PartialEq, Eq, Structural)]
pub enum FtpWait {
    Short,
    Long,
}

/// What the last look at the FTP server found: it answered, it did not, or
/// the running wait is over.
#[derive(Clone, Copy, Debug, PartialEq, Eq, Structural)]
pub enum FtpEvent {
    Reached,
    NotReached,
    TimeUp,
}

/// What to do next while waiting for the FTP server.
#[derive(Clone, Copy, Debug, PartialEq, Eq, Structural)]
pub enum FtpAction {
    /// The server answered: go on with the copies.
    Connected,
    /// Wait a second and look again.
    RetryAfterSecond,
    /// Tell the user to start the server by hand and wait this many
    /// seconds more.
    WaitLonger(u64),
    /// Give up: the server cannot be reached.
    Unreachable,
}

/// The first wait: the short one, of ten seconds.
pub fn ftp_wait_start() -> (r: (FtpWait, u64))
    ensures
        r == (FtpWait::Short, 10u64),
{
    (FtpWait::Short, 10)
}

/// The next step of the wait for the FTP server: connected as soon as it
/// answers, another look a second later while the wait runs, and when the
/// short wait is over a longer one of sixty seconds; when that one is over
/// too, the server is unreachable.
pub open spec fn ftp_wait_next(w: FtpWait, ev: FtpEvent) -> (FtpWait, FtpAction) {
    match (w, ev) {
        (_, FtpEvent::Reached) => (w, FtpAction::Connected),
        (_, FtpEvent::NotReached) => (w, FtpAction::RetryAfterSecond),
        (FtpWait::Short, FtpEvent::TimeUp) => (FtpWait::Long, FtpAction::WaitLonger(60u64)),
        (FtpWait::Long, FtpEvent::TimeUp) => (FtpWait::Long, FtpAction::Unreachable),
    }
}

/// The next step of the wait for the FTP server.
pub fn ftp_wait_step(w: FtpWait, ev: FtpEvent) -> (r: (FtpWait, FtpAction))
    ensures
        r == ftp_wait_next(w, ev),
{
    match ev {
        FtpEvent::Reached => (w, FtpAction::Connected),
        FtpEvent::NotReached => (w, FtpAction::RetryAfterSecond),
        FtpEvent::TimeUp => match w {
            FtpWait::Short => (FtpWait::Long, FtpAction::WaitLonger(60)),
            FtpWait::Long => (FtpWait::Long, FtpAction::Unreachable),
        },
    }
}

/// The wait gives up only once both waits are over: during the short wait
/// no event makes the server unreachable, the end of the short wait starts
/// the long one, and an answer connects in either wait.
pub proof fn law_ftp_gives_up_after_both_waits(w: FtpWait, ev: FtpEvent)
    ensures
        ftp_wait_next(FtpWait::Short, ev).1 != FtpAction::Unreachable,
        ftp_wait_next(FtpWait::Short, FtpEvent::TimeUp).0 == FtpWait::Long,
        ftp_wait_next(w, ev).1 == FtpAction::Unreachable <==> (w == FtpWait::Long && ev == FtpEvent::TimeUp),
        ftp_wait_next(w, FtpEvent::Reached).1 == FtpAction::Connected,
{
}

/// Why an Android backup or restore stopped.
pub enum AndroidError {
    /// No phone is connected.
    NoDevice,
    /// The phone's FTP server could not be reached.
    FtpUnreachable,
    /// The copy of a folder over FTP failed.
    FtpCopyFailed { src: String, dst: String },
    /// The folder holds no phone backup.
    NoBackup { dir: String },
    /// Sending a folder to the phone failed.
    PushFailed { src: String, dest: String },
    /// Several phone backups were found and none was chosen.
    NoChoice,
}

impl AndroidError {
    /// The message shown for the error.
    pub fn message(&self) -> (r: String)
        ensures
            r@ == (match self {
                AndroidError::NoDevice => "No Android device connected"@,
                AndroidError::FtpUnreachable => "FTP server not reachable"@,
                AndroidError::FtpCopyFailed { src, dst } => "rclone copy via FTP failed: "@ + src@
                    + " -> "@ + dst@,
                AndroidError::NoBackup { dir } => "No Android backup found in "@ + dir@,
                AndroidError::PushFailed { src, dest } => "adb push "@ + src@ + " "@ + dest@
                    + " failed"@,
                AndroidError::NoChoice => "No backup chosen"@,
            }),
    {
        match self {
            AndroidError::NoDevice => owned("No Android device connected"),
            AndroidError::FtpUnreachable => owned("FTP server not reachable"),
            AndroidError::FtpCopyFailed { src, dst } => {
                let mut r = cat3("rclone copy via FTP failed: ", src.as_str(), " -> ");
                push_str(&mut r, dst.as_str());
                r
            },
            AndroidError::NoBackup { dir } => cat2("No Android backup found in ", dir.as_str()),
            AndroidError::PushFailed { src, dest } => {
                let mut r = cat3("adb push ", src.as_str(), " ");
                push_str(&mut r, dest.as_str());
                push_str(&mut r, " failed");
                r
            },
            AndroidError::NoChoice => owned("No backup chosen"),
        }
    }
}

// ---------------------------------------------------------------------------
// Counting
// ---------------------------------------------------------------------------

/// The number of files and of bytes in a folder tree, from the size of each
/// file; nothing when the byte count does not fit in 64 bits.
pub fn dir_totals(sizes: &Vec<u64>) -> (r: Option<(u64, u64)>)
    ensures
        total(sizes@) <= u64::MAX ==> r == Some((sizes@.len() as u64, total(sizes@) as u64)),
        total(sizes@) > u64::MAX ==> r is None,
{
    match crate::backup::estimate_home_size(true, sizes) {
        Some(b) => Some((sizes.len() as u64, b)),
        None => None,
    }
}

/// The number of lines of a command's output.
pub fn count_lines(output: &str) -> (n: usize)
    ensures
        n == lines(output@).len(),
{
    lines_of(output).len()
}

/// The number of lines that start with `package:`.
pub open spec fn package_lines(ls: Seq<Seq<char>>) -> nat
    decreases ls.len(),
{
    if ls.len() == 0 {
        0
    } else {
        package_lines(ls.drop_last()) + if starts_with(ls.last(), "package:"@) {
            1nat
        } else {
            0nat
        }
    }
}

/// The number of packages in the output of `pm list packages`.
pub fn count_packages(output: &str) -> (n: usize)
    ensures
        n == package_lines(lines(output@)),
{
    let ls = lines_of(output);
    let ghost lv = ls.deep_view();
    let mut n: usize = 0;
    let mut i: usize = 0;
    assert(lv.take(0) =~= Seq::<Seq<char>>::empty());
    while i < ls.len()
        invariant
            i <= ls@.len(),
            lv == ls.deep_view(),
            n == package_lines(lv.take(i as int)),
            n <= i,
        decreases ls@.len() - i,
    {
        assert(lv.take(i + 1).drop_last() =~= lv.take(i as int));
        if starts_with_str(ls[i].as_str(), "package:") {
            n = n + 1;
        }
        i = i + 1;
    }
    assert(lv.take(ls@.len() as int) =~= lv);
    n
}

// ---------------------------------------------------------------------------
// Backup and restore plans
// ---------------------------------------------------------------------------

/// The phone folders that are copied.
pub open spec fn media_dirs_spec() -> Seq<Seq<char>> {
    seq!["DCIM"@, "Download"@, "Pictures"@, "Movies"@, "Music"@, "MIUI"@]
}

/// The phone folders that are copied.
pub fn android_media_dirs() -> (r: Vec<String>)
    ensures
        r.deep_view() == media_dirs_spec(),
{
    let v = vec![
        owned("DCIM"),
        owned("Download"),
        owned("Pictures"),
        owned("Movies"),
        owned("Music"),
        owned("MIUI"),
    ];
    assert(v.deep_view() =~= media_dirs_spec());
    v
}

/// Where a phone's files are kept inside its backup folder.
pub fn android_phone_dir(backup_dir: &str) -> (r: String)
    ensures
        r@ == backup_dir@ + "/phone"@,
{
    cat2(backup_dir, "/phone")
}

/// What an Android backup does: the phone, its folder, the FTP copies and
/// the files the phone's data goes to.
pub struct AndroidBackupPlan {
    pub serial: String,
    pub dest: String,
    pub phone_dir: String,
    pub media: Vec<(String, String)>,
    pub sms_path: String,
    pub contacts_path: String,
    pub calls_path: String,
    pub apps_path: String,
    pub prop_path: String,
}

/// The copies of the phone folders: from the FTP root's `/device/...` to the
/// same name in the phone folder.
pub open spec fn media_copies(phone_dir: Seq<char>) -> Seq<(Seq<char>, Seq<char>)> {
    media_dirs_spec().map_values(|d: Seq<char>| ("/device/"@ + d, phone_dir + "/"@ + d))
}

/// The plan of an Android backup of the first connected phone, saved under
/// `base` in the folder named after it; an error when no phone is connected.
pub fn android_backup_plan(devices: &Vec<String>, model: &str, base: &str) -> (r: Result<
    AndroidBackupPlan,
    AndroidError,
>)
    ensures
        devices@.len() == 0 ==> r matches Err(AndroidError::NoDevice),
        devices@.len() > 0 ==> (r matches Ok(p) && {
            let dest = base@ + "/"@ + device_tag_spec(model@, devices@[0]@);
            let phone = dest + "/phone"@;
            &&& p.serial@ == devices@[0]@
            &&& p.dest@ == dest
            &&& p.phone_dir@ == phone
            &&& p.media@.map_values(|m: (String, String)| (m.0@, m.1@)) == media_copies(phone)
            &&& p.sms_path@ == phone + "/sms.json"@
            &&& p.contacts_path@ == phone + "/contacts.json"@
            &&& p.calls_path@ == phone + "/call_logs.json"@
            &&& p.apps_path@ == phone + "/packages.txt"@
            &&& p.prop_path@ == phone + "/device.prop"@
        }),
{
    if devices.len() == 0 {
        return Err(AndroidError::NoDevice);
    }
    let serial = devices[0].clone();
    let tag = device_tag(model, serial.as_str());
    let dest = cat3(base, "/", tag.as_str());
    let phone_dir = cat2(dest.as_str(), "/phone");
    let dirs = android_media_dirs();
    let ghost f = |d: Seq<char>| ("/device/"@ + d, phone_dir@ + "/"@ + d);
    let ghost g = |m: (String, String)| (m.0@, m.1@);
    let mut media: Vec<(String, String)> = Vec::new();
    let mut i: usize = 0;
    assert(media@.map_values(g) =~= media_dirs_spec().take(0).map_values(f));
    while i < dirs.len()
        invariant
            i <= dirs@.len(),
            dirs.deep_view() == media_dirs_spec(),
            f == (|d: Seq<char>| ("/device/"@ + d, phone_dir@ + "/"@ + d)),
            g == (|m: (String, String)| (m.0@, m.1@)),
            media@.map_values(g) == media_dirs_spec().take(i as int).map_values(f),
        decreases dirs@.len() - i,
    {
        let d = dirs[i].as_str();
        let ghost before = media@;
        media.push((cat2("/device/", d), cat3(phone_dir.as_str(), "/", d)));
        proof {
            assert(dirs.deep_view()[i as int] == d@);
            assert(media@.map_values(g) =~= before.map_values(g).push(f(d@)));
            assert(media_dirs_spec().take(i + 1).map_values(f) =~= media_dirs_spec().take(
                i as int,
            ).map_values(f).push(f(d@)));
        }
        i = i + 1;
    }
    assert(media_dirs_spec().take(dirs@.len() as int) =~= media_dirs_spec());
    let plan = AndroidBackupPlan {
        serial,
        dest,
        sms_path: cat2(phone_dir.as_str(), "/sms.json"),
        contacts_path: cat2(phone_dir.as_str(), "/contacts.json"),
        calls_path: cat2(phone_dir.as_str(), "/call_logs.json"),
        apps_path: cat2(phone_dir.as_str(), "/packages.txt"),
        prop_path: cat2(phone_dir.as_str(), "/device.prop"),
        phone_dir,
        media,
    };
    Ok(plan)
}

/// The phone backups found under the base folder, sorted by name: the names
/// of the folders holding a `phone` folder, in any order.
pub fn list_android_dirs(names: Vec<String>) -> (r: Vec<String>)
    ensures
        sorted(r.deep_view()),
        r.deep_view().to_multiset() == names.deep_view().to_multiset(),
{
    sort_strings(names)
}

/// The phone backup to restore when no folder was given, from the backups
/// found under `base` (sorted) and, when there are several, the entries
/// picked in the numbered menu: none found is an error naming `base`; a
/// single one is taken without asking; among several, the first pick that
/// is in range, or an error when there is none.
pub fn choose_android_backup(base: &str, found: &Vec<String>, picks: &Vec<usize>) -> (r: Result<
    String,
    AndroidError,
>)
    ensures
        found@.len() == 0 ==> (r matches Err(AndroidError::NoBackup { dir }) && dir@ == base@),
        found@.len() == 1 ==> (r matches Ok(d) && d@ == base@ + "/"@ + found@[0]@),
        found@.len() > 1 && picks@.len() > 0 && picks@[0] < found@.len() ==> (r matches Ok(d) && d@
            == base@ + "/"@ + found@[picks@[0] as int]@),
        found@.len() > 1 && !(picks@.len() > 0 && picks@[0] < found@.len()) ==> r matches Err(
            AndroidError::NoChoice,
        ),
{
    if found.len() == 0 {
        Err(AndroidError::NoBackup { dir: owned(base) })
    } else if found.len() == 1 {
        Ok(cat3(base, "/", found[0].as_str()))
    } else if picks.len() > 0 && picks[0] < found.len() {
        Ok(cat3(base, "/", found[picks[0]].as_str()))
    } else {
        Err(AndroidError::NoChoice)
    }
}

/// What an Android restore does: the phone and the folders pushed to it.
pub struct AndroidRestorePlan {
    pub device: String,
    pub pushes: Vec<(String, String)>,
    pub apps_path: String,
}

/// The pushes of the backed-up folders that exist: from the phone folder to
/// the same name on the phone's storage.
pub open spec fn restore_pushes(phone_dir: Seq<char>, present: Seq<bool>, n: int) -> Seq<(Seq<char>, Seq<char>)>
    decreases n,
{
    if n <= 0 {
        seq![]
    } else {
        let p = restore_pushes(phone_dir, present, n - 1);
        let d = media_dirs_spec()[n - 1];
        if present[n - 1] {
            p.push((phone_dir + "/"@ + d, "/sdcard/"@ + d))
        } else {
            p
        }
    }
}

/// The plan of an Android restore from `backup_dir`: an error when it holds
/// no phone folder, else when no phone is connected; else the first phone
/// and the folders (of those present, `media_present[i]` for folder `i`) to
/// push.
pub fn restore_android(
    backup_dir: &str,
    phone_dir_present: bool,
    devices: &Vec<String>,
    media_present: &Vec<bool>,
) -> (r: Result<AndroidRestorePlan, AndroidError>)
    requires
        media_present@.len() == 6,
    ensures
        !phone_dir_present ==> (r matches Err(AndroidError::NoBackup { dir }) && dir@ == backup_dir@),
        phone_dir_present && devices@.len() == 0 ==> r matches Err(AndroidError::NoDevice),
        phone_dir_present && devices@.len() > 0 ==> (r matches Ok(p) && {
            let phone = backup_dir@ + "/phone"@;
            &&& p.device@ == devices@[0]@
            &&& p.pushes@.map_values(|m: (String, String)| (m.0@, m.1@)) == restore_pushes(
                phone,
                media_present@,
                6,
            )
            &&& p.apps_path@ == phone + "/packages.txt"@
        }),
{
    if !phone_dir_present {
        return Err(AndroidError::NoBackup { dir: owned(backup_dir) });
    }
    if devices.len() == 0 {
        return Err(AndroidError::NoDevice);
    }
    let phone_dir = android_phone_dir(backup_dir);
    let dirs = android_media_dirs();
    let ghost g = |m: (String, String)| (m.0@, m.1@);
    let mut pushes: Vec<(String, String)> = Vec::new();
    let mut i: usize = 0;
    assert(pushes@.map_values(g) =~= restore_pushes(phone_dir@, media_present@, 0));
    while i < 6
        invariant
            i <= 6,
            media_present@.len() == 6,
            dirs.deep_view() == media_dirs_spec(),
            g == (|m: (String, String)| (m.0@, m.1@)),
            pushes@.map_values(g) == restore_pushes(phone_dir@, media_present@, i as int),
        decreases 6 - i,
    {
        assert(dirs@.len() == 6) by {
            assert(dirs.deep_view().len() == 6);
        }
        let d = dirs[i].as_str();
        assert(dirs.deep_view()[i as int] == d@);
        if media_present[i] {
            let ghost before = pushes@;
            pushes.push((cat3(phone_dir.as_str(), "/", d), cat2("/sdcard/", d)));
            assert(pushes@.map_values(g) =~= before.map_values(g).push(
                (phone_dir@ + "/"@ + d@, "/sdcard/"@ + d@),
            ));
        }
        i = i + 1;
    }
    Ok(
        AndroidRestorePlan {
            device: devices[0].clone(),
            pushes,
            apps_path: cat2(phone_dir.as_str(), "/packages.txt"),
        },
    )
}

} // verus!
