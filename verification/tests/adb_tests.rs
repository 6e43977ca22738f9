use backup_rs::adb::{
    adb_result, android_backup_plan, android_media_dirs, android_phone_dir, available,
    content_query, count_lines, count_packages, device_model, device_tag, devices, dir_totals,
    ftp_address, ftp_copy_args, ftp_start_commands, ftp_stop_commands, list_android_dirs,
    model_needs_name, obscure_command, restore_android, shell, AndroidError,
};
use backup_rs::adb::{ftp_wait_start, ftp_wait_step, FtpAction, FtpEvent, FtpWait};
use backup_rs::adb::{choose_android_backup, tag_from_lowered};

fn strings(v: &[&str]) -> Vec<String> {
    v.iter().map(|s| s.to_string()).collect()
}

#[test]
fn adb_outcome() {
    let args = strings(&["shell", "getprop"]);
    assert_eq!(adb_result(&args, true, "  out \n", "x"), Ok("out".to_string()));
    assert_eq!(adb_result(&args, false, "", " no device \n"), Err("adb shell getprop failed: no device".to_string()));
    assert!(available(true, true));
    assert!(!available(true, false));
    assert!(!available(false, true));
}

#[test]
fn shell_commands() {
    assert_eq!(shell("getprop"), strings(&["shell", "getprop"]));
    assert_eq!(content_query("content://sms/"), "content query --uri content://sms/");
}

#[test]
fn usable_devices_are_listed() {
    let out = "List of devices attached\nR58M123\tdevice\nemulator-5554\toffline\nZX1\tunauthorized\n8A2X   device usb:1-1\n";
    assert_eq!(devices(out), strings(&["R58M123", "8A2X"]));
    assert_eq!(devices(""), Vec::<String>::new());
    assert_eq!(devices("List of devices attached"), Vec::<String>::new());
}

#[test]
fn phone_model() {
    assert!(!model_needs_name("Pixel 7"));
    assert!(model_needs_name(" \n"));
    assert!(model_needs_name("sdk_gphone64_arm64"));
    assert_eq!(device_model(" Pixel 7 ", "x"), "Pixel 7");
    assert_eq!(device_model("sdk_gphone64_arm64", " sdk_phone "), "sdk_phone");
    assert_eq!(device_model("", ""), "");
}

#[test]
fn folder_named_after_phone() {
    assert_eq!(device_tag("Pixel 7 Pro", "R58"), "pixel-7-pro");
    assert_eq!(device_tag("Galaxy S21 (5G)", "R58"), "galaxy-s21-5g");
    assert_eq!(device_tag("!!!", "R58"), "R58");
    assert_eq!(device_tag("", "R58"), "R58");
}

#[test]
fn ftp_commands() {
    let start = ftp_start_commands();
    assert_eq!(start.len(), 5);
    assert_eq!(start[0], strings(&["shell", "am", "broadcast", "-a", "com.cxinventor.file.explorer.action.FTP_START"]));
    assert_eq!(start[4][2], "start");
    assert_eq!(ftp_stop_commands().len(), 3);
    assert_eq!(ftp_address("192.168.44.13", "2121"), "192.168.44.13:2121");
    assert_eq!(obscure_command("0000"), "rclone obscure '0000'");
    assert_eq!(
        ftp_copy_args("/device/DCIM", "/bk/phone/DCIM", "h", "2121", "ftp", " XYZ\n"),
        strings(&["copy", ":ftp:/device/DCIM", "/bk/phone/DCIM", "--progress", "--ftp-host", "h", "--ftp-port", "2121", "--ftp-user", "ftp", "--ftp-pass", "XYZ"])
    );
}

#[test]
fn error_messages() {
    assert_eq!(AndroidError::NoDevice.message(), "No Android device connected");
    assert_eq!(AndroidError::FtpUnreachable.message(), "FTP server not reachable");
    assert_eq!(
        AndroidError::FtpCopyFailed { src: "/device/DCIM".into(), dst: "/bk/DCIM".into() }.message(),
        "rclone copy via FTP failed: /device/DCIM -> /bk/DCIM"
    );
    assert_eq!(AndroidError::NoBackup { dir: "/bk".into() }.message(), "No Android backup found in /bk");
    assert_eq!(AndroidError::PushFailed { src: "a".into(), dest: "b".into() }.message(), "adb push a b failed");
}

#[test]
fn counting() {
    assert_eq!(dir_totals(&vec![1, 2, 3]), Some((3, 6)));
    assert_eq!(dir_totals(&vec![]), Some((0, 0)));
    assert_eq!(dir_totals(&vec![u64::MAX, 1]), None);
    assert_eq!(count_lines("a\nb\n"), 2);
    assert_eq!(count_packages("package:/a=x\npackage:/b=y\nother\n"), 2);
}

#[test]
fn backup_plan() {
    assert!(matches!(android_backup_plan(&vec![], "Pixel", "/b"), Err(AndroidError::NoDevice)));
    let plan = android_backup_plan(&strings(&["R58", "X"]), "Pixel 7", "/mnt/HDD4T/BACKUP").ok().unwrap();
    assert_eq!(plan.serial, "R58");
    assert_eq!(plan.dest, "/mnt/HDD4T/BACKUP/pixel-7");
    assert_eq!(plan.phone_dir, "/mnt/HDD4T/BACKUP/pixel-7/phone");
    assert_eq!(plan.media.len(), 6);
    assert_eq!(plan.media[0], ("/device/DCIM".to_string(), "/mnt/HDD4T/BACKUP/pixel-7/phone/DCIM".to_string()));
    assert_eq!(plan.sms_path, "/mnt/HDD4T/BACKUP/pixel-7/phone/sms.json");
    assert_eq!(plan.prop_path, "/mnt/HDD4T/BACKUP/pixel-7/phone/device.prop");
}

#[test]
fn phone_backups_are_listed_sorted() {
    assert_eq!(list_android_dirs(strings(&["pixel-7", "galaxy", "a"])), strings(&["a", "galaxy", "pixel-7"]));
}

#[test]
fn restore_plan() {
    let present = vec![true, false, false, false, true, false];
    assert!(matches!(
        restore_android("/bk/pixel", false, &strings(&["R58"]), &present),
        Err(AndroidError::NoBackup { dir }) if dir == "/bk/pixel"
    ));
    assert!(matches!(restore_android("/bk/pixel", true, &vec![], &present), Err(AndroidError::NoDevice)));
    let plan = restore_android("/bk/pixel", true, &strings(&["R58"]), &present).ok().unwrap();
    assert_eq!(plan.device, "R58");
    assert_eq!(plan.pushes, vec![
        ("/bk/pixel/phone/DCIM".to_string(), "/sdcard/DCIM".to_string()),
        ("/bk/pixel/phone/Music".to_string(), "/sdcard/Music".to_string()),
    ]);
    assert_eq!(plan.apps_path, "/bk/pixel/phone/packages.txt");
    assert_eq!(android_phone_dir("/bk/pixel"), "/bk/pixel/phone");
    assert_eq!(android_media_dirs()[5], "MIUI");
}

#[test]
fn waiting_for_the_ftp_server() {
    assert_eq!(ftp_wait_start(), (FtpWait::Short, 10));
    assert_eq!(ftp_wait_step(FtpWait::Short, FtpEvent::NotReached), (FtpWait::Short, FtpAction::RetryAfterSecond));
    assert_eq!(ftp_wait_step(FtpWait::Short, FtpEvent::TimeUp), (FtpWait::Long, FtpAction::WaitLonger(60)));
    assert_eq!(ftp_wait_step(FtpWait::Long, FtpEvent::Reached), (FtpWait::Long, FtpAction::Connected));
    assert_eq!(ftp_wait_step(FtpWait::Long, FtpEvent::TimeUp), (FtpWait::Long, FtpAction::Unreachable));
}

fn chosen(r: Result<String, AndroidError>) -> String {
    match r {
        Ok(d) => d,
        Err(e) => format!("error: {}", e.message()),
    }
}

#[test]
fn choosing_an_android_backup() {
    let none: Vec<String> = vec![];
    assert_eq!(chosen(choose_android_backup("/b", &none, &vec![])), "error: No Android backup found in /b");
    assert_eq!(chosen(choose_android_backup("/b", &strings(&["pixel"]), &vec![])), "/b/pixel");
    let two = strings(&["a", "b"]);
    assert_eq!(chosen(choose_android_backup("/b", &two, &vec![1, 0])), "/b/b");
    assert_eq!(chosen(choose_android_backup("/b", &two, &vec![])), "error: No backup chosen");
    assert_eq!(chosen(choose_android_backup("/b", &two, &vec![5])), "error: No backup chosen");
}

#[test]
fn tag_from_a_lowered_model() {
    assert_eq!(tag_from_lowered("pixel 7 pro", "s"), "pixel-7-pro");
    assert_eq!(tag_from_lowered("!!", "serial1"), "serial1");
}
