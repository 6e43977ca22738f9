use backup_rs::manifest::{is_unchanged, load_manifest, manifest_text, record};

#[test]
fn manifest_reads_name_and_time() {
    let m = load_manifest("mozilla=1700000000\n chromium = 42 \nbroken line\nbad=x\n=7\n");
    assert_eq!(m.get("mozilla").copied(), Some(1700000000));
    assert_eq!(m.get("chromium").copied(), Some(42));
    assert_eq!(m.get("bad"), None);
    assert_eq!(m.get("").copied(), Some(7));
    assert_eq!(m.len(), 3);
}

#[test]
fn manifest_text_is_sorted_by_name() {
    let mut m = load_manifest("");
    record(&mut m, "zeta".to_string(), 3);
    record(&mut m, "alpha".to_string(), 1);
    record(&mut m, "mid".to_string(), 2);
    assert_eq!(manifest_text(&m), "alpha=1\nmid=2\nzeta=3\n");
}

#[test]
fn manifest_round_trip() {
    let text = "a=1\nb=18446744073709551615\nc d=0\n";
    let m = load_manifest(text);
    assert_eq!(manifest_text(&m), text);
    let again = load_manifest(&manifest_text(&m));
    assert_eq!(manifest_text(&again), text);
}

#[test]
fn recorded_folder_is_skipped_next_time() {
    let mut m = load_manifest("mozilla=5\n");
    assert!(is_unchanged(&m, "mozilla", 5));
    assert!(!is_unchanged(&m, "mozilla", 6));
    assert!(!is_unchanged(&m, "chromium", 5));
    record(&mut m, "mozilla".to_string(), 6);
    assert!(is_unchanged(&m, "mozilla", 6));
}

#[test]
fn overflowing_time_is_ignored() {
    let m = load_manifest("x=18446744073709551616\n");
    assert_eq!(m.len(), 0);
}
