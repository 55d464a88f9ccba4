use microsdeck::config::{Config, Frontend, LogLevel, Startup};
use microsdeck::error::{Error, ErrorKind};
use microsdeck::fingerprint::{fingerprint, FileStamp};
use microsdeck::mount::{pick_mount_label, LabelEntry};

fn files() -> Vec<FileStamp> {
    vec![
        FileStamp { len: 100, modified_secs: 1_000, modified_nanos: 1 },
        FileStamp { len: 200, modified_secs: 2_000, modified_nanos: 2 },
    ]
}

#[test]
fn fingerprint_is_stable() {
    let m = Some("SD".to_string());
    assert_eq!(fingerprint(&m, &files()), fingerprint(&m, &files()));
}

#[test]
fn fingerprint_changes_when_touched() {
    let m = Some("SD".to_string());
    let mut touched = files();
    touched[1].modified_secs += 1;
    assert_ne!(fingerprint(&m, &files()), fingerprint(&m, &touched));
    let mut nanos = files();
    nanos[0].modified_nanos += 1;
    assert_ne!(fingerprint(&m, &files()), fingerprint(&m, &nanos));
}

#[test]
fn fingerprint_depends_on_mount() {
    assert_ne!(fingerprint(&None, &files()), fingerprint(&Some("SD".to_string()), &files()));
    assert_ne!(fingerprint(&None, &vec![]), fingerprint(&None, &files()));
}

fn entry(name: Option<&str>, target: &str) -> LabelEntry {
    LabelEntry { name: name.map(|n| n.to_string()), target: target.to_string() }
}

#[test]
fn mount_label_first_match() {
    let entries = vec![
        entry(Some("OTHER"), "/dev/sda1"),
        entry(Some("STEAM"), "/dev/mmcblk0p1"),
        entry(Some("LATER"), "/dev/mmcblk0p1"),
    ];
    assert_eq!(pick_mount_label(&entries, "/dev/mmcblk0p1"), Some("STEAM".to_string()));
    assert_eq!(pick_mount_label(&entries, "/dev/nvme0n1"), None);
}

#[test]
fn mount_label_unescapes() {
    let entries = vec![entry(Some("My\\x20Card"), "/dev/mmcblk0p1")];
    assert_eq!(pick_mount_label(&entries, "/dev/mmcblk0p1"), Some("My Card".to_string()));
    let bad = vec![entry(Some("bad\\x2"), "/dev/mmcblk0p1")];
    assert_eq!(pick_mount_label(&bad, "/dev/mmcblk0p1"), None);
    let not_text = vec![entry(None, "/dev/mmcblk0p1"), entry(Some("X"), "/dev/mmcblk0p1")];
    assert_eq!(pick_mount_label(&not_text, "/dev/mmcblk0p1"), None);
}

#[test]
fn config_defaults() {
    let c = Config::new();
    assert_eq!(c.backend.port, 12412);
    assert_eq!(c.backend.scan_interval, 5000);
    assert_eq!(c.backend.store_file, "store");
    assert_eq!(c.backend.log_file, "microsdeck.log");
    assert_eq!(c.backend.log_level, LogLevel::INFO);
    assert_eq!(c.backend.startup, Startup { skip_validate: false, skip_clean: false });
    assert_eq!(c.frontend, Frontend { dismissed_docs: false });
}

#[test]
fn error_constructors() {
    let e = Error::from_str("boom");
    assert_eq!(e.kind, ErrorKind::Invalid);
    assert_eq!(e.to_text(), "boom");
    let b = Error::new_boxed("boxed");
    assert_eq!(b.message, "boxed");
    let r: Result<u8, Error> = Error::new_res("nope");
    assert_eq!(r.unwrap_err().message, "nope");
    assert_eq!(Error::new(ErrorKind::Corruption, "dead").kind, ErrorKind::Corruption);
}
