use std::io::Write;

use erscom::archive::Archive;
use erscom::breaker::{BreakFlow, Breaker};
use erscom::manage::Release;

fn build_zip(files: &[(&str, &[u8])], dirs: &[&str]) -> Vec<u8> {
    let mut w = zip::ZipWriter::new(std::io::Cursor::new(Vec::new()));
    let options = zip::write::SimpleFileOptions::default();
    for d in dirs {
        w.add_directory(*d, options).unwrap();
    }
    for (name, data) in files {
        w.start_file(*name, options).unwrap();
        w.write_all(data).unwrap();
    }
    w.finish().unwrap().into_inner()
}

#[test]
fn archive_reads_back_entries() {
    let bytes = build_zip(
        &[
            ("SeamlessCoop/ersc.dll", b"machine code"),
            ("SeamlessCoop/ersc_settings.ini", b"[PASSWORD]\ncooppassword = x\n"),
        ],
        &["SeamlessCoop"],
    );
    let mut archive = Archive::open(bytes).unwrap();
    assert_eq!(archive.len(), 3);
    let entries = archive.entries_vec().unwrap();
    assert_eq!(entries.len(), 3);
    assert!(entries[0].is_dir);
    assert_eq!(entries[1].name, "SeamlessCoop/ersc.dll");
    assert!(!entries[1].is_dir);
    assert_eq!(entries[1].data, b"machine code");
    assert_eq!(entries[2].name, "SeamlessCoop/ersc_settings.ini");
    assert_eq!(entries[2].data, b"[PASSWORD]\ncooppassword = x\n");
}

#[test]
fn archive_open_rejects_garbage() {
    assert!(Archive::open(vec![0u8; 16]).is_err());
}

#[test]
fn detection_through_a_real_archive() {
    let bytes = build_zip(&[("SeamlessCoop/ersc.dll", b"v2 bytes")], &[]);
    let mut archive = Archive::open(bytes).unwrap();
    let entries = archive.entries_vec().unwrap();
    let rel = Release {
        tag: "v2".to_string(),
        url: String::new(),
        date: String::new(),
        changelog: String::new(),
    };
    let matching = b"v2 bytes".to_vec();
    let stale = b"v1 bytes".to_vec();
    assert_eq!(rel.installed(Some(&entries), None, Some(&matching)), Some(true));
    assert_eq!(rel.installed(Some(&entries), None, Some(&stale)), Some(false));
    assert_eq!(rel.path_for(Some(&entries), "dll").unwrap(), "SeamlessCoop/ersc.dll");
}

#[test]
fn breaker_holds_its_outcome() {
    let b: Breaker<u32> = Breaker::brk();
    assert!(matches!(b.0, BreakFlow::Break(_)));
    let c = Breaker::cont(7u32);
    match c.0 {
        BreakFlow::Continue(v) => assert_eq!(v, 7),
        BreakFlow::Break(_) => panic!("expected a continued value"),
    }
}
