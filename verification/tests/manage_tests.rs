use erscom::archive::ArchiveEntry;
use erscom::cache::{ensure_cached_plan, is_cached, publish, CachePlan, CacheView};
use erscom::ini::Ini;
use erscom::manage::{
    entry_action, get_releases, install_actions, is_enclosed_exec, self_upgrade_version,
    EldenRingDir, EldenRingManager, EntryAction, EntryDecision, ManageError, Release,
    ReleaseRecord, SettingsTarget,
};

fn record(tag: &str, date: &str, url: &str) -> ReleaseRecord {
    ReleaseRecord {
        tag_name: tag.to_string(),
        published_at: date.to_string(),
        body: format!("notes for {}", tag),
        assets: vec![url.to_string()],
    }
}

fn release(tag: &str, date: &str) -> Release {
    Release {
        tag: tag.to_string(),
        url: format!("https://example.test/{}.zip", tag),
        date: date.to_string(),
        changelog: String::new(),
    }
}

fn manager_with_dir() -> EldenRingManager {
    EldenRingManager::new(Some(EldenRingDir("/games/eldenring/Game".to_string())))
}

#[test]
fn get_releases_takes_first_asset() {
    let mut rec = record("1.0", "2023-01-01T00:00:00Z", "https://example.test/a.zip");
    rec.assets.push("https://example.test/second.zip".to_string());
    let releases = get_releases(&vec![rec]).unwrap();
    assert_eq!(releases.len(), 1);
    assert_eq!(releases[0].tag, "1.0");
    assert_eq!(releases[0].url, "https://example.test/a.zip");
    assert_eq!(releases[0].date, "2023-01-01T00:00:00Z");
    assert_eq!(releases[0].changelog, "notes for 1.0");
}

#[test]
fn get_releases_rejects_record_without_assets() {
    let mut rec = record("1.0", "2023-01-01", "unused");
    rec.assets.clear();
    let r = get_releases(&vec![rec]);
    assert!(matches!(r, Err(ManageError::MalformedResponse)));
}

#[test]
fn fetch_releases_sorts_newest_first() {
    let mut m = manager_with_dir();
    let records = vec![
        record("1.0", "2023-01-01", "https://example.test/1.zip"),
        record("2.0", "2024-01-01", "https://example.test/2.zip"),
    ];
    m.fetch_releases(&records).unwrap();
    assert_eq!(m.releases[0].tag, "2.0");
    assert_eq!(m.releases[1].tag, "1.0");
}

#[test]
fn fetch_releases_keeps_feed_order_on_equal_dates() {
    let mut m = manager_with_dir();
    let records = vec![
        record("a", "2024-01-01", "u"),
        record("b", "2024-01-01", "u"),
        record("c", "2025-01-01", "u"),
    ];
    m.fetch_releases(&records).unwrap();
    assert_eq!(m.releases[0].tag, "c");
    assert_eq!(m.releases[1].tag, "a");
    assert_eq!(m.releases[2].tag, "b");
}

#[test]
fn self_upgrade_version_reports_newer_tag() {
    let records = vec![record("2.1", "2024-05-01", "u")];
    assert_eq!(self_upgrade_version(Some("2.0"), &records), Some("2.1".to_string()));
    assert_eq!(self_upgrade_version(Some("2.1"), &records), None);
    assert_eq!(self_upgrade_version(None, &records), None);
    assert_eq!(self_upgrade_version(Some("2.0"), &vec![]), None);
}

fn marker_entry(data: &[u8]) -> ArchiveEntry {
    ArchiveEntry {
        name: "SeamlessCoop/ersc.dll".to_string(),
        is_dir: false,
        data: data.to_vec(),
    }
}

#[test]
fn installed_is_unknown_without_archive() {
    // Even with marker bytes on disk, an undownloaded archive gives no
    // verdict at all.
    let rel = release("1.0", "2024-01-01");
    let disk = vec![1u8, 2, 3];
    assert_eq!(rel.installed(None, Some(&disk), Some(&disk)), None);
}

#[test]
fn installed_detects_matching_marker() {
    let rel = release("1.0", "2024-01-01");
    let entries = vec![marker_entry(b"dllbytes")];
    let disk = b"dllbytes".to_vec();
    assert_eq!(rel.installed(Some(&entries), None, Some(&disk)), Some(true));
}

#[test]
fn installed_reports_mismatch_as_false() {
    let rel = release("1.0", "2024-01-01");
    let entries = vec![marker_entry(b"new bytes")];
    let disk = b"old bytes".to_vec();
    assert_eq!(rel.installed(Some(&entries), None, Some(&disk)), Some(false));
}

#[test]
fn installed_is_unknown_without_disk_files() {
    let rel = release("1.0", "2024-01-01");
    let entries = vec![marker_entry(b"dllbytes")];
    assert_eq!(rel.installed(Some(&entries), None, None), None);
}

#[test]
fn file_installed_is_unknown_for_missing_entry() {
    let rel = release("1.0", "2024-01-01");
    let entries = vec![marker_entry(b"dllbytes")];
    let disk = b"dllbytes".to_vec();
    assert_eq!(rel.file_installed(Some(&entries), "SeamlessCoop/other.dll", Some(&disk)), None);
}

#[test]
fn detect_current_release_takes_first_definite_yes() {
    let mut m = manager_with_dir();
    m.releases = vec![release("2.0", "2024-01-01"), release("1.0", "2023-01-01")];
    let verdicts = vec![Some(false), Some(true)];
    assert_eq!(m.detect_current_release(&verdicts), Some(1));
    assert_eq!(m.current.as_ref().unwrap().tag, "1.0");
}

#[test]
fn detect_current_release_keeps_current_without_evidence() {
    let mut m = manager_with_dir();
    m.releases = vec![release("2.0", "2024-01-01")];
    let verdicts = vec![None];
    assert_eq!(m.detect_current_release(&verdicts), None);
    assert!(m.current.is_none());
}

#[test]
fn path_for_finds_first_matching_extension() {
    let rel = release("1.0", "2024-01-01");
    let entries = vec![
        ArchiveEntry { name: "SeamlessCoop/".to_string(), is_dir: true, data: vec![] },
        ArchiveEntry { name: "SeamlessCoop/mod.dll".to_string(), is_dir: false, data: vec![1] },
        ArchiveEntry {
            name: "SeamlessCoop/ersc_settings.ini".to_string(),
            is_dir: false,
            data: vec![2],
        },
    ];
    let p = rel.path_for(Some(&entries), "ini").unwrap();
    assert_eq!(p, "SeamlessCoop/ersc_settings.ini");
    assert!(matches!(rel.path_for(Some(&entries), "exe"), Err(ManageError::NoMatchingFile)));
    assert!(matches!(rel.path_for(None, "ini"), Err(ManageError::NotDownloaded)));
}

#[test]
fn entry_policy_protects_existing_ini_files() {
    // An ini file already on disk is skipped; any other file is applied
    // even when it already exists.
    assert_eq!(entry_action("SeamlessCoop/config.ini", false, true), EntryAction::Skip);
    assert_eq!(entry_action("SeamlessCoop/config.ini", false, false), EntryAction::Apply);
    assert_eq!(entry_action("SeamlessCoop/mod.dll", false, true), EntryAction::Apply);
    assert_eq!(entry_action("SeamlessCoop/", true, false), EntryAction::Skip);
}

#[test]
fn enclosed_names_reject_traversal_and_absolute_paths() {
    assert!(is_enclosed_exec("SeamlessCoop/mod.dll"));
    assert!(!is_enclosed_exec("../evil.dll"));
    assert!(!is_enclosed_exec("a/../../evil.dll"));
    assert!(!is_enclosed_exec("/etc/shadow"));
    assert!(!is_enclosed_exec(""));
    assert!(is_enclosed_exec("a..b/ok.dll"));
}

#[test]
fn install_actions_requires_a_directory() {
    let dir = EldenRingDir("/games/er".to_string());
    let r = install_actions(&dir, false, &vec![], &vec![]);
    assert!(matches!(r, Err(ManageError::NotADirectory)));
}

#[test]
fn install_actions_plans_each_entry() {
    let dir = EldenRingDir("/games/er".to_string());
    let entries = vec![
        ArchiveEntry { name: "SeamlessCoop/mod.dll".to_string(), is_dir: false, data: vec![] },
        ArchiveEntry { name: "SeamlessCoop/cfg.ini".to_string(), is_dir: false, data: vec![] },
        ArchiveEntry { name: "../outside.dll".to_string(), is_dir: false, data: vec![] },
    ];
    let dest_is_file = vec![true, true, false];
    let plan = install_actions(&dir, true, &entries, &dest_is_file).unwrap();
    assert_eq!(plan.len(), 3);
    match &plan[0] {
        EntryDecision::Touch { dest } => assert_eq!(dest, "/games/er/SeamlessCoop/mod.dll"),
        _ => panic!("existing dll must be overwritten"),
    }
    assert!(matches!(plan[1], EntryDecision::Leave));
    assert!(matches!(plan[2], EntryDecision::Leave));
}

#[test]
fn cache_names_derive_from_tag() {
    let rel = release("v1.5.2", "2024-01-01");
    assert_eq!(rel.cache_file_name(), "v1.5.2.zip");
    assert_eq!(rel.staging_file_name(), "v1.5.2.zip.partial");
    assert_eq!(rel.cache_rel_path(), "release cache/v1.5.2.zip");
}

#[test]
fn staging_file_alone_is_not_cached() {
    // An interrupted download leaves the staging file; that must never
    // count as a cache hit.
    let rel = release("v1.0", "2024-01-01");
    let disk = CacheView { canonical_is_file: false, staging_present: true };
    assert!(!rel.downloaded(&disk));
    assert!(!is_cached(&disk));
    assert_eq!(ensure_cached_plan(&disk), CachePlan::Download);
}

#[test]
fn second_ensure_cached_is_a_hit() {
    // First run must download; after the stage-then-rename publish, the
    // second run is a pure cache hit: one download in total.
    let start = CacheView { canonical_is_file: false, staging_present: false };
    assert_eq!(ensure_cached_plan(&start), CachePlan::Download);
    let after = publish(&start);
    assert_eq!(ensure_cached_plan(&after), CachePlan::UseCached);
    assert!(is_cached(&after));
}

#[test]
fn row_accessors_tolerate_bad_indexes() {
    let mut m = manager_with_dir();
    m.releases = vec![release("2.0", "2024-01-01")];
    assert_eq!(m.version_at_index(0), "2.0");
    assert_eq!(m.version_at_index(5), "");
    assert_eq!(m.changelog_at_index(5), "");
}

#[test]
fn manager_ok_names_whats_missing() {
    let none = EldenRingManager::new(None);
    assert!(matches!(none.ok(), Err(ManageError::DirNotFound)));
    let m = manager_with_dir();
    assert!(matches!(m.ok(), Err(ManageError::NoCurrentRelease)));
    let mut both = manager_with_dir();
    both.current = Some(release("1.0", "2024-01-01"));
    let (d, c) = both.ok().unwrap();
    assert_eq!(d.display(), "/games/eldenring/Game");
    assert_eq!(c.tag, "1.0");
}

#[test]
fn get_password_prefers_newer_section() {
    let m = manager_with_dir();
    let ini = Ini::parse("[SETTINGS]\ncooppassword = old\n[PASSWORD]\ncooppassword = new\n");
    assert_eq!(m.get_password(&ini).unwrap(), "new");
    let older = Ini::parse("[SETTINGS]\ncooppassword = old\n");
    assert_eq!(m.get_password(&older).unwrap(), "old");
    let neither = Ini::parse("[PASSWORD]\nother = x\n");
    assert!(matches!(m.get_password(&neither), Err(ManageError::PasswordKeyMissing)));
}

#[test]
fn locate_settings_file_prefers_newest_existing() {
    // All three candidate files exist: the newest-named one wins.
    let m = manager_with_dir();
    let all = vec![true, true, true];
    assert_eq!(
        m.locate_settings_file(&all),
        Some("/games/eldenring/Game/SeamlessCoop/ersc_settings.ini".to_string())
    );
    let old_only = vec![true, false, false];
    assert_eq!(
        m.locate_settings_file(&old_only),
        Some("/games/eldenring/Game/SeamlessCoop/cooppassword.ini".to_string())
    );
    assert_eq!(m.locate_settings_file(&vec![false, false, false]), None);
}

#[test]
fn set_password_broadcasts_to_every_existing_file() {
    // Old-style and new-style files both exist: both are written, each in
    // its own historical section.
    let m = manager_with_dir();
    let exists = vec![true, false, true];
    let targets: Vec<SettingsTarget> = m.set_password(&exists).unwrap();
    assert_eq!(targets.len(), 2);
    assert_eq!(targets[0].path, "/games/eldenring/Game/SeamlessCoop/cooppassword.ini");
    assert_eq!(targets[0].section, "SETTINGS");
    assert_eq!(targets[1].path, "/games/eldenring/Game/SeamlessCoop/ersc_settings.ini");
    assert_eq!(targets[1].section, "PASSWORD");

    let mut old_file = Ini::parse("[SETTINGS]\ncooppassword = stale\n");
    let mut new_file = Ini::parse("[PASSWORD]\ncooppassword = stale\n");
    m.set_password_for("secret", &mut old_file, &targets[0].section);
    m.set_password_for("secret", &mut new_file, &targets[1].section);
    assert_eq!(old_file.render(), "[SETTINGS]\ncooppassword = secret\n");
    assert_eq!(new_file.render(), "[PASSWORD]\ncooppassword = secret\n");
    assert_eq!(old_file.get("SETTINGS", "cooppassword"), Some("secret"));
    assert_eq!(new_file.get("PASSWORD", "cooppassword"), Some("secret"));
}

#[test]
fn set_password_errors_name_the_cause() {
    let no_dir = EldenRingManager::new(None);
    assert!(matches!(no_dir.set_password(&vec![false, false, false]), Err(ManageError::DirNotFound)));
    let m = manager_with_dir();
    assert!(matches!(m.set_password(&vec![false, false, false]), Err(ManageError::NoSettingsFile)));
}

#[test]
fn get_ini_path_follows_existence_precedence() {
    // The canonical settings file is the newest-named one that exists on
    // disk, even when older-named files are present too.
    let m = manager_with_dir();
    assert_eq!(
        m.get_ini_path(&vec![true, true, true]).unwrap(),
        "/games/eldenring/Game/SeamlessCoop/ersc_settings.ini"
    );
    assert_eq!(
        m.get_ini_path(&vec![true, false, false]).unwrap(),
        "/games/eldenring/Game/SeamlessCoop/cooppassword.ini"
    );
    assert!(matches!(
        m.get_ini_path(&vec![false, false, false]),
        Err(ManageError::NoSettingsFile)
    ));
    let no_dir = EldenRingManager::new(None);
    assert!(matches!(
        no_dir.get_ini_path(&vec![false, false, false]),
        Err(ManageError::DirNotFound)
    ));
}

#[test]
fn launcher_path_joins_archive_entry_onto_dir() {
    let mut m = manager_with_dir();
    m.current = Some(release("1.0", "2024-01-01"));
    let entries = vec![
        ArchiveEntry { name: "launcher.exe".to_string(), is_dir: false, data: vec![] },
    ];
    assert_eq!(m.launcher_path(Some(&entries)).unwrap(), "/games/eldenring/Game/launcher.exe");
    assert!(matches!(m.launcher_path(None), Err(ManageError::NotDownloaded)));
}
