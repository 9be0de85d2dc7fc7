use mods_handler::catalog::{db_aliases, sync_records, CatalogStore, EntityType};
use mods_handler::scan::{
    choose_author, clone_opt, library_author_dirs, mod_exists_by_path, mods_add,
    mods_import_commit, mods_import_dry_run, mods_purge_all, mods_set_installed, paths_rescan,
    seen_before, upsert_draft, upsert_scanned, ModStore, ScanEvent, ScannedFolder,
};
use mods_handler::types::{
    preview_info_for_path, tally_preview, AppSettings, CatalogCharacter, CatalogCostume,
    Confidence, DraftMod, ModRow, ModType, NewMod, PreviewGenerationSummary, PreviewOutcome,
    ScanSummary,
};

fn draft(name: &str, path: &str) -> DraftMod {
    DraftMod {
        display_name: name.to_string(),
        folder_path: path.to_string(),
        author: Some("MrMiagi".to_string()),
        download_url: None,
        mod_type: ModType::Idle,
        character_id: Some(1),
        costume_id: Some(10),
        infer_confidence: Confidence { two_hundredths: 150 },
    }
}

fn folder(name: &str, path: &str) -> ScannedFolder {
    ScannedFolder { display_name: name.to_string(), path: path.to_string(), resolved: None }
}

#[test]
fn two_drafts_of_one_path_are_inserted_once() {
    let mut store = ModStore::new();
    let drafts = vec![draft("First", "lib\\a\\mod\\"), draft("Second", "lib/a/mod")];
    let out = mods_import_commit(&mut store, drafts, &vec![None, None], "2024-01-01T00:00:00Z");
    assert_eq!(out, Ok((1, 0)));
    assert_eq!(store.rows.len(), 1);
    assert_eq!(store.rows[0].display_name, "First");
    assert_eq!(store.rows[0].folder_path, "lib/a/mod");
    assert_eq!(store.rows[0].id, 1);
    assert!(!store.rows[0].installed);
    assert_eq!(store.rows[0].created_at, "2024-01-01T00:00:00Z");
}

#[test]
fn two_drafts_of_a_stored_path_are_updated_once() {
    let mut store = ModStore::new();
    mods_import_commit(&mut store, vec![draft("Old", "lib/a/mod")], &vec![], "t0").unwrap();
    store.rows[0].installed = true;
    store.rows[0].target_path = Some("game/mods/x".to_string());
    let mut d1 = draft("New", "lib/a/mod/");
    d1.mod_type = ModType::Cutscene;
    d1.character_id = None;
    d1.author = None;
    let d2 = draft("Newer", "lib\\a\\mod");
    let out = mods_import_commit(&mut store, vec![d1, d2], &vec![None], "t1");
    assert_eq!(out, Ok((0, 1)));
    assert_eq!(store.rows.len(), 1);
    let row = &store.rows[0];
    assert_eq!(row.display_name, "New");
    assert_eq!(row.mod_type, ModType::Cutscene);
    assert_eq!(row.character_id, None);
    assert_eq!(row.costume_id, Some(10));
    assert_eq!(row.author, None);
    assert_eq!(row.id, 1);
    assert!(row.installed);
    assert_eq!(row.target_path, Some("game/mods/x".to_string()));
    assert_eq!(row.created_at, "t0");
    assert_eq!(row.updated_at, "t1");
}

#[test]
fn commit_counts_inserts_and_updates() {
    let mut store = ModStore::new();
    mods_import_commit(&mut store, vec![draft("A", "p/a")], &vec![], "t0").unwrap();
    let drafts = vec![draft("B", "p/b"), draft("A2", "p/a"), draft("C", "p/c"), draft("B2", "p/b/")];
    assert_eq!(mods_import_commit(&mut store, drafts, &vec![], "t1"), Ok((2, 1)));
    let paths: Vec<&str> = store.rows.iter().map(|r| r.folder_path.as_str()).collect();
    assert_eq!(paths, vec!["p/a", "p/b", "p/c"]);
    assert_eq!(store.rows[1].display_name, "B");
    assert_eq!(mods_import_commit(&mut store, vec![], &vec![], "t2"), Ok((0, 0)));
}

#[test]
fn commit_keys_by_the_resolved_path() {
    let mut store = ModStore::new();
    let drafts = vec![draft("A", "./mod"), draft("B", "mod")];
    let resolved = vec![Some("/abs/mod".to_string()), Some("/abs/mod".to_string())];
    assert_eq!(mods_import_commit(&mut store, drafts, &resolved, "t"), Ok((1, 0)));
    assert_eq!(store.rows[0].folder_path, "/abs/mod");
}

#[test]
fn a_store_whose_largest_id_is_the_last_still_takes_new_rows() {
    let mut store = ModStore::new();
    mods_import_commit(&mut store, vec![draft("A", "p/a")], &vec![], "t0").unwrap();
    store.rows[0].id = i64::MAX;
    // Two drafts of one new path: one insert, under the least id that is free.
    let batch = vec![draft("B", "p/b"), draft("B2", "p/b/")];
    assert_eq!(mods_import_commit(&mut store, batch, &vec![], "t1"), Ok((1, 0)));
    assert_eq!(store.rows.len(), 2);
    assert_eq!(store.rows[1].id, i64::MIN);
    assert_eq!(store.rows[1].display_name, "B");
    assert!(!upsert_draft(&mut store, "p/c", &draft("C", "p/c"), "t1"));
    assert_eq!(store.rows[2].id, i64::MIN + 1);
    upsert_scanned(&mut store, "p/d", "D", "unknown", "t1");
    assert_eq!(store.rows[3].id, i64::MIN + 2);
    let events = vec![ScanEvent::Root, mod_event("x", "A3", "p/a"), mod_event("x", "E", "p/e")];
    assert_eq!(
        paths_rescan(&mut store, &events, "t2"),
        Ok(ScanSummary { scanned_dirs: 1, discovered_mods: 2, upserts: 2, errors: 0 })
    );
    assert_eq!(store.rows[0].display_name, "A3");
    assert_eq!(store.rows[0].id, i64::MAX);
    assert_eq!(store.rows[4].id, i64::MIN + 3);
    assert_eq!(mods_add(&mut store, new_mod("F", "p/f"), None, "t3"), Ok(i64::MIN + 4));
    let mut ids: Vec<i64> = store.id_list();
    ids.sort();
    ids.dedup();
    assert_eq!(ids.len(), store.rows.len());
}

fn mod_event(author: &str, name: &str, path: &str) -> ScanEvent {
    ScanEvent::ModFolder {
        author_folder: author.to_string(),
        display_name: name.to_string(),
        path: path.to_string(),
        resolved: None,
    }
}

#[test]
fn rescan_counts_and_stores_what_it_finds() {
    let mut store = ModStore::new();
    let events = vec![
        ScanEvent::Root,
        mod_event("MrMiagi", "Aria Idle", "lib/MrMiagi/Aria Idle"),
        ScanEvent::Unreadable,
        mod_event("Other Guy", "Bruno cut", "lib\\Other Guy\\Bruno cut\\"),
        ScanEvent::Root,
        ScanEvent::Unreadable,
    ];
    let summary = paths_rescan(&mut store, &events, "t0").unwrap();
    assert_eq!(
        summary,
        ScanSummary { scanned_dirs: 2, discovered_mods: 2, upserts: 2, errors: 2 }
    );
    assert_eq!(store.rows.len(), 2);
    assert_eq!(store.rows[0].author, Some("MrMiagi".to_string()));
    assert_eq!(store.rows[1].author, Some("unknown".to_string()));
    assert_eq!(store.rows[1].folder_path, "lib/Other Guy/Bruno cut");
    assert_eq!(store.rows[1].mod_type, ModType::Other);
    assert_eq!(store.rows[1].character_id, None);
    assert_eq!(store.rows[1].download_url, None);
}

#[test]
fn rescan_keeps_what_was_assigned() {
    let mut store = ModStore::new();
    mods_import_commit(&mut store, vec![draft("Aria Idle", "lib/x/Aria Idle")], &vec![], "t0")
        .unwrap();
    let events = vec![ScanEvent::Root, mod_event("x", "Aria Idle (renamed)", "lib/x/Aria Idle/")];
    let summary = paths_rescan(&mut store, &events, "t1").unwrap();
    assert_eq!(
        summary,
        ScanSummary { scanned_dirs: 1, discovered_mods: 1, upserts: 1, errors: 0 }
    );
    assert_eq!(store.rows.len(), 1);
    let row = &store.rows[0];
    assert_eq!(row.display_name, "Aria Idle (renamed)");
    assert_eq!(row.author, Some("unknown".to_string()));
    assert_eq!(row.updated_at, "t1");
    assert_eq!(row.created_at, "t0");
    assert_eq!(row.mod_type, ModType::Idle);
    assert_eq!(row.character_id, Some(1));
    assert_eq!(row.costume_id, Some(10));
}

#[test]
fn author_override_beats_the_folder_name() {
    let s = |x: &str| Some(x.to_string());
    assert_eq!(choose_author(s("  Neo "), s("MrMiagi")), s("Neo"));
    assert_eq!(choose_author(s("   "), s("MrMiagi")), s("MrMiagi"));
    assert_eq!(choose_author(None, s("MrMiagi")), s("MrMiagi"));
    assert_eq!(choose_author(None, s(" ")), s("unknown"));
    assert_eq!(choose_author(s(""), None), None);
    assert_eq!(choose_author(None, None), None);
}

#[test]
fn dry_run_of_one_author_folder() {
    let mut catalog = CatalogStore::new();
    let items = vec![CatalogCharacter {
        slug: "aria".to_string(),
        display_name: "Aria".to_string(),
        aliases: vec![],
        costumes: vec![CatalogCostume {
            slug: "default".to_string(),
            display_name: "Default".to_string(),
            aliases: vec![],
        }],
    }];
    sync_records(&mut catalog, items).unwrap();
    let chars: Vec<(i64, String, String)> = catalog
        .characters
        .iter()
        .map(|c| (c.id, c.slug.clone(), c.display_name.clone()))
        .collect();
    let costumes: Vec<(i64, i64, String, String)> = catalog
        .costumes
        .iter()
        .map(|c| (c.id, c.character_id, c.slug.clone(), c.display_name.clone()))
        .collect();
    let folders = vec![
        folder("Aria_Default_Idle_v2", "lib\\MrMiagi\\Aria_Default_Idle_v2\\"),
        folder("zzz", "lib/MrMiagi/zzz"),
    ];
    let drafts = mods_import_dry_run(
        Some("MrMiagi".to_string()),
        &folders,
        None,
        Some("https://example.org/dl".to_string()),
        &chars,
        &costumes,
        &[],
    );
    assert_eq!(drafts.len(), 2);
    let d = &drafts[0];
    assert_eq!(d.display_name, "Aria_Default_Idle_v2");
    assert_eq!(d.folder_path, "lib/MrMiagi/Aria_Default_Idle_v2");
    assert_eq!(d.author, Some("MrMiagi".to_string()));
    assert_eq!(d.download_url, Some("https://example.org/dl".to_string()));
    assert_eq!(d.character_id, Some(catalog.characters[0].id));
    assert_eq!(d.costume_id, Some(catalog.costumes[0].id));
    assert_eq!(d.mod_type, ModType::Idle);
    assert!(d.infer_confidence.two_hundredths > 100);
    let z = &drafts[1];
    assert_eq!((z.character_id, z.costume_id), (None, None));
    assert_eq!(z.infer_confidence, Confidence { two_hundredths: 0 });
    assert_eq!(z.mod_type, ModType::Other);

    let overridden =
        mods_import_dry_run(None, &folders, Some(" Neo ".to_string()), None, &chars, &costumes, &[]);
    assert_eq!(overridden[0].author, Some("Neo".to_string()));
    assert_eq!(overridden[0].download_url, None);
    let nameless = mods_import_dry_run(None, &folders, None, None, &[], &[], &[]);
    assert_eq!(nameless[0].author, None);
    assert_eq!(nameless[0].character_id, None);
}

#[test]
fn author_folders_are_listed_with_their_authors() {
    let folders = vec![folder("Mr Miagi", "lib\\Mr Miagi\\"), folder("someone", "lib/someone")];
    let out = library_author_dirs(&folders);
    assert_eq!(out.len(), 2);
    assert_eq!(out[0].folder_path, "lib/Mr Miagi");
    assert_eq!(out[0].inferred_author, "MrMiagi");
    assert_eq!(out[1].inferred_author, "unknown");
}

#[test]
fn store_finds_rows_by_path() {
    let mut store = ModStore::new();
    assert_eq!(store.find("p/a"), None);
    upsert_scanned(&mut store, "p/a", "A", "unknown", "t0");
    assert!(!upsert_draft(&mut store, "p/b", &draft("B", "p/b"), "t0"));
    assert!(upsert_draft(&mut store, "p/b", &draft("B2", "p/b"), "t0"));
    assert_eq!(store.find("p/b"), Some(1));
    assert_eq!(store.find("p/c"), None);
    assert_eq!(store.id_list(), vec![1, 2]);
    let row: &ModRow = &store.rows[0];
    assert_eq!(row.id, 1);
    assert!(seen_before(&vec!["a".to_string(), "b".to_string()], "b"));
    assert!(!seen_before(&vec!["a".to_string()], "b"));
    assert_eq!(clone_opt(&Some("x".to_string())), Some("x".to_string()));
    assert_eq!(clone_opt(&None), None);
}

#[test]
fn default_settings_copy_mods() {
    let s = AppSettings::default();
    assert!(s.library_dirs.is_empty());
    assert_eq!(s.game_mods_dir, None);
    assert_eq!(s.install_strategy, Some("copy".to_string()));
}

fn new_mod(name: &str, path: &str) -> NewMod {
    NewMod {
        display_name: name.to_string(),
        folder_path: path.to_string(),
        author: None,
        download_url: Some("https://example.org".to_string()),
        character_id: Some(3),
        costume_id: None,
        mod_type: ModType::Ui,
    }
}

#[test]
fn a_mod_entered_by_hand_is_stored_once() {
    let mut store = ModStore::new();
    assert_eq!(mods_add(&mut store, new_mod("A", "lib\\a\\"), None, "t0"), Ok(1));
    assert_eq!(store.rows[0].folder_path, "lib/a");
    assert_eq!(store.rows[0].mod_type, ModType::Ui);
    assert_eq!(store.rows[0].character_id, Some(3));
    assert!(!store.rows[0].installed);
    assert!(mod_exists_by_path(&store, "lib/a"));
    assert!(!mod_exists_by_path(&store, "lib/b"));
    let before = store.clone();
    assert!(mods_add(&mut store, new_mod("A again", "lib/a/"), None, "t1").is_err());
    assert_eq!(store, before);
    assert_eq!(mods_add(&mut store, new_mod("B", "x"), Some("/abs/b".to_string()), "t1"), Ok(2));
    assert_eq!(store.rows[1].folder_path, "/abs/b");
}

#[test]
fn installing_sets_time_and_target_and_uninstalling_clears_them() {
    let mut store = ModStore::new();
    mods_add(&mut store, new_mod("A", "lib/a"), None, "t0").unwrap();
    mods_add(&mut store, new_mod("B", "lib/b"), None, "t0").unwrap();
    assert_eq!(mods_set_installed(&mut store, 2, true, Some("game/b".to_string()), "t1"), Ok(()));
    assert!(store.rows[1].installed);
    assert_eq!(store.rows[1].installed_at, Some("t1".to_string()));
    assert_eq!(store.rows[1].target_path, Some("game/b".to_string()));
    assert_eq!(store.rows[1].updated_at, "t1");
    assert_eq!(store.rows[1].created_at, "t0");
    assert!(!store.rows[0].installed);
    assert_eq!(mods_set_installed(&mut store, 2, false, Some("game/b".to_string()), "t2"), Ok(()));
    assert!(!store.rows[1].installed);
    assert_eq!(store.rows[1].installed_at, None);
    assert_eq!(store.rows[1].target_path, None);
    assert_eq!(store.rows[1].updated_at, "t2");
    let before = store.clone();
    assert_eq!(
        mods_set_installed(&mut store, 9, true, None, "t3"),
        Err("Mod not found".to_string())
    );
    assert_eq!(store, before);
}

#[test]
fn purge_deletes_every_mod() {
    let mut store = ModStore::new();
    mods_add(&mut store, new_mod("A", "lib/a"), None, "t0").unwrap();
    mods_add(&mut store, new_mod("B", "lib/b"), None, "t0").unwrap();
    assert_eq!(mods_purge_all(&mut store), 2);
    assert!(store.rows.is_empty());
    assert_eq!(mods_purge_all(&mut store), 0);
}

#[test]
fn previews_are_tallied_by_outcome() {
    let zero = PreviewGenerationSummary { generated: 0, skipped: 0, errors: 0 };
    let mut s = zero;
    for o in [
        PreviewOutcome::Generated,
        PreviewOutcome::AlreadyExists,
        PreviewOutcome::FolderMissing,
        PreviewOutcome::Failed,
        PreviewOutcome::ReportedButMissing,
        PreviewOutcome::Generated,
    ] {
        s = tally_preview(s, o);
    }
    assert_eq!(s, PreviewGenerationSummary { generated: 2, skipped: 1, errors: 3 });
    let info = preview_info_for_path(true, "a/preview.png".into(), false, "a/preview.mp4".into());
    assert!(info.has_image && !info.has_video);
    assert_eq!(info.image_path, Some("a/preview.png".to_string()));
    assert_eq!(info.video_path, None);
}

#[test]
fn dry_run_counts_aliases_in() {
    let chars = vec![(1, "aria".to_string(), "Aria".to_string())];
    let costumes = vec![(10, 1, "default".to_string(), "Default".to_string())];
    let folders = vec![folder("Songbird base idle", "lib/x/Songbird base idle")];
    let plain = mods_import_dry_run(None, &folders, None, None, &chars, &costumes, &[]);
    assert_eq!((plain[0].character_id, plain[0].costume_id), (None, None));
    let aliases = vec![
        (EntityType::Character, 1, "Songbird".to_string()),
        (EntityType::Costume, 10, "Base".to_string()),
        (EntityType::Costume, 11, "Songbird".to_string()),
    ];
    let found = mods_import_dry_run(None, &folders, None, None, &chars, &costumes, &aliases);
    assert_eq!((found[0].character_id, found[0].costume_id), (Some(1), Some(10)));
    assert!(found[0].infer_confidence.two_hundredths > 0);
    let mut store = CatalogStore::new();
    assert!(db_aliases(&store).is_empty());
    mods_handler::catalog::upsert_alias(&mut store, EntityType::Costume, 10, "Base");
    assert_eq!(db_aliases(&store), vec![(EntityType::Costume, 10, "Base".to_string())]);
}
