use mods_handler::catalog::{
    catalog_import_from_file, character_id_list, costume_id_list, db_characters, db_costumes, has_character, load_from_str, holds_id, next_free_id, plan_sync, str_eq, sync_builtin,
    sync_from_path, sync_records, upsert_alias, upsert_character, upsert_costume, CatalogCharacterRow,
    CatalogOp, CatalogShape, CatalogStore, EntityType,
};
use mods_handler::types::{CatalogCharacter, CatalogCostume, CatalogReport};

fn costume(slug: &str, name: &str, aliases: &[&str]) -> CatalogCostume {
    CatalogCostume {
        slug: slug.to_string(),
        display_name: name.to_string(),
        aliases: aliases.iter().map(|a| a.to_string()).collect(),
    }
}

fn character(slug: &str, name: &str, aliases: &[&str], costumes: Vec<CatalogCostume>) -> CatalogCharacter {
    CatalogCharacter {
        slug: slug.to_string(),
        display_name: name.to_string(),
        aliases: aliases.iter().map(|a| a.to_string()).collect(),
        costumes,
    }
}

fn sample() -> Vec<CatalogCharacter> {
    vec![
        character(
            "aria",
            "Aria",
            &["ari", "  ", "ari"],
            vec![costume("default", "Default", &["base"]), costume("summer", "Summer", &[])],
        ),
        character("bruno", "Bruno", &[], vec![costume("default", "Default", &["base"])]),
    ]
}

#[test]
fn sync_inserts_characters_costumes_and_aliases() {
    let mut store = CatalogStore::new();
    let report = sync_records(&mut store, sample()).unwrap();
    assert_eq!(report, CatalogReport { characters: 2, costumes: 3 });
    assert_eq!(store.characters.len(), 2);
    assert_eq!(store.costumes.len(), 3);
    assert_eq!(
        store.characters[0],
        CatalogCharacterRow { id: 1, slug: "aria".into(), display_name: "Aria".into() }
    );
    assert_eq!(store.characters[1].id, 2);
    let ids: Vec<(i64, i64, &str)> =
        store.costumes.iter().map(|c| (c.id, c.character_id, c.slug.as_str())).collect();
    assert_eq!(ids, vec![(1, 1, "default"), (2, 1, "summer"), (3, 2, "default")]);
    let aliases: Vec<(EntityType, i64, &str)> = store
        .aliases
        .iter()
        .map(|a| (a.entity_type, a.entity_id, a.alias_text.as_str()))
        .collect();
    assert_eq!(
        aliases,
        vec![
            (EntityType::Character, 1, "ari"),
            (EntityType::Costume, 1, "base"),
            (EntityType::Costume, 3, "base"),
        ]
    );
}

#[test]
fn sync_twice_changes_nothing() {
    let mut store = CatalogStore::new();
    let first = sync_records(&mut store, sample()).unwrap();
    let once = store.clone();
    let second = sync_records(&mut store, sample()).unwrap();
    assert_eq!(first, second);
    assert_eq!(store, once);
    for (i, a) in store.aliases.iter().enumerate() {
        for b in &store.aliases[i + 1..] {
            assert_ne!(a, b);
        }
    }
}

#[test]
fn overlapping_sync_updates_names_and_deletes_nothing() {
    let mut store = CatalogStore::new();
    sync_records(&mut store, sample()).unwrap();
    let next = vec![
        character("aria", "Aria the Brave", &["hero"], vec![costume("winter", "Winter", &[])]),
        character("cleo", "Cleo", &[], vec![]),
    ];
    let report = sync_records(&mut store, next).unwrap();
    assert_eq!(report, CatalogReport { characters: 2, costumes: 1 });
    let chars: Vec<(i64, &str, &str)> = store
        .characters
        .iter()
        .map(|c| (c.id, c.slug.as_str(), c.display_name.as_str()))
        .collect();
    assert_eq!(
        chars,
        vec![(1, "aria", "Aria the Brave"), (2, "bruno", "Bruno"), (3, "cleo", "Cleo")]
    );
    assert_eq!(store.costumes.len(), 4);
    assert_eq!(store.costumes[3].character_id, 1);
    assert_eq!(store.costumes[3].id, 4);
    assert_eq!(store.aliases.len(), 4);
}

#[test]
fn same_slug_twice_in_one_list_keeps_the_last_name() {
    let mut store = CatalogStore::new();
    let items = vec![character("aria", "A", &[], vec![]), character("aria", "B", &[], vec![])];
    let report = sync_records(&mut store, items).unwrap();
    assert_eq!(report, CatalogReport { characters: 2, costumes: 0 });
    assert_eq!(store.characters.len(), 1);
    assert_eq!(store.characters[0].display_name, "B");
}

#[test]
fn upserts_return_the_id_of_the_row() {
    let mut store = CatalogStore::new();
    assert_eq!(upsert_character(&mut store, "aria", "Aria"), Ok(1));
    assert_eq!(upsert_character(&mut store, "bruno", "Bruno"), Ok(2));
    assert_eq!(upsert_character(&mut store, "aria", "ARIA"), Ok(1));
    assert_eq!(store.characters[0].display_name, "ARIA");
    assert_eq!(store.characters[0].slug, "aria");
    assert_eq!(upsert_costume(&mut store, 1, "default", "Default"), Ok(1));
    assert_eq!(upsert_costume(&mut store, 2, "default", "Default"), Ok(2));
    assert_eq!(upsert_costume(&mut store, 1, "default", "Base"), Ok(1));
    assert_eq!(store.costumes.len(), 2);
    assert_eq!(store.costumes[0].display_name, "Base");
}

#[test]
fn alias_is_inserted_once_and_never_when_blank() {
    let mut store = CatalogStore::new();
    upsert_alias(&mut store, EntityType::Character, 1, "ari");
    upsert_alias(&mut store, EntityType::Character, 1, "ari");
    upsert_alias(&mut store, EntityType::Character, 1, "   ");
    upsert_alias(&mut store, EntityType::Character, 1, "");
    upsert_alias(&mut store, EntityType::Costume, 1, "ari");
    upsert_alias(&mut store, EntityType::Character, 2, "ari");
    assert_eq!(store.aliases.len(), 3);
    assert_eq!(EntityType::Character.to_string(), "character");
    assert_eq!(EntityType::Costume.to_string(), "costume");
}

#[test]
fn a_catalog_whose_largest_id_is_the_last_still_takes_new_rows() {
    let mut store = CatalogStore::new();
    store.characters.push(CatalogCharacterRow {
        id: i64::MAX,
        slug: "last".into(),
        display_name: "Last".into(),
    });
    assert_eq!(upsert_character(&mut store, "new", "New"), Ok(i64::MIN));
    assert_eq!(upsert_character(&mut store, "last", "Still"), Ok(i64::MAX));
    assert_eq!(
        sync_records(&mut store, sample()),
        Ok(CatalogReport { characters: 2, costumes: 3 })
    );
    assert_eq!(character_id_list(&store), vec![i64::MAX, i64::MIN, i64::MIN + 1, i64::MIN + 2]);
    assert_eq!(costume_id_list(&store), vec![1, 2, 3]);
    assert_eq!(store.costumes[0].character_id, i64::MIN + 1);
}

#[test]
fn the_next_id_follows_the_largest_or_is_the_least_that_is_free() {
    assert_eq!(next_free_id(&vec![]), 1);
    assert_eq!(next_free_id(&vec![-5, -9]), 1);
    assert_eq!(next_free_id(&vec![3, 7, 5]), 8);
    assert_eq!(next_free_id(&vec![i64::MAX - 1]), i64::MAX);
    assert_eq!(next_free_id(&vec![i64::MAX]), i64::MIN);
    assert_eq!(next_free_id(&vec![i64::MIN, i64::MAX, i64::MIN + 1, 4]), i64::MIN + 2);
    assert!(holds_id(&vec![3, 7], 7));
    assert!(!holds_id(&vec![3, 7], 5));
    assert!(!holds_id(&vec![], 0));
}

#[test]
fn plan_lists_the_steps_in_order() {
    let (ops, costumes) = plan_sync(&sample());
    assert_eq!(costumes, 3);
    assert_eq!(ops.len(), 10);
    assert_eq!(
        ops[0],
        CatalogOp::Character { slug: "aria".into(), display_name: "Aria".into() }
    );
    assert_eq!(ops[1], CatalogOp::CharacterAlias { alias: "ari".into() });
    assert_eq!(
        ops[4],
        CatalogOp::Costume { slug: "default".into(), display_name: "Default".into() }
    );
    assert_eq!(ops[5], CatalogOp::CostumeAlias { alias: "base".into() });
    assert_eq!(
        ops[7],
        CatalogOp::Character { slug: "bruno".into(), display_name: "Bruno".into() }
    );
}

#[test]
fn catalog_text_announces_its_shape() {
    assert_eq!(load_from_str("  [ {\"slug\":\"a\"} ]\n"), ("[ {\"slug\":\"a\"} ]".to_string(), CatalogShape::BareList));
    assert_eq!(
        load_from_str("\n{\"characters\": []}"),
        ("{\"characters\": []}".to_string(), CatalogShape::Wrapper)
    );
    assert_eq!(load_from_str("   "), (String::new(), CatalogShape::Wrapper));
}

#[test]
fn a_catalog_that_was_not_loaded_is_not_synced() {
    let mut store = CatalogStore::new();
    sync_records(&mut store, sample()).unwrap();
    let before = store.clone();
    assert_eq!(
        sync_from_path(&mut store, Err("expected value at line 1".to_string())),
        Err("expected value at line 1".to_string())
    );
    assert_eq!(sync_builtin(&mut store, Err("bad".to_string())), Err("bad".to_string()));
    assert_eq!(store, before);
    assert_eq!(
        sync_from_path(&mut store, Ok(sample())),
        Ok(CatalogReport { characters: 2, costumes: 3 })
    );
    assert_eq!(sync_builtin(&mut store, Ok(vec![])), Ok(CatalogReport { characters: 0, costumes: 0 }));
    assert_eq!(store, before);
}

#[test]
fn strings_compare_by_their_characters() {
    assert!(str_eq("aria", "aria"));
    assert!(str_eq("", ""));
    assert!(!str_eq("aria", "Aria"));
    assert!(!str_eq("aria", "ari"));
}

#[test]
fn snapshot_lists_rows_in_store_order() {
    let mut store = CatalogStore::new();
    sync_records(&mut store, sample()).unwrap();
    assert_eq!(
        db_characters(&store),
        vec![(1, "aria".to_string(), "Aria".to_string()), (2, "bruno".to_string(), "Bruno".to_string())]
    );
    let costumes = db_costumes(&store);
    assert_eq!(costumes.len(), 3);
    assert_eq!(costumes[2], (3, 2, "default".to_string(), "Default".to_string()));
    assert!(db_characters(&CatalogStore::new()).is_empty());
}

#[test]
fn an_empty_path_names_no_catalog_file() {
    assert_eq!(catalog_import_from_file("  "), Err("path is empty".to_string()));
    assert_eq!(catalog_import_from_file(""), Err("path is empty".to_string()));
    assert_eq!(catalog_import_from_file(" data/catalog.json\n"), Ok("data/catalog.json".to_string()));
}

#[test]
fn a_costume_needs_its_character() {
    let mut store = CatalogStore::new();
    assert!(upsert_costume(&mut store, 1, "default", "Default").is_err());
    assert!(store.costumes.is_empty());
    assert_eq!(upsert_character(&mut store, "aria", "Aria"), Ok(1));
    assert!(has_character(&store, 1));
    assert!(!has_character(&store, 2));
    assert!(upsert_costume(&mut store, 2, "default", "Default").is_err());
    assert_eq!(upsert_costume(&mut store, 1, "default", "Default"), Ok(1));
    for c in &store.costumes {
        assert!(store.characters.iter().any(|ch| ch.id == c.character_id));
    }
}
