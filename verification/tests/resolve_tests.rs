use mods_handler::catalog::EntityType;
use mods_handler::resolve::{
    confidence, infer_character_costume, infer_with_aliases, resolve_scored, score_aliases,
    score_entity,
};
use mods_handler::types::Confidence;

fn conf(n: u8) -> Confidence {
    Confidence { two_hundredths: n }
}

#[test]
fn best_character_and_its_best_costume() {
    let chars = vec![(1, 50), (2, 80), (3, 80)];
    let costumes = vec![(10, 2, 30), (11, 2, 30), (12, 3, 99), (13, 1, 100)];
    assert_eq!(resolve_scored(&chars, &costumes), (Some(2), Some(10), conf(110)));
}

#[test]
fn later_higher_score_wins() {
    let chars = vec![(1, 50), (2, 80), (3, 81)];
    let costumes = vec![(10, 3, 5), (11, 3, 7), (12, 2, 99)];
    assert_eq!(resolve_scored(&chars, &costumes), (Some(3), Some(11), conf(88)));
}

#[test]
fn character_alone_scores_over_one_hundred() {
    assert_eq!(resolve_scored(&vec![(7, 40)], &vec![]), (Some(7), None, conf(80)));
    assert_eq!(resolve_scored(&vec![(7, 40)], &vec![(1, 8, 90)]), (Some(7), None, conf(80)));
    assert_eq!(resolve_scored(&vec![(7, 40)], &vec![(1, 7, 0)]), (Some(7), None, conf(80)));
    assert_eq!(resolve_scored(&vec![(7, 40)], &vec![(1, 7, -3)]), (Some(7), None, conf(80)));
}

#[test]
fn confidence_is_held_between_zero_and_one() {
    assert_eq!(resolve_scored(&vec![(7, 500)], &vec![]), (Some(7), None, conf(200)));
    assert_eq!(resolve_scored(&vec![(7, 150)], &vec![(1, 7, 60)]), (Some(7), Some(1), conf(200)));
    assert_eq!(
        resolve_scored(&vec![(7, i64::MAX)], &vec![(1, 7, i64::MAX)]),
        (Some(7), Some(1), conf(200))
    );
    assert_eq!(confidence(i64::MIN, Some(i64::MIN)), conf(0));
    assert_eq!(confidence(i64::MIN, None), conf(0));
    assert_eq!(confidence(i64::MAX, Some(i64::MIN)), conf(0));
    assert_eq!(confidence(100, Some(100)), conf(200));
    assert_eq!(confidence(100, None), conf(200));
    assert_eq!(confidence(1, None), conf(2));
    assert_eq!(confidence(1, Some(1)), conf(2));
    assert_eq!(confidence(99, Some(100)), conf(199));
}

#[test]
fn no_positive_score_is_no_match() {
    assert_eq!(resolve_scored(&vec![], &vec![]), (None, None, conf(0)));
    assert_eq!(resolve_scored(&vec![], &vec![(1, 1, 50)]), (None, None, conf(0)));
    assert_eq!(resolve_scored(&vec![(1, 0), (2, 0)], &vec![(1, 1, 50)]), (None, None, conf(0)));
    assert_eq!(resolve_scored(&vec![(1, -5), (2, -1)], &vec![(1, 2, 50)]), (None, None, conf(0)));
}

fn catalog() -> (Vec<(i64, String, String)>, Vec<(i64, i64, String, String)>) {
    let chars = vec![
        (1, "aria".to_string(), "Aria".to_string()),
        (2, "bruno".to_string(), "Bruno".to_string()),
    ];
    let costumes = vec![
        (10, 1, "default".to_string(), "Default".to_string()),
        (11, 1, "summer".to_string(), "Summer".to_string()),
        (20, 2, "default".to_string(), "Default".to_string()),
    ];
    (chars, costumes)
}

#[test]
fn folder_name_resolves_to_character_and_costume() {
    let (chars, costumes) = catalog();
    let (ch, co, c) = infer_character_costume("Aria_Default_Idle_v2", &chars, &costumes);
    assert_eq!(ch, Some(1));
    assert_eq!(co, Some(10));
    assert!(c.two_hundredths > 100);
    assert!(c.two_hundredths <= 200);
    let (ch, co, _) = infer_character_costume("[Bruno] default", &chars, &costumes);
    assert_eq!((ch, co), (Some(2), Some(20)));
    let (ch, co, _) = infer_character_costume("ARIA-SUMMER", &chars, &costumes);
    assert_eq!((ch, co), (Some(1), Some(11)));
}

#[test]
fn folder_name_that_matches_nothing() {
    let (chars, costumes) = catalog();
    assert_eq!(infer_character_costume("zzz", &chars, &costumes), (None, None, conf(0)));
    assert_eq!(infer_character_costume("", &chars, &costumes), (None, None, conf(0)));
    assert_eq!(infer_character_costume("Aria", &[], &costumes), (None, None, conf(0)));
}

#[test]
fn character_without_matching_costume() {
    let (chars, costumes) = catalog();
    let (ch, co, c) = infer_character_costume("Bruno xyz", &chars, &costumes);
    assert_eq!((ch, co), (Some(2), None));
    assert!(c.two_hundredths > 0 && c.two_hundredths <= 200);
}

#[test]
fn score_is_the_better_of_slug_and_lowercased_name() {
    assert!(score_entity("aria default", "aria", "zzz") > 0);
    assert_eq!(score_entity("aria default", "qqq", "zzz"), 0);
    // The display name is matched in lower case.
    assert!(score_entity("aria default", "qqq", "ARIA") > 0);
    assert_eq!(
        score_entity("aria default", "qqq", "ARIA"),
        score_entity("aria default", "aria", "zzz")
    );
    // A longer match scores higher.
    assert!(score_entity("aria default", "default", "x") > score_entity("aria default", "aria", "x"));
}

#[test]
fn aliases_raise_a_score_and_never_lower_it() {
    let aliases = vec![
        (EntityType::Character, 1, "Songbird".to_string()),
        (EntityType::Character, 2, "Songbird of the North".to_string()),
        (EntityType::Costume, 1, "Songbird".to_string()),
    ];
    let base = score_entity("songbird idle", "aria", "Aria");
    assert_eq!(base, 0);
    let with = score_aliases("songbird idle", &aliases, EntityType::Character, 1, base);
    assert!(with > 0);
    assert_eq!(with, score_entity("songbird idle", "songbird", "x"));
    assert_eq!(score_aliases("songbird idle", &aliases, EntityType::Character, 3, base), 0);
    assert_eq!(score_aliases("songbird idle", &aliases, EntityType::Character, 1, 10_000), 10_000);
    assert_eq!(score_aliases("songbird idle", &[], EntityType::Character, 1, -4), -4);
    let (chars, costumes) = catalog();
    assert_eq!(
        infer_with_aliases("Aria_Default_Idle_v2", &chars, &costumes, &[]),
        infer_character_costume("Aria_Default_Idle_v2", &chars, &costumes)
    );
    let (ch, co, _) = infer_with_aliases("songbird", &chars, &costumes, &aliases);
    assert_eq!((ch, co), (Some(1), None));
}
