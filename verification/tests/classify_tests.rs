use mods_handler::classify::{
    author_aliases, best_alias, classify, infer_author_name, infer_mod_type, type_aliases,
};
use mods_handler::text::{
    blank, chars_of, contains, join_tokens, norm_tokens, sanitize, slugify, split_words,
    string_of, trim,
};
use mods_handler::types::{ModType, PreviewKind};

fn chars(s: &str) -> Vec<char> {
    s.chars().collect()
}

#[test]
fn mod_type_of_plain_idle_folder() {
    assert_eq!(infer_mod_type("Aria_Default_Idle_v2"), ModType::Idle);
}

#[test]
fn longer_alias_beats_shorter_one() {
    assert_eq!(infer_mod_type("Aria cutscene pack"), ModType::Cutscene);
    assert_eq!(infer_mod_type("short cut"), ModType::Cutscene);
    let table = type_aliases();
    let name = chars("ariacutscenepack");
    assert_eq!(best_alias(&table, &name), Some(9));
    assert_eq!(table[9].0, "cutscene");
}

#[test]
fn equally_long_aliases_go_by_table_order() {
    // "standing" and "cutscene" are equally long; "standing" stands first.
    assert_eq!(infer_mod_type("standing_cutscene"), ModType::Idle);
    let table = type_aliases();
    assert_eq!(best_alias(&table, &chars("standingcutscene")), Some(1));
    // "cutscene" stands before "minigame".
    assert_eq!(infer_mod_type("minigame cutscene"), ModType::Cutscene);
}

#[test]
fn longest_alias_of_all_wins() {
    assert_eq!(infer_mod_type("Special Illustration - lobby"), ModType::Cutscene);
    assert_eq!(infer_mod_type("illustration_cut"), ModType::Idle);
}

#[test]
fn types_unknown_to_the_store_become_other() {
    assert_eq!(infer_mod_type("story part 1"), ModType::Other);
    assert_eq!(infer_mod_type("MiniGame"), ModType::Other);
    assert_eq!(infer_mod_type("swap"), ModType::Other);
    assert_eq!(classify(&type_aliases(), "MiniGame", "other"), "minigame");
    assert_eq!(classify(&type_aliases(), "the plot", "other"), "history");
}

#[test]
fn names_without_alias_or_without_letters_are_other() {
    assert_eq!(infer_mod_type(""), ModType::Other);
    assert_eq!(infer_mod_type("___---!!!"), ModType::Other);
    assert_eq!(infer_mod_type("Aria"), ModType::Other);
    assert_eq!(best_alias(&type_aliases(), &chars("aria")), None);
}

#[test]
fn classifier_transliterates_before_it_looks() {
    assert_eq!(infer_mod_type("Ídlé"), ModType::Idle);
    assert_eq!(infer_mod_type("DÀTE night"), ModType::Date);
    assert_eq!(sanitize("Ídlé-1"), chars("idle1"));
}

#[test]
fn author_is_read_from_alias() {
    assert_eq!(infer_author_name("Mr.Miagi - mods"), "MrMiagi");
    assert_eq!(infer_author_name("MRMIAGI"), "MrMiagi");
    assert_eq!(infer_author_name("somebody else"), "unknown");
    assert_eq!(infer_author_name(""), "unknown");
    assert_eq!(infer_author_name("***"), "unknown");
    assert_eq!(author_aliases().len(), 1);
}

#[test]
fn mod_type_names_round_trip() {
    let all = [
        (ModType::Idle, "idle"),
        (ModType::Cutscene, "cutscene"),
        (ModType::Date, "date"),
        (ModType::Battle, "battle"),
        (ModType::Ui, "ui"),
        (ModType::Other, "other"),
    ];
    for (t, name) in all {
        assert_eq!(t.to_string(), name);
        assert_eq!(ModType::from_str(name), t);
    }
    assert_eq!(ModType::from_str("history"), ModType::Other);
    assert_eq!(ModType::from_str("Idle"), ModType::Other);
    assert_eq!(ModType::from_str(""), ModType::Other);
}

#[test]
fn preview_kinds_name_their_files() {
    assert_eq!(PreviewKind::Image.target_name(), "preview.png");
    assert_eq!(PreviewKind::Video.target_name(), "preview.mp4");
    assert_eq!(PreviewKind::Image.label(), "image");
    assert_eq!(PreviewKind::Video.label(), "video");
}

#[test]
fn tokens_are_lowercase_ascii_words() {
    assert_eq!(norm_tokens("Aria_Default  Idle-v2"), vec!["aria", "default", "idle", "v2"]);
    assert_eq!(norm_tokens("  "), Vec::<String>::new());
    assert_eq!(norm_tokens(""), Vec::<String>::new());
    assert_eq!(norm_tokens("Ünï Cödé"), vec!["uni", "code"]);
    assert_eq!(join_tokens("Aria_Default  Idle-v2", ' '), "aria default idle v2");
}

#[test]
fn slug_is_hyphenated_lowercase_ascii() {
    assert_eq!(slugify("Aria the Brave!"), "aria-the-brave");
    assert_eq!(slugify("  Élodie  "), "elodie");
    assert_eq!(slugify("Default"), "default");
    assert_eq!(slugify("--"), "");
    assert_eq!(slugify("北京"), "bei-jing");
}

#[test]
fn words_are_maximal_runs() {
    let words = split_words(&chars("ab, c9__d"));
    assert_eq!(words, vec![chars("ab"), chars("c9"), chars("d")]);
    assert_eq!(split_words(&chars("")), Vec::<Vec<char>>::new());
    assert_eq!(split_words(&chars("x")), vec![chars("x")]);
}

#[test]
fn trim_removes_white_space_at_both_ends() {
    assert_eq!(trim("  a b \t\n"), "a b");
    assert_eq!(trim("\u{3000}x\u{a0}"), "x");
    assert_eq!(trim(""), "");
    assert_eq!(trim(" \t "), "");
    assert_eq!(trim("abc"), "abc");
    assert!(blank("  \n"));
    assert!(blank(""));
    assert!(!blank(" . "));
}

#[test]
fn substring_search_finds_every_position() {
    assert!(contains(&chars("standingcutscene"), &chars("cut")));
    assert!(contains(&chars("abc"), &chars("abc")));
    assert!(contains(&chars("abc"), &chars("")));
    assert!(contains(&chars("aab"), &chars("ab")));
    assert!(!contains(&chars("abc"), &chars("abcd")));
    assert!(!contains(&chars("abc"), &chars("ca")));
    assert!(!contains(&chars(""), &chars("a")));
}

#[test]
fn characters_and_strings_convert_both_ways() {
    assert_eq!(chars_of("héllo"), chars("héllo"));
    assert_eq!(string_of(&chars("héllo")), "héllo");
    assert_eq!(chars_of(""), Vec::<char>::new());
}
