//! The two classifiers of a folder name: what kind of mod it holds, and who
//! made it. Both look for the aliases of a fixed table inside the sanitized
//! name; the longest alias found decides, and of two equally long ones the
//! one that stands first in the table.

use crate::text::{
    chars_of, contains, has_substring, is_plain_ascii, lowered, only_alnum, sanitize, sanitized,
};
use crate::types::{kind_of, ModType};
use vstd::prelude::*;

verus! {

/// An alias table as contracts see it: pairs of an alias and the canonical
/// value it stands for, in the order of priority.
pub type AliasTable = Seq<(Seq<char>, Seq<char>)>;

/// The table behind a vector of alias pairs.
pub open spec fn table_view(t: Seq<(&'static str, &'static str)>) -> AliasTable {
    Seq::new(t.len(), |i: int| (t[i].0@, t[i].1@))
}

/// Entry `i` of the table occurs in `name`.
pub open spec fn matches_at(table: AliasTable, name: Seq<char>, i: int) -> bool {
    0 <= i < table.len() && has_substring(name, table[i].0)
}

/// Entry `a` takes precedence over entry `b`: its alias is longer, or as long
/// and earlier in the table.
pub open spec fn outranks(table: AliasTable, a: int, b: int) -> bool {
    table[a].0.len() > table[b].0.len() || (table[a].0.len() == table[b].0.len() && a < b)
}

/// Entry `i` occurs in `name`, and no other of the first `k` entries that
/// occurs in `name` takes precedence over it.
pub open spec fn is_best_upto(table: AliasTable, name: Seq<char>, i: int, k: int) -> bool {
    &&& matches_at(table, name, i)
    &&& i < k
    &&& forall|j: int| 0 <= j < k && #[trigger] matches_at(table, name, j) ==> !outranks(table, j, i)
}

/// Entry `i` is the one that decides for `name`.
pub open spec fn is_best(table: AliasTable, name: Seq<char>, i: int) -> bool {
    is_best_upto(table, name, i, table.len() as int)
}

/// The entry that decides for `name`, if any alias occurs in it.
pub open spec fn best_index(table: AliasTable, name: Seq<char>) -> Option<int> {
    if exists|i: int| is_best(table, name, i) {
        Some(choose|i: int| is_best(table, name, i))
    } else {
        None
    }
}

/// The canonical value for a sanitized name: that of the deciding entry, and
/// `fallback` where the name is empty or holds no alias.
pub open spec fn classified(table: AliasTable, name: Seq<char>, fallback: Seq<char>) -> Seq<char> {
    if name.len() == 0 {
        fallback
    } else {
        match best_index(table, name) {
            Some(i) => table[i].1,
            None => fallback,
        }
    }
}

/// The aliases of the mod types.
pub open spec fn type_alias_table() -> AliasTable {
    seq![
        ("idle"@, "idle"@),
        ("standing"@, "idle"@),
        ("stand"@, "idle"@),
        ("idleanim"@, "idle"@),
        ("loop"@, "idle"@),
        ("lobby"@, "idle"@),
        ("illustration"@, "idle"@),
        ("illust"@, "idle"@),
        ("burst"@, "cutscene"@),
        ("cutscene"@, "cutscene"@),
        ("cut"@, "cutscene"@),
        ("cs"@, "cutscene"@),
        ("skillcut"@, "cutscene"@),
        ("stkillcut"@, "cutscene"@),
        ("skullcut"@, "cutscene"@),
        ("skillcit"@, "cutscene"@),
        ("specialillustration"@, "cutscene"@),
        ("specialillust"@, "cutscene"@),
        ("history"@, "history"@),
        ("story"@, "history"@),
        ("plot"@, "history"@),
        ("date"@, "date"@),
        ("dating"@, "date"@),
        ("minigame"@, "minigame"@),
        ("swap"@, "swap"@),
    ]
}

/// The aliases of the known authors.
pub open spec fn author_alias_table() -> AliasTable {
    seq![("mrmiagi"@, "MrMiagi"@)]
}

/// The mod type that a folder name stands for.
pub open spec fn mod_type_of(folder: Seq<char>) -> ModType {
    kind_of(classified(type_alias_table(), sanitized(folder), "other"@))
}

/// The author that a folder name stands for.
pub open spec fn author_of(folder: Seq<char>) -> Seq<char> {
    classified(author_alias_table(), sanitized(folder), "unknown"@)
}

/// At most one entry decides.
pub proof fn lemma_best_unique(table: AliasTable, name: Seq<char>, i: int, j: int)
    requires
        is_best(table, name, i),
        is_best(table, name, j),
    ensures
        i == j,
{
    assert(matches_at(table, name, i));
    assert(matches_at(table, name, j));
}

/// An entry that decides is the one that `best_index` names.
pub proof fn lemma_best_index(table: AliasTable, name: Seq<char>, i: int)
    requires
        is_best(table, name, i),
    ensures
        best_index(table, name) == Some(i),
{
    let c = choose|c: int| is_best(table, name, c);
    lemma_best_unique(table, name, i, c);
}

/// Among the first `k` entries, one decides as soon as one occurs in the name.
pub proof fn lemma_best_exists_upto(table: AliasTable, name: Seq<char>, k: int) -> (b: int)
    requires
        0 <= k <= table.len(),
        exists|j: int| 0 <= j < k && matches_at(table, name, j),
    ensures
        is_best_upto(table, name, b, k),
    decreases k,
{
    let last = k - 1;
    if exists|j: int| 0 <= j < last && matches_at(table, name, j) {
        let prev = lemma_best_exists_upto(table, name, last);
        if matches_at(table, name, last) && outranks(table, last, prev) {
            last
        } else {
            prev
        }
    } else {
        assert(matches_at(table, name, last));
        last
    }
}

/// The longest alias decides: an entry is never chosen while an entry with a
/// longer alias, or an earlier one with an alias as long, occurs in the
/// name too.
pub proof fn lemma_longest_alias_decides(table: AliasTable, name: Seq<char>, j: int)
    requires
        matches_at(table, name, j),
    ensures
        best_index(table, name) matches Some(b) && is_best(table, name, b) && !outranks(
            table,
            j,
            b,
        ) && table[b].0.len() >= table[j].0.len(),
{
    let b = lemma_best_exists_upto(table, name, table.len() as int);
    lemma_best_index(table, name, b);
}

/// A canonical value is the result whenever one of its aliases occurs in the
/// name and each occurring alias of another value is outranked by an
/// occurring alias of this one.
pub proof fn lemma_value_wins(table: AliasTable, name: Seq<char>, value: Seq<char>)
    requires
        exists|k: int| matches_at(table, name, k) && table[k].1 == value,
        forall|j: int| #[trigger]
            matches_at(table, name, j) && table[j].1 != value ==> exists|k: int|
                matches_at(table, name, k) && table[k].1 == value && outranks(table, k, j),
    ensures
        best_index(table, name) matches Some(b) && table[b].1 == value,
{
    let k0 = choose|k: int| matches_at(table, name, k) && table[k].1 == value;
    lemma_longest_alias_decides(table, name, k0);
    let b = best_index(table, name)->0;
    if table[b].1 != value {
        assert(matches_at(table, name, b));
        let k = choose|k: int|
            matches_at(table, name, k) && table[k].1 == value && outranks(table, k, b);
        assert(matches_at(table, name, k));
    }
}

/// A folder name whose sanitized form holds "cutscene" is a cutscene mod, the
/// shorter alias "cut" notwithstanding, unless an alias of another type
/// that occurs in it is outranked by no occurring alias of a cutscene.
pub proof fn lemma_cutscene_over_cut(folder: Seq<char>)
    requires
        has_substring(sanitized(folder), "cutscene"@),
        forall|j: int| #[trigger]
            matches_at(type_alias_table(), sanitized(folder), j) && type_alias_table()[j].1
                != "cutscene"@ ==> exists|k: int|
                matches_at(type_alias_table(), sanitized(folder), k) && type_alias_table()[k].1
                    == "cutscene"@ && outranks(type_alias_table(), k, j),
    ensures
        mod_type_of(folder) == ModType::Cutscene,
{
    let table = type_alias_table();
    let name = sanitized(folder);
    reveal_strlit("cutscene");
    reveal_strlit("idle");
    let at = choose|i: int| crate::text::occurs_at(name, "cutscene"@, i);
    assert(name.len() >= 8);
    assert(table[9] == ("cutscene"@, "cutscene"@));
    assert(matches_at(table, name, 9));
    lemma_value_wins(table, name, "cutscene"@);
}

/// The aliases of the mod types, in the order of priority.
pub fn type_aliases() -> (out: Vec<(&'static str, &'static str)>)
    ensures
        table_view(out@) == type_alias_table(),
{
    let out = vec![
        ("idle", "idle"),
        ("standing", "idle"),
        ("stand", "idle"),
        ("idleanim", "idle"),
        ("loop", "idle"),
        ("lobby", "idle"),
        ("illustration", "idle"),
        ("illust", "idle"),
        ("burst", "cutscene"),
        ("cutscene", "cutscene"),
        ("cut", "cutscene"),
        ("cs", "cutscene"),
        ("skillcut", "cutscene"),
        ("stkillcut", "cutscene"),
        ("skullcut", "cutscene"),
        ("skillcit", "cutscene"),
        ("specialillustration", "cutscene"),
        ("specialillust", "cutscene"),
        ("history", "history"),
        ("story", "history"),
        ("plot", "history"),
        ("date", "date"),
        ("dating", "date"),
        ("minigame", "minigame"),
        ("swap", "swap"),
    ];
    assert(table_view(out@) =~= type_alias_table());
    out
}

/// The aliases of the known authors, in the order of priority.
pub fn author_aliases() -> (out: Vec<(&'static str, &'static str)>)
    ensures
        table_view(out@) == author_alias_table(),
{
    let out = vec![("mrmiagi", "MrMiagi")];
    assert(table_view(out@) =~= author_alias_table());
    out
}

/// Finds the entry of `table` that decides for the sanitized `name`.
pub fn best_alias(table: &Vec<(&'static str, &'static str)>, name: &Vec<char>) -> (out: Option<
    usize,
>)
    ensures
        match out {
            Some(i) => best_index(table_view(table@), name@) == Some(i as int),
            None => best_index(table_view(table@), name@) is None,
        },
{
    let ghost tv = table_view(table@);
    let mut best: Option<(usize, usize)> = None;
    let mut k: usize = 0;
    while k < table.len()
        invariant
            0 <= k <= table.len(),
            tv == table_view(table@),
            match best {
                Some((i, len)) => is_best_upto(tv, name@, i as int, k as int) && len
                    == tv[i as int].0.len(),
                None => forall|j: int| 0 <= j < k ==> !matches_at(tv, name@, j),
            },
        decreases table.len() - k,
    {
        let alias = chars_of(table[k].0);
        assert(tv[k as int].0 == alias@);
        if contains(name, &alias) {
            assert(matches_at(tv, name@, k as int));
            match best {
                Some((_, len)) if len >= alias.len() => {},
                _ => {
                    best = Some((k, alias.len()));
                },
            }
        }
        k += 1;
    }
    match best {
        Some((i, _)) => {
            proof {
                lemma_best_index(tv, name@, i as int);
            }
            Some(i)
        },
        None => {
            proof {
                if exists|i: int| is_best(tv, name@, i) {
                    let i = choose|i: int| is_best(tv, name@, i);
                    assert(matches_at(tv, name@, i));
                }
            }
            None
        },
    }
}

/// The canonical value of `table` for a folder name, or `fallback`.
pub fn classify(table: &Vec<(&'static str, &'static str)>, folder_name: &str, fallback: &str) -> (out:
    String)
    ensures
        out@ == classified(table_view(table@), sanitized(folder_name@), fallback@),
        is_plain_ascii(folder_name@) ==> out@ == classified(
            table_view(table@),
            only_alnum(lowered(folder_name@)),
            fallback@,
        ),
{
    let name = sanitize(folder_name);
    if name.len() == 0 {
        return fallback.to_owned();
    }
    match best_alias(table, &name) {
        Some(i) => table[i].1.to_owned(),
        None => fallback.to_owned(),
    }
}

/// The kind of mod that a folder name stands for: the type of the longest
/// alias in its sanitized form, and `Other` where there is none.
pub fn infer_mod_type(folder_name: &str) -> (out: ModType)
    ensures
        out == mod_type_of(folder_name@),
        is_plain_ascii(folder_name@) ==> out == kind_of(
            classified(type_alias_table(), only_alnum(lowered(folder_name@)), "other"@),
        ),
{
    let table = type_aliases();
    let value = classify(&table, folder_name, "other");
    ModType::from_str(value.as_str())
}

/// The author that a folder name stands for: the canonical name of the
/// longest alias in its sanitized form, and "unknown" where there is none.
pub fn infer_author_name(folder_name: &str) -> (out: String)
    ensures
        out@ == author_of(folder_name@),
        is_plain_ascii(folder_name@) ==> out@ == classified(
            author_alias_table(),
            only_alnum(lowered(folder_name@)),
            "unknown"@,
        ),
{
    let table = author_aliases();
    classify(&table, folder_name, "unknown")
}

} // verus!
