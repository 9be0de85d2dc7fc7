//! Matching a folder name against the catalog: the best character, the best
//! costume of that character, and how far the match can be trusted.

use crate::catalog::EntityType;
use crate::text::{join_tokens, query_of};
use crate::types::Confidence;
use vstd::prelude::*;

verus! {

/// The score that the skim matcher of `fuzzy_matcher`, as `Default` builds
/// it, gives to `pattern` inside `choice`; `None` where it finds no match.
pub uninterp spec fn skim_score(choice: Seq<char>, pattern: Seq<char>) -> Option<i64>;

/// The lowercase form that `str::to_lowercase` gives for a string.
pub uninterp spec fn lowercased(s: Seq<char>) -> Seq<char>;

/// Calls `SkimMatcherV2::fuzzy_match` of `fuzzy_matcher` on a matcher built
/// by `Default`. The result depends on the two strings alone; nothing else
/// is claimed of it.
#[verifier::external_body]
pub(crate) fn fuzzy_score(choice: &str, pattern: &str) -> (out: Option<i64>)
    ensures
        out == skim_score(choice@, pattern@),
{
    fuzzy_matcher::FuzzyMatcher::fuzzy_match(
        &fuzzy_matcher::skim::SkimMatcherV2::default(),
        choice,
        pattern,
    )
}

/// Calls `str::to_lowercase`. The result depends on the string alone; nothing
/// else is claimed of it.
#[verifier::external_body]
pub(crate) fn lowercase(s: &str) -> (out: String)
    ensures
        out@ == lowercased(s@),
{
    s.to_lowercase()
}

/// A score, with 0 for no match.
pub open spec fn score_or_zero(o: Option<i64>) -> i64 {
    match o {
        Some(s) => s,
        None => 0,
    }
}

/// The score of a catalog entry for a query: the better of what its slug and
/// its lowercased display name score.
pub open spec fn entity_score(query: Seq<char>, slug: Seq<char>, display: Seq<char>) -> i64 {
    let a = score_or_zero(skim_score(query, slug));
    let b = score_or_zero(skim_score(query, lowercased(display)));
    if a >= b {
        a
    } else {
        b
    }
}

/// The characters of a snapshot with their scores for a query.
pub open spec fn character_scores(query: Seq<char>, chars: Seq<(i64, String, String)>) -> Seq<
    (i64, i64),
> {
    Seq::new(chars.len(), |i: int| (chars[i].0, entity_score(query, chars[i].1@, chars[i].2@)))
}

/// The costumes of a snapshot with their scores for a query.
pub open spec fn costume_scores(query: Seq<char>, costumes: Seq<(i64, i64, String, String)>) -> Seq<
    (i64, i64, i64),
> {
    Seq::new(
        costumes.len(),
        |i: int| (costumes[i].0, costumes[i].1, entity_score(query, costumes[i].2@, costumes[i].3@)),
    )
}

/// Entry `i` has the highest score, and is the first that has it.
pub open spec fn is_top_character(chars: Seq<(i64, i64)>, i: int) -> bool {
    &&& 0 <= i < chars.len()
    &&& forall|j: int| 0 <= j < chars.len() ==> (#[trigger] chars[j]).1 <= chars[i].1
    &&& forall|j: int| 0 <= j < i ==> (#[trigger] chars[j]).1 < chars[i].1
}

/// Costume `k` belongs to character `owner`, has the highest score among the
/// costumes of that character, and is the first of them that has it.
pub open spec fn is_top_costume(costumes: Seq<(i64, i64, i64)>, owner: i64, k: int) -> bool {
    &&& 0 <= k < costumes.len()
    &&& costumes[k].1 == owner
    &&& forall|j: int|
        0 <= j < costumes.len() && (#[trigger] costumes[j]).1 == owner ==> costumes[j].2
            <= costumes[k].2
    &&& forall|j: int|
        0 <= j < k && (#[trigger] costumes[j]).1 == owner ==> costumes[j].2 < costumes[k].2
}

/// The first character with the highest score, if there is any character.
pub open spec fn top_character(chars: Seq<(i64, i64)>) -> Option<int> {
    if exists|i: int| is_top_character(chars, i) {
        Some(choose|i: int| is_top_character(chars, i))
    } else {
        None
    }
}

/// The first costume of `owner` with the highest score, if `owner` has any
/// costume.
pub open spec fn top_costume(costumes: Seq<(i64, i64, i64)>, owner: i64) -> Option<int> {
    if exists|k: int| is_top_costume(costumes, owner, k) {
        Some(choose|k: int| is_top_costume(costumes, owner, k))
    } else {
        None
    }
}

/// The confidence, in two-hundredths, of a character score and of the score
/// of a costume where one matched: their sum over 200, or the character's
/// score over 100, held between 0 and 1.
pub open spec fn confidence_of(character: i64, costume: Option<i64>) -> int {
    let raw = match costume {
        Some(s) => character + s,
        None => 2 * character,
    };
    if raw < 0 {
        0
    } else if raw > 200 {
        200
    } else {
        raw
    }
}

/// What a list of scored characters and scored costumes resolves to: the
/// identifiers of the best character and of its best costume, and the
/// confidence. A score that is not positive is no match.
pub open spec fn resolved(chars: Seq<(i64, i64)>, costumes: Seq<(i64, i64, i64)>) -> (
    Option<i64>,
    Option<i64>,
    Confidence,
) {
    match top_character(chars) {
        None => (None, None, Confidence { two_hundredths: 0 }),
        Some(i) => if chars[i].1 <= 0 {
            (None, None, Confidence { two_hundredths: 0 })
        } else {
            match top_costume(costumes, chars[i].0) {
                None => (
                    Some(chars[i].0),
                    None,
                    Confidence { two_hundredths: confidence_of(chars[i].1, None) as u8 },
                ),
                Some(k) => if costumes[k].2 <= 0 {
                    (
                        Some(chars[i].0),
                        None,
                        Confidence { two_hundredths: confidence_of(chars[i].1, None) as u8 },
                    )
                } else {
                    (
                        Some(chars[i].0),
                        Some(costumes[k].0),
                        Confidence {
                            two_hundredths: confidence_of(chars[i].1, Some(costumes[k].2)) as u8,
                        },
                    )
                },
            }
        },
    }
}

/// What a folder name resolves to against a snapshot of the catalog.
pub open spec fn inferred(
    folder: Seq<char>,
    chars: Seq<(i64, String, String)>,
    costumes: Seq<(i64, i64, String, String)>,
) -> (Option<i64>, Option<i64>, Confidence) {
    resolved(
        character_scores(query_of(folder), chars),
        costume_scores(query_of(folder), costumes),
    )
}

/// The first character with the highest score is the one that
/// `top_character` names.
pub proof fn lemma_top_character(chars: Seq<(i64, i64)>, i: int)
    requires
        is_top_character(chars, i),
    ensures
        top_character(chars) == Some(i),
{
    let c = choose|c: int| is_top_character(chars, c);
    if c < i {
        assert(chars[c].1 < chars[i].1);
        assert(chars[i].1 <= chars[c].1);
    } else if i < c {
        assert(chars[i].1 < chars[c].1);
        assert(chars[c].1 <= chars[i].1);
    }
}

/// The first costume of `owner` with the highest score is the one that
/// `top_costume` names.
pub proof fn lemma_top_costume(costumes: Seq<(i64, i64, i64)>, owner: i64, k: int)
    requires
        is_top_costume(costumes, owner, k),
    ensures
        top_costume(costumes, owner) == Some(k),
{
    let c = choose|c: int| is_top_costume(costumes, owner, c);
    if c < k {
        assert(costumes[c].2 < costumes[k].2);
        assert(costumes[k].2 <= costumes[c].2);
    } else if k < c {
        assert(costumes[k].2 < costumes[c].2);
        assert(costumes[c].2 <= costumes[k].2);
    }
}

/// The confidence of every resolution lies between 0 and 1, and where no
/// character scores above 0 the resolution is no character, no costume and
/// confidence 0.
pub proof fn lemma_confidence_bounds(chars: Seq<(i64, i64)>, costumes: Seq<(i64, i64, i64)>)
    ensures
        resolved(chars, costumes).2.wf(),
        (forall|j: int| 0 <= j < chars.len() ==> (#[trigger] chars[j]).1 <= 0) ==> resolved(
            chars,
            costumes,
        ) == (None::<i64>, None::<i64>, Confidence { two_hundredths: 0 }),
        resolved(chars, costumes).1 is Some ==> resolved(chars, costumes).0 is Some,
{
    match top_character(chars) {
        None => {},
        Some(i) => {
            assert(is_top_character(chars, i));
        },
    }
}

/// A catalog of one character with one costume resolves to the two where
/// both score above 0, with a confidence of the sum of the scores over 200,
/// held at 1: above one half exactly where the sum is above 100.
pub proof fn lemma_single_match(character: (i64, i64), costume: (i64, i64, i64))
    requires
        character.1 > 0,
        costume.2 > 0,
        costume.1 == character.0,
    ensures
        resolved(seq![character], seq![costume]) == (
            Some(character.0),
            Some(costume.0),
            Confidence {
                two_hundredths: confidence_of(character.1, Some(costume.2)) as u8,
            },
        ),
        resolved(seq![character], seq![costume]).2.two_hundredths > 100 <==> character.1
            + costume.2 > 100,
{
    let chars = seq![character];
    let costumes = seq![costume];
    assert(is_top_character(chars, 0));
    lemma_top_character(chars, 0);
    assert(is_top_costume(costumes, character.0, 0));
    lemma_top_costume(costumes, character.0, 0);
}

/// A costume that a resolution names is a costume of the character that it
/// names.
pub proof fn lemma_costume_of_character(chars: Seq<(i64, i64)>, costumes: Seq<(i64, i64, i64)>)
    ensures
        match resolved(chars, costumes) {
            (Some(c), Some(k), _) => exists|j: int|
                0 <= j < costumes.len() && (#[trigger] costumes[j]).0 == k && costumes[j].1 == c,
            (None, Some(_), _) => false,
            _ => true,
        },
{
    match top_character(chars) {
        None => {},
        Some(i) => {
            match top_costume(costumes, chars[i].0) {
                None => {},
                Some(k) => {
                    assert(is_top_costume(costumes, chars[i].0, k));
                },
            }
        },
    }
}

/// The confidence of a character score and of the score of a costume where
/// one matched.
pub fn confidence(character: i64, costume: Option<i64>) -> (out: Confidence)
    ensures
        out.two_hundredths == confidence_of(character, costume),
        out.wf(),
{
    let wide: i128 = character as i128;
    let raw: i128 = match costume {
        Some(s) => wide + s as i128,
        None => 2 * wide,
    };
    let held: i128 = if raw < 0 {
        0
    } else if raw > 200 {
        200
    } else {
        raw
    };
    Confidence { two_hundredths: held as u8 }
}

/// Resolves scored characters and scored costumes: the first character with
/// the highest score, the first costume of that character with the highest
/// score, and the confidence of the two.
pub fn resolve_scored(chars: &Vec<(i64, i64)>, costumes: &Vec<(i64, i64, i64)>) -> (out: (
    Option<i64>,
    Option<i64>,
    Confidence,
))
    ensures
        out == resolved(chars@, costumes@),
        out.2.wf(),
{
    proof {
        lemma_confidence_bounds(chars@, costumes@);
    }
    if chars.len() == 0 {
        assert(forall|i: int| !is_top_character(chars@, i));
        return (None, None, Confidence { two_hundredths: 0 });
    }
    let mut best: usize = 0;
    let mut i: usize = 1;
    while i < chars.len()
        invariant
            1 <= i <= chars.len(),
            0 <= best < i,
            forall|j: int| 0 <= j < i ==> (#[trigger] chars@[j]).1 <= chars@[best as int].1,
            forall|j: int| 0 <= j < best ==> (#[trigger] chars@[j]).1 < chars@[best as int].1,
        decreases chars.len() - i,
    {
        if chars[i].1 > chars[best].1 {
            best = i;
        }
        i += 1;
    }
    proof {
        lemma_top_character(chars@, best as int);
    }
    let owner = chars[best].0;
    let score = chars[best].1;
    if score <= 0 {
        return (None, None, Confidence { two_hundredths: 0 });
    }
    let mut top: Option<usize> = None;
    let mut k: usize = 0;
    while k < costumes.len()
        invariant
            0 <= k <= costumes.len(),
            match top {
                Some(t) => {
                    &&& t < k
                    &&& costumes@[t as int].1 == owner
                    &&& forall|j: int|
                        0 <= j < k && (#[trigger] costumes@[j]).1 == owner ==> costumes@[j].2
                            <= costumes@[t as int].2
                    &&& forall|j: int|
                        0 <= j < t && (#[trigger] costumes@[j]).1 == owner ==> costumes@[j].2
                            < costumes@[t as int].2
                },
                None => forall|j: int| 0 <= j < k ==> (#[trigger] costumes@[j]).1 != owner,
            },
        decreases costumes.len() - k,
    {
        if costumes[k].1 == owner {
            match top {
                Some(t) if costumes[t].2 >= costumes[k].2 => {},
                _ => {
                    top = Some(k);
                },
            }
        }
        k += 1;
    }
    match top {
        Some(t) => {
            proof {
                lemma_top_costume(costumes@, owner, t as int);
            }
            if costumes[t].2 > 0 {
                (Some(owner), Some(costumes[t].0), confidence(score, Some(costumes[t].2)))
            } else {
                (Some(owner), None, confidence(score, None))
            }
        },
        None => {
            proof {
                if exists|c: int| is_top_costume(costumes@, owner, c) {
                    let c = choose|c: int| is_top_costume(costumes@, owner, c);
                    assert(costumes@[c].1 == owner);
                }
            }
            (Some(owner), None, confidence(score, None))
        },
    }
}

/// The score of a catalog entry for a query.
pub fn score_entity(query: &str, slug: &str, display_name: &str) -> (out: i64)
    ensures
        out == entity_score(query@, slug@, display_name@),
{
    let a = match fuzzy_score(query, slug) {
        Some(s) => s,
        None => 0,
    };
    let lower = lowercase(display_name);
    let b = match fuzzy_score(query, lower.as_str()) {
        Some(s) => s,
        None => 0,
    };
    if a >= b {
        a
    } else {
        b
    }
}

/// Resolves a folder name against a snapshot of the catalog: characters as
/// (id, slug, display name), costumes as (id, character id, slug, display
/// name).
pub fn infer_character_costume(
    folder_name: &str,
    chars: &[(i64, String, String)],
    costumes: &[(i64, i64, String, String)],
) -> (out: (Option<i64>, Option<i64>, Confidence))
    ensures
        out == inferred(folder_name@, chars@, costumes@),
        out.2.wf(),
{
    let query = join_tokens(folder_name, ' ');
    let mut scored_chars: Vec<(i64, i64)> = Vec::new();
    let mut i: usize = 0;
    while i < chars.len()
        invariant
            0 <= i <= chars.len(),
            query@ == query_of(folder_name@),
            scored_chars@.len() == i,
            forall|j: int|
                0 <= j < i ==> scored_chars@[j] == character_scores(query@, chars@)[j],
        decreases chars.len() - i,
    {
        let s = score_entity(query.as_str(), chars[i].1.as_str(), chars[i].2.as_str());
        scored_chars.push((chars[i].0, s));
        i += 1;
    }
    assert(scored_chars@ =~= character_scores(query@, chars@));
    let mut scored_costumes: Vec<(i64, i64, i64)> = Vec::new();
    let mut k: usize = 0;
    while k < costumes.len()
        invariant
            0 <= k <= costumes.len(),
            query@ == query_of(folder_name@),
            scored_costumes@.len() == k,
            forall|j: int|
                0 <= j < k ==> scored_costumes@[j] == costume_scores(query@, costumes@)[j],
        decreases costumes.len() - k,
    {
        let s = score_entity(query.as_str(), costumes[k].2.as_str(), costumes[k].3.as_str());
        scored_costumes.push((costumes[k].0, costumes[k].1, s));
        k += 1;
    }
    assert(scored_costumes@ =~= costume_scores(query@, costumes@));
    resolve_scored(&scored_chars, &scored_costumes)
}

/// The best of `base` and of what the aliases of one entity score for a
/// query, each alias matched in lower case as a display name is.
pub open spec fn alias_score(
    query: Seq<char>,
    aliases: Seq<(EntityType, i64, String)>,
    kind: EntityType,
    id: i64,
    base: i64,
) -> i64
    decreases aliases.len(),
{
    if aliases.len() == 0 {
        base
    } else {
        let rest = alias_score(query, aliases.drop_last(), kind, id, base);
        let a = aliases.last();
        let own = score_or_zero(skim_score(query, lowercased(a.2@)));
        if a.0 == kind && a.1 == id && own > rest {
            own
        } else {
            rest
        }
    }
}

/// The characters of a snapshot with their scores for a query, the aliases
/// of each counted in.
pub open spec fn character_scores_with(
    query: Seq<char>,
    chars: Seq<(i64, String, String)>,
    aliases: Seq<(EntityType, i64, String)>,
) -> Seq<(i64, i64)> {
    Seq::new(
        chars.len(),
        |i: int|
            (
                chars[i].0,
                alias_score(
                    query,
                    aliases,
                    EntityType::Character,
                    chars[i].0,
                    entity_score(query, chars[i].1@, chars[i].2@),
                ),
            ),
    )
}

/// The costumes of a snapshot with their scores for a query, the aliases of
/// each counted in.
pub open spec fn costume_scores_with(
    query: Seq<char>,
    costumes: Seq<(i64, i64, String, String)>,
    aliases: Seq<(EntityType, i64, String)>,
) -> Seq<(i64, i64, i64)> {
    Seq::new(
        costumes.len(),
        |i: int|
            (
                costumes[i].0,
                costumes[i].1,
                alias_score(
                    query,
                    aliases,
                    EntityType::Costume,
                    costumes[i].0,
                    entity_score(query, costumes[i].2@, costumes[i].3@),
                ),
            ),
    )
}

/// What a folder name resolves to against a snapshot of the catalog with its
/// aliases.
pub open spec fn inferred_with(
    folder: Seq<char>,
    chars: Seq<(i64, String, String)>,
    costumes: Seq<(i64, i64, String, String)>,
    aliases: Seq<(EntityType, i64, String)>,
) -> (Option<i64>, Option<i64>, Confidence) {
    resolved(
        character_scores_with(query_of(folder), chars, aliases),
        costume_scores_with(query_of(folder), costumes, aliases),
    )
}

/// Without aliases a snapshot resolves as its characters and costumes alone
/// do.
pub proof fn lemma_no_aliases(
    folder: Seq<char>,
    chars: Seq<(i64, String, String)>,
    costumes: Seq<(i64, i64, String, String)>,
)
    ensures
        inferred_with(folder, chars, costumes, Seq::empty()) == inferred(folder, chars, costumes),
{
    let q = query_of(folder);
    assert(character_scores_with(q, chars, Seq::empty()) =~= character_scores(q, chars));
    assert(costume_scores_with(q, costumes, Seq::empty()) =~= costume_scores(q, costumes));
}

/// The best of `base` and of what the aliases of one entity score for a
/// query.
pub fn score_aliases(
    query: &str,
    aliases: &[(EntityType, i64, String)],
    kind: EntityType,
    id: i64,
    base: i64,
) -> (out: i64)
    ensures
        out == alias_score(query@, aliases@, kind, id, base),
{
    let mut best = base;
    let mut i: usize = 0;
    assert(aliases@.take(0) =~= Seq::<(EntityType, i64, String)>::empty());
    while i < aliases.len()
        invariant
            0 <= i <= aliases.len(),
            best == alias_score(query@, aliases@.take(i as int), kind, id, base),
        decreases aliases.len() - i,
    {
        proof {
            assert(aliases@.take(i + 1).drop_last() =~= aliases@.take(i as int));
            assert(aliases@.take(i + 1).last() == aliases@[i as int]);
        }
        if aliases[i].0 == kind && aliases[i].1 == id {
            let lower = lowercase(aliases[i].2.as_str());
            let own = match fuzzy_score(query, lower.as_str()) {
                Some(s) => s,
                None => 0,
            };
            if own > best {
                best = own;
            }
        }
        i += 1;
    }
    assert(aliases@.take(aliases@.len() as int) =~= aliases@);
    best
}

/// Resolves a folder name against a snapshot of the catalog with its
/// aliases: characters as (id, slug, display name), costumes as (id,
/// character id, slug, display name), aliases as (kind, entity id, text).
/// An entity scores the best of what its slug, its display name and its
/// aliases score.
pub fn infer_with_aliases(
    folder_name: &str,
    chars: &[(i64, String, String)],
    costumes: &[(i64, i64, String, String)],
    aliases: &[(EntityType, i64, String)],
) -> (out: (Option<i64>, Option<i64>, Confidence))
    ensures
        out == inferred_with(folder_name@, chars@, costumes@, aliases@),
        out.2.wf(),
{
    let query = join_tokens(folder_name, ' ');
    let mut scored_chars: Vec<(i64, i64)> = Vec::new();
    let mut i: usize = 0;
    while i < chars.len()
        invariant
            0 <= i <= chars.len(),
            query@ == query_of(folder_name@),
            scored_chars@.len() == i,
            forall|j: int|
                0 <= j < i ==> scored_chars@[j] == character_scores_with(
                    query@,
                    chars@,
                    aliases@,
                )[j],
        decreases chars.len() - i,
    {
        let base = score_entity(query.as_str(), chars[i].1.as_str(), chars[i].2.as_str());
        let s = score_aliases(query.as_str(), aliases, EntityType::Character, chars[i].0, base);
        scored_chars.push((chars[i].0, s));
        i += 1;
    }
    assert(scored_chars@ =~= character_scores_with(query@, chars@, aliases@));
    let mut scored_costumes: Vec<(i64, i64, i64)> = Vec::new();
    let mut k: usize = 0;
    while k < costumes.len()
        invariant
            0 <= k <= costumes.len(),
            query@ == query_of(folder_name@),
            scored_costumes@.len() == k,
            forall|j: int|
                0 <= j < k ==> scored_costumes@[j] == costume_scores_with(
                    query@,
                    costumes@,
                    aliases@,
                )[j],
        decreases costumes.len() - k,
    {
        let base = score_entity(query.as_str(), costumes[k].2.as_str(), costumes[k].3.as_str());
        let s = score_aliases(query.as_str(), aliases, EntityType::Costume, costumes[k].0, base);
        scored_costumes.push((costumes[k].0, costumes[k].1, s));
        k += 1;
    }
    assert(scored_costumes@ =~= costume_scores_with(query@, costumes@, aliases@));
    resolve_scored(&scored_chars, &scored_costumes)
}

} // verus!
