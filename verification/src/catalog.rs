//! The catalog of characters, costumes and aliases, and its synchronisation
//! with a canonical list. A synchronisation inserts what is missing, updates
//! display names, and deletes nothing.

use crate::text::{blank, chars_of, is_blank, same_chars, trim, trimmed};
use crate::types::{CatalogCharacter, CatalogCostume, CatalogReport};
use vstd::prelude::*;

verus! {

/// What an alias is attached to.
#[derive(Debug, Clone, Copy, PartialEq, Eq, Structural)]
pub enum EntityType {
    Character,
    Costume,
}

impl EntityType {
    /// The name under which the store keeps this kind.
    pub fn to_string(&self) -> (out: String)
        ensures
            out@ == (match self {
                EntityType::Character => "character"@,
                EntityType::Costume => "costume"@,
            }),
    {
        match self {
            EntityType::Character => "character".to_owned(),
            EntityType::Costume => "costume".to_owned(),
        }
    }
}

/// A character of the catalog as the store holds it.
#[derive(Debug, Clone, PartialEq, Eq)]
pub struct CatalogCharacterRow {
    pub id: i64,
    pub slug: String,
    pub display_name: String,
}

/// A costume of the catalog as the store holds it.
#[derive(Debug, Clone, PartialEq, Eq)]
pub struct CatalogCostumeRow {
    pub id: i64,
    pub character_id: i64,
    pub slug: String,
    pub display_name: String,
}

/// An alias of a character or of a costume.
#[derive(Debug, Clone, PartialEq, Eq)]
pub struct AliasRow {
    pub entity_type: EntityType,
    pub entity_id: i64,
    pub alias_text: String,
}

/// The characters and costumes of the catalog, as a listing hands them out.
#[derive(Debug, Clone, PartialEq, Eq)]
pub struct CatalogListResponse {
    pub characters: Vec<CatalogCharacterRow>,
    pub costumes: Vec<CatalogCostumeRow>,
}

/// The catalog: characters keyed by slug, costumes keyed by character and
/// slug, and aliases, each in the order of insertion.
#[derive(Debug, Clone, PartialEq, Eq)]
pub struct CatalogStore {
    pub characters: Vec<CatalogCharacterRow>,
    pub costumes: Vec<CatalogCostumeRow>,
    pub aliases: Vec<AliasRow>,
}

/// The catalog as contracts see it: characters as (id, slug, display name),
/// costumes as (id, character id, slug, display name), aliases as (kind,
/// entity id, text).
pub struct CatalogView {
    pub characters: Seq<(int, Seq<char>, Seq<char>)>,
    pub costumes: Seq<(int, int, Seq<char>, Seq<char>)>,
    pub aliases: Seq<(EntityType, int, Seq<char>)>,
}

/// One step of a synchronisation. An alias belongs to the character or the
/// costume that the last step before it of that kind stored.
#[derive(Debug, Clone, PartialEq, Eq)]
pub enum CatalogOp {
    Character { slug: String, display_name: String },
    CharacterAlias { alias: String },
    Costume { slug: String, display_name: String },
    CostumeAlias { alias: String },
}

/// A step of a synchronisation as contracts see it.
pub enum OpView {
    Character(Seq<char>, Seq<char>),
    CharacterAlias(Seq<char>),
    Costume(Seq<char>, Seq<char>),
    CostumeAlias(Seq<char>),
}

/// A catalog in the course of a synchronisation, with the ids of the
/// character and of the costume stored last.
pub struct SyncState {
    pub store: CatalogView,
    pub character: int,
    pub costume: int,
}

impl CatalogOp {
    pub open spec fn view(&self) -> OpView {
        match self {
            CatalogOp::Character { slug, display_name } => OpView::Character(
                slug@,
                display_name@,
            ),
            CatalogOp::CharacterAlias { alias } => OpView::CharacterAlias(alias@),
            CatalogOp::Costume { slug, display_name } => OpView::Costume(slug@, display_name@),
            CatalogOp::CostumeAlias { alias } => OpView::CostumeAlias(alias@),
        }
    }
}

impl CatalogStore {
    pub open spec fn view(&self) -> CatalogView {
        CatalogView {
            characters: Seq::new(
                self.characters@.len(),
                |i: int|
                    (
                        self.characters@[i].id as int,
                        self.characters@[i].slug@,
                        self.characters@[i].display_name@,
                    ),
            ),
            costumes: Seq::new(
                self.costumes@.len(),
                |i: int|
                    (
                        self.costumes@[i].id as int,
                        self.costumes@[i].character_id as int,
                        self.costumes@[i].slug@,
                        self.costumes@[i].display_name@,
                    ),
            ),
            aliases: Seq::new(
                self.aliases@.len(),
                |i: int|
                    (
                        self.aliases@[i].entity_type,
                        self.aliases@[i].entity_id as int,
                        self.aliases@[i].alias_text@,
                    ),
            ),
        }
    }

    /// An empty catalog.
    pub fn new() -> (out: Self)
        ensures
            out@.characters.len() == 0,
            out@.costumes.len() == 0,
            out@.aliases.len() == 0,
            out@.wf(),
            out@.ids_ok(),
            out@.refs_ok(),
    {
        CatalogStore { characters: Vec::new(), costumes: Vec::new(), aliases: Vec::new() }
    }
}

/// No key stands twice in `keys`.
pub open spec fn distinct<K>(keys: Seq<K>) -> bool {
    forall|i: int, j: int| 0 <= i < j < keys.len() ==> keys[i] != keys[j]
}

/// `key` stands at `i` in `keys` and nowhere before.
pub open spec fn is_first<K>(keys: Seq<K>, key: K, i: int) -> bool {
    &&& 0 <= i < keys.len()
    &&& keys[i] == key
    &&& forall|j: int| 0 <= j < i ==> keys[j] != key
}

/// The first position of `key` in `keys`.
pub open spec fn first_index<K>(keys: Seq<K>, key: K) -> Option<int> {
    if exists|i: int| is_first(keys, key, i) {
        Some(choose|i: int| is_first(keys, key, i))
    } else {
        None
    }
}

/// The largest of `ids`, and 0 where none is above 0.
pub open spec fn max_id(ids: Seq<int>) -> int
    decreases ids.len(),
{
    if ids.len() == 0 {
        0
    } else if ids.last() > max_id(ids.drop_last()) {
        ids.last()
    } else {
        max_id(ids.drop_last())
    }
}

impl CatalogView {
    /// The slugs of the characters, row by row.
    pub open spec fn character_keys(self) -> Seq<Seq<char>> {
        Seq::new(self.characters.len(), |i: int| self.characters[i].1)
    }

    /// The ids of the characters, row by row.
    pub open spec fn character_ids(self) -> Seq<int> {
        Seq::new(self.characters.len(), |i: int| self.characters[i].0)
    }

    /// The character ids and slugs of the costumes, row by row.
    pub open spec fn costume_keys(self) -> Seq<(int, Seq<char>)> {
        Seq::new(self.costumes.len(), |i: int| (self.costumes[i].1, self.costumes[i].2))
    }

    /// The ids of the costumes, row by row.
    pub open spec fn costume_ids(self) -> Seq<int> {
        Seq::new(self.costumes.len(), |i: int| self.costumes[i].0)
    }

    /// No slug names two characters, no character has two costumes of one
    /// slug, and no alias row stands twice.
    pub open spec fn wf(self) -> bool {
        &&& distinct(self.character_keys())
        &&& distinct(self.costume_keys())
        &&& distinct(self.aliases)
    }

    /// No id is given to two characters or to two costumes.
    pub open spec fn ids_ok(self) -> bool {
        distinct(self.character_ids()) && distinct(self.costume_ids())
    }

    /// Every costume belongs to a character of the catalog.
    pub open spec fn refs_ok(self) -> bool {
        forall|i: int|
            0 <= i < self.costumes.len() ==> self.character_ids().contains(
                (#[trigger] self.costumes[i]).1,
            )
    }

    /// Stores a character: the display name of the one with this slug is
    /// replaced, or a new row is added under the next id. Gives the
    /// catalog and the character's id.
    pub open spec fn put_character(self, slug: Seq<char>, name: Seq<char>) -> (CatalogView, int) {
        match first_index(self.character_keys(), slug) {
            Some(i) => (
                CatalogView {
                    characters: self.characters.update(i, (self.characters[i].0, slug, name)),
                    ..self
                },
                self.characters[i].0,
            ),
            None => (
                CatalogView {
                    characters: self.characters.push(
                        (next_id(self.character_ids()), slug, name),
                    ),
                    ..self
                },
                next_id(self.character_ids()),
            ),
        }
    }

    /// Stores a costume of character `owner`: the display name of the one
    /// with this slug is replaced, or a new row is added under the next id.
    /// Gives the catalog and the costume's id.
    pub open spec fn put_costume(self, owner: int, slug: Seq<char>, name: Seq<char>) -> (
        CatalogView,
        int,
    ) {
        match first_index(self.costume_keys(), (owner, slug)) {
            Some(i) => (
                CatalogView {
                    costumes: self.costumes.update(i, (self.costumes[i].0, owner, slug, name)),
                    ..self
                },
                self.costumes[i].0,
            ),
            None => (
                CatalogView {
                    costumes: self.costumes.push(
                        (next_id(self.costume_ids()), owner, slug, name),
                    ),
                    ..self
                },
                next_id(self.costume_ids()),
            ),
        }
    }

    /// Stores an alias unless it is blank or stored already.
    pub open spec fn put_alias(self, kind: EntityType, id: int, text: Seq<char>) -> CatalogView {
        if is_blank(text) || first_index(self.aliases, (kind, id, text)) is Some {
            self
        } else {
            CatalogView { aliases: self.aliases.push((kind, id, text)), ..self }
        }
    }
}

impl SyncState {
    /// The state after one step.
    pub open spec fn apply(self, op: OpView) -> SyncState {
        match op {
            OpView::Character(slug, name) => {
                let (store, id) = self.store.put_character(slug, name);
                SyncState { store, character: id, costume: self.costume }
            },
            OpView::CharacterAlias(text) => SyncState {
                store: self.store.put_alias(EntityType::Character, self.character, text),
                ..self
            },
            OpView::Costume(slug, name) => {
                let (store, id) = self.store.put_costume(self.character, slug, name);
                SyncState { store, character: self.character, costume: id }
            },
            OpView::CostumeAlias(text) => SyncState {
                store: self.store.put_alias(EntityType::Costume, self.costume, text),
                ..self
            },
        }
    }

    /// The state after the steps of `ops`, in order.
    pub open spec fn run(self, ops: Seq<OpView>) -> SyncState
        decreases ops.len(),
    {
        if ops.len() == 0 {
            self
        } else {
            self.run(ops.drop_last()).apply(ops.last())
        }
    }
}

/// The views of the steps of `ops`.
pub open spec fn op_views(ops: Seq<CatalogOp>) -> Seq<OpView> {
    Seq::new(ops.len(), |i: int| ops[i]@)
}

/// The steps that attach `aliases` to a character.
pub open spec fn character_alias_ops(aliases: Seq<String>) -> Seq<OpView> {
    Seq::new(aliases.len(), |i: int| OpView::CharacterAlias(aliases[i]@))
}

/// The steps that attach `aliases` to a costume.
pub open spec fn costume_alias_ops(aliases: Seq<String>) -> Seq<OpView> {
    Seq::new(aliases.len(), |i: int| OpView::CostumeAlias(aliases[i]@))
}

/// The steps that store one costume: the costume, then its aliases.
pub open spec fn costume_ops(c: CatalogCostume) -> Seq<OpView> {
    seq![OpView::Costume(c.slug@, c.display_name@)] + costume_alias_ops(c.aliases@)
}

/// The steps that store the costumes of `cs`, in order.
pub open spec fn costumes_ops(cs: Seq<CatalogCostume>) -> Seq<OpView>
    decreases cs.len(),
{
    if cs.len() == 0 {
        Seq::empty()
    } else {
        costumes_ops(cs.drop_last()) + costume_ops(cs.last())
    }
}

/// The steps that store one character: the character, its aliases, then its
/// costumes.
pub open spec fn character_ops(c: CatalogCharacter) -> Seq<OpView> {
    seq![OpView::Character(c.slug@, c.display_name@)] + character_alias_ops(c.aliases@)
        + costumes_ops(c.costumes@)
}

/// The steps that store the characters of `items`, in order.
pub open spec fn ops_of(items: Seq<CatalogCharacter>) -> Seq<OpView>
    decreases items.len(),
{
    if items.len() == 0 {
        Seq::empty()
    } else {
        ops_of(items.drop_last()) + character_ops(items.last())
    }
}

/// The number of costumes of the characters of `items`.
pub open spec fn costume_count(items: Seq<CatalogCharacter>) -> nat
    decreases items.len(),
{
    if items.len() == 0 {
        0
    } else {
        costume_count(items.drop_last()) + items.last().costumes@.len()
    }
}

/// The catalog after the synchronisation with `items`.
pub open spec fn synced(v: CatalogView, items: Seq<CatalogCharacter>) -> CatalogView {
    SyncState { store: v, character: 0, costume: 0 }.run(ops_of(items)).store
}

/// A key that stands at `i` and nowhere before has `i` as its first position.
pub proof fn lemma_first_some<K>(keys: Seq<K>, key: K, i: int)
    requires
        is_first(keys, key, i),
    ensures
        first_index(keys, key) == Some(i),
{
    let c = choose|c: int| is_first(keys, key, c);
    if c < i {
        assert(keys[c] != key);
    } else if i < c {
        assert(keys[i] != key);
    }
}

/// A key that stands nowhere has no first position.
pub proof fn lemma_first_none<K>(keys: Seq<K>, key: K)
    requires
        forall|j: int| 0 <= j < keys.len() ==> keys[j] != key,
    ensures
        first_index(keys, key) is None,
{
    if exists|i: int| is_first(keys, key, i) {
        let c = choose|c: int| is_first(keys, key, c);
        assert(keys[c] != key);
    }
}

/// No id is above `max_id`, so the id after it is given to no row yet.
pub proof fn lemma_max_id(ids: Seq<int>)
    ensures
        max_id(ids) >= 0,
        forall|j: int| 0 <= j < ids.len() ==> ids[j] <= max_id(ids),
        !ids.contains(max_id(ids) + 1),
        distinct(ids) ==> distinct(ids.push(max_id(ids) + 1)),
    decreases ids.len(),
{
    if ids.len() > 0 {
        lemma_max_id(ids.drop_last());
        assert forall|j: int| 0 <= j < ids.len() implies ids[j] <= max_id(ids) by {
            if j < ids.len() - 1 {
                assert(ids.drop_last()[j] == ids[j]);
            }
        }
    }
}

/// `x` is an id that a store can hold and that none of `ids` is.
pub open spec fn is_free(ids: Seq<int>, x: int) -> bool {
    i64::MIN <= x <= i64::MAX && !ids.contains(x)
}

/// `x` is the least id that is free.
pub open spec fn is_least_free(ids: Seq<int>, x: int) -> bool {
    is_free(ids, x) && forall|y: int| i64::MIN <= y < x ==> ids.contains(y)
}

/// The id that the next new row gets: the one after the largest and, where
/// the largest is the last that a store can hold, the least that is free.
pub open spec fn next_id(ids: Seq<int>) -> int {
    if max_id(ids) < i64::MAX {
        max_id(ids) + 1
    } else {
        choose|x: int| is_least_free(ids, x)
    }
}

/// The ids of a list, as contracts see them.
pub open spec fn ints(ids: Seq<i64>) -> Seq<int> {
    Seq::new(ids.len(), |i: int| ids[i] as int)
}

/// A sequence that holds every id from `a` to `b` holds that many ids at
/// least.
pub proof fn lemma_range_in_seq(ids: Seq<int>, a: int, b: int)
    requires
        a <= b + 1,
        forall|y: int| a <= y <= b ==> ids.contains(y),
    ensures
        b - a + 1 <= ids.len(),
    decreases b - a + 1,
{
    if a <= b {
        assert(ids.contains(b));
        let j = choose|j: int| 0 <= j < ids.len() && ids[j] == b;
        let rest = ids.remove(j);
        assert forall|y: int| a <= y <= b - 1 implies rest.contains(y) by {
            assert(ids.contains(y));
            let k = choose|k: int| 0 <= k < ids.len() && ids[k] == y;
            if k < j {
                assert(rest[k] == y);
            } else {
                assert(rest[k - 1] == y);
            }
        }
        lemma_range_in_seq(rest, a, b - 1);
    }
}

/// Where an id is free, one is the least that is free.
pub proof fn lemma_least_free_exists(ids: Seq<int>, x: int) -> (least: int)
    requires
        is_free(ids, x),
    ensures
        is_least_free(ids, least),
    decreases x - i64::MIN,
{
    if exists|y: int| i64::MIN <= y < x && !ids.contains(y) {
        let y = choose|y: int| i64::MIN <= y < x && !ids.contains(y);
        lemma_least_free_exists(ids, y)
    } else {
        x
    }
}

/// A store that holds fewer rows than there are ids has a next id: one that
/// a store can hold and that no row has yet.
pub proof fn lemma_next_id(ids: Seq<int>)
    requires
        ids.len() <= u64::MAX,
    ensures
        i64::MIN <= next_id(ids) <= i64::MAX,
        !ids.contains(next_id(ids)),
        distinct(ids) ==> distinct(ids.push(next_id(ids))),
        max_id(ids) < i64::MAX ==> next_id(ids) == max_id(ids) + 1,
        max_id(ids) >= i64::MAX ==> is_least_free(ids, next_id(ids)),
{
    lemma_max_id(ids);
    if max_id(ids) >= i64::MAX {
        if forall|y: int| i64::MIN <= y <= i64::MAX ==> ids.contains(y) {
            lemma_range_in_seq(ids, i64::MIN as int, i64::MAX as int);
            assert(false);
        }
        let x = choose|x: int| i64::MIN <= x <= i64::MAX && !ids.contains(x);
        let least = lemma_least_free_exists(ids, x);
    }
}

/// Only one id is the least that is free.
pub proof fn lemma_least_free_unique(ids: Seq<int>, x: int, y: int)
    requires
        is_least_free(ids, x),
        is_least_free(ids, y),
    ensures
        x == y,
{
}

/// Whether `x` is one of `ids`.
pub fn holds_id(ids: &Vec<i64>, x: i64) -> (b: bool)
    ensures
        b == ints(ids@).contains(x as int),
{
    let mut i: usize = 0;
    while i < ids.len()
        invariant
            0 <= i <= ids.len(),
            forall|j: int| 0 <= j < i ==> ints(ids@)[j] != x as int,
        decreases ids.len() - i,
    {
        if ids[i] == x {
            assert(ints(ids@)[i as int] == x as int);
            return true;
        }
        i += 1;
    }
    false
}

/// The id that the next new row gets in a store whose rows have `ids`.
pub fn next_free_id(ids: &Vec<i64>) -> (out: i64)
    ensures
        out as int == next_id(ints(ids@)),
{
    let ghost all = ints(ids@);
    let mut m: i64 = 0;
    let mut i: usize = 0;
    while i < ids.len()
        invariant
            0 <= i <= ids.len(),
            all == ints(ids@),
            m == max_id(all.take(i as int)),
        decreases ids.len() - i,
    {
        assert(all.take(i + 1).drop_last() =~= all.take(i as int));
        if ids[i] > m {
            m = ids[i];
        }
        i += 1;
    }
    assert(all.take(ids@.len() as int) =~= all);
    if m < i64::MAX {
        return m + 1;
    }
    proof {
        lemma_next_id(all);
    }
    let mut x: i64 = i64::MIN;
    loop
        invariant
            all == ints(ids@),
            all.len() <= u64::MAX,
            max_id(all) >= i64::MAX,
            is_least_free(all, next_id(all)),
            forall|y: int| i64::MIN <= y < x ==> all.contains(y),
        decreases i64::MAX - x,
    {
        if !holds_id(ids, x) {
            proof {
                lemma_least_free_unique(all, x as int, next_id(all));
            }
            return x;
        }
        proof {
            if x == i64::MAX {
                lemma_range_in_seq(all, i64::MIN as int, i64::MAX as int);
            }
        }
        x = x + 1;
    }
}

/// What a sequence holds it still holds after one more was added, and it
/// holds what was added.
pub proof fn lemma_contains_push(ids: Seq<int>, y: int)
    ensures
        ids.push(y).contains(y),
        forall|x: int| ids.contains(x) ==> ids.push(y).contains(x),
{
    assert(ids.push(y)[ids.len() as int] == y);
    assert forall|x: int| ids.contains(x) implies ids.push(y).contains(x) by {
        let j = choose|j: int| 0 <= j < ids.len() && ids[j] == x;
        assert(ids.push(y)[j] == x);
    }
}

/// Whether the catalog holds a character with this id.
pub fn has_character(store: &CatalogStore, id: i64) -> (b: bool)
    ensures
        b == store@.character_ids().contains(id as int),
{
    let ghost ids = store@.character_ids();
    let mut i: usize = 0;
    while i < store.characters.len()
        invariant
            0 <= i <= store.characters@.len(),
            ids == store@.character_ids(),
            forall|j: int| 0 <= j < i ==> ids[j] != id as int,
        decreases store.characters.len() - i,
    {
        if store.characters[i].id == id {
            assert(ids[i as int] == id as int);
            return true;
        }
        i += 1;
    }
    false
}

/// Whether `a` and `b` hold the same text.
pub fn str_eq(a: &str, b: &str) -> (r: bool)
    ensures
        r == (a@ == b@),
{
    let x = chars_of(a);
    let y = chars_of(b);
    same_chars(&x, &y)
}

/// The ids of the characters, row by row.
pub fn character_id_list(store: &CatalogStore) -> (out: Vec<i64>)
    ensures
        ints(out@) == store@.character_ids(),
{
    let mut out: Vec<i64> = Vec::new();
    let mut i: usize = 0;
    while i < store.characters.len()
        invariant
            0 <= i <= store.characters@.len(),
            out@.len() == i,
            forall|j: int| 0 <= j < i ==> out@[j] == store.characters@[j].id,
        decreases store.characters.len() - i,
    {
        out.push(store.characters[i].id);
        i += 1;
    }
    assert(ints(out@) =~= store@.character_ids());
    out
}

/// The ids of the costumes, row by row.
pub fn costume_id_list(store: &CatalogStore) -> (out: Vec<i64>)
    ensures
        ints(out@) == store@.costume_ids(),
{
    let mut out: Vec<i64> = Vec::new();
    let mut i: usize = 0;
    while i < store.costumes.len()
        invariant
            0 <= i <= store.costumes@.len(),
            out@.len() == i,
            forall|j: int| 0 <= j < i ==> out@[j] == store.costumes@[j].id,
        decreases store.costumes.len() - i,
    {
        out.push(store.costumes[i].id);
        i += 1;
    }
    assert(ints(out@) =~= store@.costume_ids());
    out
}

/// Inserts a character or, where one has this slug, replaces its display
/// name. Returns the character's id. A new row gets the next id, and there
/// always is one.
pub fn upsert_character(store: &mut CatalogStore, slug: &str, display_name: &str) -> (out: Result<
    i64,
    String,
>)
    ensures
        out matches Ok(id) && (final(store)@, id as int) == old(store)@.put_character(
            slug@,
            display_name@,
        ),
        old(store)@.wf() ==> final(store)@.wf(),
        old(store)@.ids_ok() ==> final(store)@.ids_ok(),
        old(store)@.refs_ok() ==> final(store)@.refs_ok(),
        out matches Ok(id) ==> final(store)@.character_ids().contains(id as int),
        forall|x: int|
            old(store)@.character_ids().contains(x) ==> final(store)@.character_ids().contains(x),
{
    let ghost v0 = store@;
    let n = store.characters.len();
    let mut i: usize = 0;
    while i < n
        invariant
            *store == *old(store),
            v0 == store@,
            n == store.characters@.len(),
            0 <= i <= n,
            forall|j: int| 0 <= j < i ==> v0.character_keys()[j] != slug@,
        decreases n - i,
    {
        if str_eq(store.characters[i].slug.as_str(), slug) {
            let id = store.characters[i].id;
            let row = CatalogCharacterRow {
                id,
                slug: slug.to_owned(),
                display_name: display_name.to_owned(),
            };
            store.characters.set(i, row);
            proof {
                assert(is_first(v0.character_keys(), slug@, i as int));
                lemma_first_some(v0.character_keys(), slug@, i as int);
                let (w, _) = v0.put_character(slug@, display_name@);
                assert(store@.characters =~= w.characters);
                assert(store@.costumes =~= w.costumes);
                assert(store@.aliases =~= w.aliases);
                assert(store@.character_keys() =~= v0.character_keys());
                assert(store@.character_ids() =~= v0.character_ids());
                assert(v0.character_ids()[i as int] == id as int);
            }
            return Ok(id);
        }
        i += 1;
    }
    proof {
        lemma_first_none(v0.character_keys(), slug@);
    }
    let ids = character_id_list(store);
    let count = ids.len();
    assert(v0.character_ids().len() == count && count <= u64::MAX);
    let id = next_free_id(&ids);
    store.characters.push(
        CatalogCharacterRow { id, slug: slug.to_owned(), display_name: display_name.to_owned() },
    );
    proof {
        let (w, _) = v0.put_character(slug@, display_name@);
        assert(store@.characters =~= w.characters);
        assert(store@.costumes =~= w.costumes);
        assert(store@.aliases =~= w.aliases);
        assert(store@.character_keys() =~= v0.character_keys().push(slug@));
        assert(store@.character_ids() =~= v0.character_ids().push(id as int));
        lemma_contains_push(v0.character_ids(), id as int);
        lemma_next_id(v0.character_ids());
    }
    Ok(id)
}

/// Inserts a costume of a character or, where the character has one of this
/// slug, replaces its display name. Returns the costume's id. A new row gets
/// the next id. Fails, and changes nothing, exactly where the catalog holds
/// no character with this id.
pub fn upsert_costume(
    store: &mut CatalogStore,
    character_id: i64,
    slug: &str,
    display_name: &str,
) -> (out: Result<i64, String>)
    ensures
        match out {
            Ok(id) => (final(store)@, id as int) == old(store)@.put_costume(
                character_id as int,
                slug@,
                display_name@,
            ),
            Err(_) => *final(store) == *old(store),
        },
        out is Err <==> !old(store)@.character_ids().contains(character_id as int),
        old(store)@.wf() ==> final(store)@.wf(),
        old(store)@.ids_ok() ==> final(store)@.ids_ok(),
        old(store)@.refs_ok() ==> final(store)@.refs_ok(),
        final(store)@.character_ids() == old(store)@.character_ids(),
{
    let ghost v0 = store@;
    let ghost key = (character_id as int, slug@);
    if !has_character(store, character_id) {
        return Err("the catalog has no character with this id".to_owned());
    }
    let n = store.costumes.len();
    let mut i: usize = 0;
    while i < n
        invariant
            *store == *old(store),
            v0 == store@,
            key == (character_id as int, slug@),
            v0.character_ids().contains(character_id as int),
            n == store.costumes@.len(),
            0 <= i <= n,
            forall|j: int| 0 <= j < i ==> v0.costume_keys()[j] != key,
        decreases n - i,
    {
        if store.costumes[i].character_id == character_id && str_eq(
            store.costumes[i].slug.as_str(),
            slug,
        ) {
            let id = store.costumes[i].id;
            let row = CatalogCostumeRow {
                id,
                character_id,
                slug: slug.to_owned(),
                display_name: display_name.to_owned(),
            };
            store.costumes.set(i, row);
            proof {
                assert(is_first(v0.costume_keys(), key, i as int));
                lemma_first_some(v0.costume_keys(), key, i as int);
                let (w, _) = v0.put_costume(character_id as int, slug@, display_name@);
                assert(store@.characters =~= w.characters);
                assert(store@.costumes =~= w.costumes);
                assert(store@.aliases =~= w.aliases);
                assert(store@.costume_keys() =~= v0.costume_keys());
                assert(store@.costume_ids() =~= v0.costume_ids());
            }
            return Ok(id);
        }
        i += 1;
    }
    proof {
        lemma_first_none(v0.costume_keys(), key);
    }
    let ids = costume_id_list(store);
    let count = ids.len();
    assert(v0.costume_ids().len() == count && count <= u64::MAX);
    let id = next_free_id(&ids);
    store.costumes.push(
        CatalogCostumeRow {
            id,
            character_id,
            slug: slug.to_owned(),
            display_name: display_name.to_owned(),
        },
    );
    proof {
        let (w, _) = v0.put_costume(character_id as int, slug@, display_name@);
        assert(store@.characters =~= w.characters);
        assert(store@.costumes =~= w.costumes);
        assert(store@.aliases =~= w.aliases);
        assert(store@.costume_keys() =~= v0.costume_keys().push(key));
        assert(store@.costume_ids() =~= v0.costume_ids().push(id as int));
        lemma_next_id(v0.costume_ids());
    }
    Ok(id)
}

/// Attaches an alias to a character or a costume, unless the alias is blank
/// or attached already.
pub fn upsert_alias(store: &mut CatalogStore, entity_type: EntityType, entity_id: i64, alias: &str)
    ensures
        final(store)@ == old(store)@.put_alias(entity_type, entity_id as int, alias@),
        old(store)@.wf() ==> final(store)@.wf(),
        old(store)@.ids_ok() ==> final(store)@.ids_ok(),
        old(store)@.refs_ok() ==> final(store)@.refs_ok(),
{
    let ghost v0 = store@;
    let ghost key = (entity_type, entity_id as int, alias@);
    if blank(alias) {
        return ;
    }
    let n = store.aliases.len();
    let mut i: usize = 0;
    while i < n
        invariant
            *store == *old(store),
            v0 == store@,
            key == (entity_type, entity_id as int, alias@),
            n == store.aliases@.len(),
            0 <= i <= n,
            forall|j: int| 0 <= j < i ==> v0.aliases[j] != key,
        decreases n - i,
    {
        if store.aliases[i].entity_type == entity_type && store.aliases[i].entity_id == entity_id
            && str_eq(store.aliases[i].alias_text.as_str(), alias) {
            proof {
                assert(is_first(v0.aliases, key, i as int));
                lemma_first_some(v0.aliases, key, i as int);
            }
            return ;
        }
        i += 1;
    }
    proof {
        lemma_first_none(v0.aliases, key);
    }
    store.aliases.push(AliasRow { entity_type, entity_id, alias_text: alias.to_owned() });
    proof {
        let w = v0.put_alias(entity_type, entity_id as int, alias@);
        assert(store@.characters =~= w.characters);
        assert(store@.costumes =~= w.costumes);
        assert(store@.aliases =~= w.aliases);
    }
}

/// The steps of a synchronisation begin with a character.
pub proof fn lemma_ops_start(items: Seq<CatalogCharacter>)
    ensures
        ops_of(items).len() > 0 ==> ops_of(items)[0] is Character,
    decreases items.len(),
{
    if items.len() > 0 {
        lemma_ops_start(items.drop_last());
        let front = ops_of(items.drop_last());
        let tail = character_ops(items.last());
        assert(tail[0] is Character);
        if front.len() > 0 {
            assert((front + tail)[0] == front[0]);
        } else {
            assert((front + tail)[0] == tail[0]);
        }
    }
}

/// The steps of the synchronisation with `items`, and the number of
/// costumes among them.
pub fn plan_sync(items: &Vec<CatalogCharacter>) -> (out: (Vec<CatalogOp>, usize))
    ensures
        op_views(out.0@) == ops_of(items@),
        out.1 == costume_count(items@),
        items@.len() + out.1 <= out.0@.len(),
{
    let mut ops: Vec<CatalogOp> = Vec::new();
    let mut count: usize = 0;
    let mut i: usize = 0;
    assert(op_views(ops@) =~= ops_of(items@.take(0)));
    while i < items.len()
        invariant
            0 <= i <= items.len(),
            op_views(ops@) == ops_of(items@.take(i as int)),
            count == costume_count(items@.take(i as int)),
            i + count <= ops@.len(),
        decreases items.len() - i,
    {
        let ghost base = op_views(ops@);
        let ch = &items[i];
        ops.push(
            CatalogOp::Character { slug: ch.slug.clone(), display_name: ch.display_name.clone() },
        );
        let ghost head = base + seq![OpView::Character(ch.slug@, ch.display_name@)];
        assert(op_views(ops@) =~= head + character_alias_ops(ch.aliases@.take(0)));
        let mut a: usize = 0;
        while a < ch.aliases.len()
            invariant
                0 <= a <= ch.aliases.len(),
                op_views(ops@) == head + character_alias_ops(ch.aliases@.take(a as int)),
                ops@.len() == base.len() + 1 + a,
            decreases ch.aliases.len() - a,
        {
            let ghost prev = op_views(ops@);
            let alias = ch.aliases[a].clone();
            assert(alias@ == ch.aliases@[a as int]@);
            ops.push(CatalogOp::CharacterAlias { alias });
            assert(op_views(ops@) =~= prev.push(OpView::CharacterAlias(ch.aliases@[a as int]@)));
            assert(character_alias_ops(ch.aliases@.take(a + 1)) =~= character_alias_ops(
                ch.aliases@.take(a as int),
            ).push(OpView::CharacterAlias(ch.aliases@[a as int]@)));
            a += 1;
        }
        assert(ch.aliases@.take(ch.aliases@.len() as int) =~= ch.aliases@);
        let ghost mid = head + character_alias_ops(ch.aliases@);
        let ghost mid_len = ops@.len();
        assert(op_views(ops@) =~= mid + costumes_ops(ch.costumes@.take(0)));
        let mut c: usize = 0;
        while c < ch.costumes.len()
            invariant
                0 <= c <= ch.costumes.len(),
                op_views(ops@) == mid + costumes_ops(ch.costumes@.take(c as int)),
                mid_len + c <= ops@.len(),
                i + count + 1 <= mid_len,
            decreases ch.costumes.len() - c,
        {
            let ghost before = op_views(ops@);
            let co = &ch.costumes[c];
            ops.push(
                CatalogOp::Costume {
                    slug: co.slug.clone(),
                    display_name: co.display_name.clone(),
                },
            );
            let ghost front = before + seq![OpView::Costume(co.slug@, co.display_name@)];
            assert(op_views(ops@) =~= front + costume_alias_ops(co.aliases@.take(0)));
            let mut b: usize = 0;
            while b < co.aliases.len()
                invariant
                    0 <= b <= co.aliases.len(),
                    op_views(ops@) == front + costume_alias_ops(co.aliases@.take(b as int)),
                    ops@.len() == before.len() + 1 + b,
                decreases co.aliases.len() - b,
            {
                let ghost prev = op_views(ops@);
                let alias = co.aliases[b].clone();
                assert(alias@ == co.aliases@[b as int]@);
                ops.push(CatalogOp::CostumeAlias { alias });
                assert(op_views(ops@) =~= prev.push(OpView::CostumeAlias(co.aliases@[b as int]@)));
                assert(costume_alias_ops(co.aliases@.take(b + 1)) =~= costume_alias_ops(
                    co.aliases@.take(b as int),
                ).push(OpView::CostumeAlias(co.aliases@[b as int]@)));
                b += 1;
            }
            proof {
                assert(co.aliases@.take(co.aliases@.len() as int) =~= co.aliases@);
                let next = ch.costumes@.take(c + 1);
                assert(next.drop_last() =~= ch.costumes@.take(c as int));
                assert(next.last() == *co);
                assert(op_views(ops@) =~= mid + costumes_ops(next));
            }
            c += 1;
        }
        proof {
            assert(ch.costumes@.take(ch.costumes@.len() as int) =~= ch.costumes@);
            let next = items@.take(i + 1);
            assert(next.drop_last() =~= items@.take(i as int));
            assert(next.last() == *ch);
            assert(op_views(ops@) =~= ops_of(next));
        }
        let total = ops.len();
        assert(i + count + 1 + ch.costumes@.len() <= total);
        count = count + ch.costumes.len();
        i += 1;
    }
    assert(items@.take(items@.len() as int) =~= items@);
    (ops, count)
}

/// Merges the canonical list `items` into the catalog: every character is
/// stored under its slug, with its aliases, and every costume under its
/// character and slug, with its aliases. Reports how many characters and
/// costumes the list holds. It always succeeds.
pub fn sync_records(store: &mut CatalogStore, items: Vec<CatalogCharacter>) -> (out: Result<
    CatalogReport,
    String,
>)
    ensures
        out matches Ok(report) && report.characters == items@.len() && report.costumes
            == costume_count(items@),
        final(store)@ == synced(old(store)@, items@),
        old(store)@.wf() ==> final(store)@.wf(),
        old(store)@.ids_ok() ==> final(store)@.ids_ok(),
        old(store)@.refs_ok() ==> final(store)@.refs_ok(),
{
    let (ops, costumes) = plan_sync(&items);
    proof {
        lemma_ops_start(items@);
    }
    let ghost v0 = store@;
    let ghost all = op_views(ops@);
    let ghost start = SyncState { store: v0, character: 0, costume: 0 };
    let mut character: i64 = 0;
    let mut costume: i64 = 0;
    let mut k: usize = 0;
    assert(all.take(0) =~= Seq::<OpView>::empty());
    while k < ops.len()
        invariant
            0 <= k <= ops.len(),
            all == op_views(ops@),
            start == (SyncState { store: v0, character: 0, costume: 0 }),
            v0 == old(store)@,
            (SyncState { store: store@, character: character as int, costume: costume as int })
                == start.run(all.take(k as int)),
            v0.wf() ==> store@.wf(),
            v0.ids_ok() ==> store@.ids_ok(),
            v0.refs_ok() ==> store@.refs_ok(),
            all.len() > 0 ==> all[0] is Character,
            k > 0 ==> store@.character_ids().contains(character as int),
        decreases ops.len() - k,
    {
        proof {
            assert(all.take(k + 1).drop_last() =~= all.take(k as int));
            assert(all.take(k + 1).last() == ops@[k as int]@);
            assert(all[k as int] == ops@[k as int]@);
        }
        match &ops[k] {
            CatalogOp::Character { slug, display_name } => {
                match upsert_character(store, slug.as_str(), display_name.as_str()) {
                    Ok(id) => {
                        character = id;
                    },
                    Err(e) => {
                        assert(false);
                        return Err(e);
                    },
                }
            },
            CatalogOp::CharacterAlias { alias } => {
                upsert_alias(store, EntityType::Character, character, alias.as_str());
            },
            CatalogOp::Costume { slug, display_name } => {
                match upsert_costume(store, character, slug.as_str(), display_name.as_str()) {
                    Ok(id) => {
                        costume = id;
                    },
                    Err(e) => {
                        assert(false);
                        return Err(e);
                    },
                }
            },
            CatalogOp::CostumeAlias { alias } => {
                upsert_alias(store, EntityType::Costume, costume, alias.as_str());
            },
        }
        k += 1;
    }
    assert(all.take(ops@.len() as int) =~= all);
    Ok(CatalogReport { characters: items.len(), costumes })
}

/// `a` is the beginning of `b`.
pub open spec fn is_prefix<K>(a: Seq<K>, b: Seq<K>) -> bool {
    a.len() <= b.len() && forall|i: int| 0 <= i < a.len() ==> a[i] == b[i]
}

impl CatalogView {
    /// `self` holds every row of `base` in its place, under the same key and
    /// id, and perhaps more rows after them.
    pub open spec fn extends(self, base: CatalogView) -> bool {
        &&& is_prefix(base.character_keys(), self.character_keys())
        &&& is_prefix(base.character_ids(), self.character_ids())
        &&& is_prefix(base.costume_keys(), self.costume_keys())
        &&& is_prefix(base.costume_ids(), self.costume_ids())
        &&& is_prefix(base.aliases, self.aliases)
    }

    /// `self` and `other` hold the same keys and ids, row by row, and the
    /// same aliases.
    pub open spec fn same_rows(self, other: CatalogView) -> bool {
        &&& self.character_keys() == other.character_keys()
        &&& self.character_ids() == other.character_ids()
        &&& self.costume_keys() == other.costume_keys()
        &&& self.costume_ids() == other.costume_ids()
        &&& self.aliases == other.aliases
    }
}

/// A first position stays the first position when rows are added at the end.
pub proof fn lemma_first_in_prefix<K>(a: Seq<K>, b: Seq<K>, key: K)
    requires
        is_prefix(a, b),
        first_index(a, key) is Some,
    ensures
        first_index(b, key) == first_index(a, key),
{
    let i = choose|i: int| is_first(a, key, i);
    assert(is_first(b, key, i)) by {
        assert forall|j: int| 0 <= j < i implies b[j] != key by {
            assert(a[j] == b[j]);
        }
    }
    lemma_first_some(b, key, i);
}

/// One step deletes no row and changes no key and no id, and it keeps the
/// catalog free of duplicates.
pub proof fn lemma_apply_extends(s: SyncState, op: OpView)
    ensures
        s.apply(op).store.extends(s.store),
        s.store.wf() ==> s.apply(op).store.wf(),
{
    let t = s.apply(op).store;
    match op {
        OpView::Character(slug, name) => {
            match first_index(s.store.character_keys(), slug) {
                Some(i) => {
                    assert(is_first(s.store.character_keys(), slug, i));
                    assert(t.character_keys() =~= s.store.character_keys());
                    assert(t.character_ids() =~= s.store.character_ids());
                },
                None => {
                    assert(t.character_keys() =~= s.store.character_keys().push(slug));
                    assert(t.character_ids() =~= s.store.character_ids().push(
                        next_id(s.store.character_ids()),
                    ));
                    assert forall|j: int|
                        0 <= j < s.store.character_keys().len() implies s.store.character_keys()[j]
                        != slug by {
                        if s.store.character_keys()[j] == slug {
                            lemma_key_has_first(s.store.character_keys(), slug, j);
                        }
                    }
                },
            }
        },
        OpView::CharacterAlias(text) => {
            lemma_put_alias(s.store, EntityType::Character, s.character, text);
        },
        OpView::Costume(slug, name) => {
            let key = (s.character, slug);
            match first_index(s.store.costume_keys(), key) {
                Some(i) => {
                    assert(is_first(s.store.costume_keys(), key, i));
                    assert(t.costume_keys() =~= s.store.costume_keys());
                    assert(t.costume_ids() =~= s.store.costume_ids());
                },
                None => {
                    assert(t.costume_keys() =~= s.store.costume_keys().push(key));
                    assert(t.costume_ids() =~= s.store.costume_ids().push(
                        next_id(s.store.costume_ids()),
                    ));
                    assert forall|j: int|
                        0 <= j < s.store.costume_keys().len() implies s.store.costume_keys()[j]
                        != key by {
                        if s.store.costume_keys()[j] == key {
                            lemma_key_has_first(s.store.costume_keys(), key, j);
                        }
                    }
                },
            }
        },
        OpView::CostumeAlias(text) => {
            lemma_put_alias(s.store, EntityType::Costume, s.costume, text);
        },
    }
}

/// A key that stands somewhere has a first position.
pub proof fn lemma_key_has_first<K>(keys: Seq<K>, key: K, j: int)
    requires
        0 <= j < keys.len(),
        keys[j] == key,
    ensures
        first_index(keys, key) is Some,
    decreases j,
{
    if exists|i: int| 0 <= i < j && keys[i] == key {
        let i = choose|i: int| 0 <= i < j && keys[i] == key;
        lemma_key_has_first(keys, key, i);
    } else {
        assert(is_first(keys, key, j));
    }
}

/// Storing an alias deletes no row, and keeps the aliases free of
/// duplicates.
pub proof fn lemma_put_alias(v: CatalogView, kind: EntityType, id: int, text: Seq<char>)
    ensures
        v.put_alias(kind, id, text).extends(v),
        v.wf() ==> v.put_alias(kind, id, text).wf(),
        is_blank(text) || first_index(v.put_alias(kind, id, text).aliases, (kind, id, text))
            is Some,
{
    let key = (kind, id, text);
    let w = v.put_alias(kind, id, text);
    if !is_blank(text) && first_index(v.aliases, key) is None {
        assert forall|j: int| 0 <= j < v.aliases.len() implies v.aliases[j] != key by {
            if v.aliases[j] == key {
                lemma_key_has_first(v.aliases, key, j);
            }
        }
        assert(w.aliases[v.aliases.len() as int] == key);
        lemma_key_has_first(w.aliases, key, v.aliases.len() as int);
    }
}

/// After a step that stores a character or a costume, the row stands in the
/// catalog under the id that the state remembers.
pub proof fn lemma_apply_stores(s: SyncState, op: OpView)
    ensures
        match op {
            OpView::Character(slug, _) => {
                let t = s.apply(op);
                first_index(t.store.character_keys(), slug) matches Some(p)
                    && t.store.character_ids()[p] == t.character
            },
            OpView::Costume(slug, _) => {
                let t = s.apply(op);
                first_index(t.store.costume_keys(), (s.character, slug)) matches Some(p)
                    && t.store.costume_ids()[p] == t.costume
            },
            OpView::CharacterAlias(text) => is_blank(text) || first_index(
                s.apply(op).store.aliases,
                (EntityType::Character, s.character, text),
            ) is Some,
            OpView::CostumeAlias(text) => is_blank(text) || first_index(
                s.apply(op).store.aliases,
                (EntityType::Costume, s.costume, text),
            ) is Some,
        },
{
    let t = s.apply(op);
    match op {
        OpView::Character(slug, name) => {
            let keys = s.store.character_keys();
            match first_index(keys, slug) {
                Some(i) => {
                    assert(is_first(keys, slug, i));
                    assert(t.store.character_keys() =~= keys);
                },
                None => {
                    assert(t.store.character_keys() =~= keys.push(slug));
                    assert forall|j: int| 0 <= j < keys.len() implies keys[j] != slug by {
                        if keys[j] == slug {
                            lemma_key_has_first(keys, slug, j);
                        }
                    }
                    assert(is_first(t.store.character_keys(), slug, keys.len() as int));
                    lemma_first_some(t.store.character_keys(), slug, keys.len() as int);
                },
            }
        },
        OpView::Costume(slug, name) => {
            let keys = s.store.costume_keys();
            let key = (s.character, slug);
            match first_index(keys, key) {
                Some(i) => {
                    assert(is_first(keys, key, i));
                    assert(t.store.costume_keys() =~= keys);
                },
                None => {
                    assert(t.store.costume_keys() =~= keys.push(key));
                    assert forall|j: int| 0 <= j < keys.len() implies keys[j] != key by {
                        if keys[j] == key {
                            lemma_key_has_first(keys, key, j);
                        }
                    }
                    assert(is_first(t.store.costume_keys(), key, keys.len() as int));
                    lemma_first_some(t.store.costume_keys(), key, keys.len() as int);
                },
            }
        },
        OpView::CharacterAlias(text) => {
            lemma_put_alias(s.store, EntityType::Character, s.character, text);
        },
        OpView::CostumeAlias(text) => {
            lemma_put_alias(s.store, EntityType::Costume, s.costume, text);
        },
    }
}

/// A run deletes no row and changes no key and no id: the catalog after the
/// first `j` steps is extended by the catalog after the first `m`, and a
/// run keeps the catalog free of duplicates.
pub proof fn lemma_run_extends(s: SyncState, ops: Seq<OpView>, j: int, m: int)
    requires
        0 <= j <= m <= ops.len(),
    ensures
        s.run(ops.take(m)).store.extends(s.run(ops.take(j)).store),
        s.store.wf() ==> s.run(ops.take(m)).store.wf(),
    decreases m,
{
    if m == 0 {
        assert(ops.take(0) =~= Seq::<OpView>::empty());
    } else {
        assert(ops.take(m).drop_last() =~= ops.take(m - 1));
        lemma_run_extends(s, ops, 0, m - 1);
        lemma_apply_extends(s.run(ops.take(m - 1)), ops.take(m).last());
        if j < m {
            lemma_run_extends(s, ops, j, m - 1);
        }
    }
}

/// A second run of the same steps finds every row in place: after each step
/// it remembers the ids that the first run remembered there, and the
/// catalog holds the rows that the first run ended with.
pub proof fn lemma_second_run(s: SyncState, ops: Seq<OpView>, k: int)
    requires
        0 <= k <= ops.len(),
    ensures
        ({
            let done = s.run(ops).store;
            let again = (SyncState { store: done, character: s.character, costume: s.costume }).run(
                ops.take(k),
            );
            &&& again.store.same_rows(done)
            &&& again.character == s.run(ops.take(k)).character
            &&& again.costume == s.run(ops.take(k)).costume
        }),
    decreases k,
{
    let done = s.run(ops).store;
    let t0 = SyncState { store: done, character: s.character, costume: s.costume };
    if k == 0 {
        assert(ops.take(0) =~= Seq::<OpView>::empty());
    } else {
        lemma_second_run(s, ops, k - 1);
        assert(ops.take(k).drop_last() =~= ops.take(k - 1));
        assert(ops.take(ops.len() as int) =~= ops);
        let op = ops.take(k).last();
        let before = s.run(ops.take(k - 1));
        let after = s.run(ops.take(k));
        let prev = t0.run(ops.take(k - 1));
        lemma_apply_stores(before, op);
        lemma_run_extends(s, ops, k, ops.len() as int);
        match op {
            OpView::Character(slug, name) => {
                lemma_first_in_prefix(after.store.character_keys(), done.character_keys(), slug);
                let p = first_index(prev.store.character_keys(), slug)->0;
                assert(is_first(prev.store.character_keys(), slug, p));
                let w = prev.apply(op).store;
                assert(w.character_keys() =~= prev.store.character_keys());
                assert(w.character_ids() =~= prev.store.character_ids());
            },
            OpView::CharacterAlias(text) => {
                if !is_blank(text) {
                    lemma_first_in_prefix(
                        after.store.aliases,
                        done.aliases,
                        (EntityType::Character, before.character, text),
                    );
                }
            },
            OpView::Costume(slug, name) => {
                let key = (before.character, slug);
                lemma_first_in_prefix(after.store.costume_keys(), done.costume_keys(), key);
                let p = first_index(prev.store.costume_keys(), key)->0;
                assert(is_first(prev.store.costume_keys(), key, p));
                let w = prev.apply(op).store;
                assert(w.costume_keys() =~= prev.store.costume_keys());
                assert(w.costume_ids() =~= prev.store.costume_ids());
            },
            OpView::CostumeAlias(text) => {
                if !is_blank(text) {
                    lemma_first_in_prefix(
                        after.store.aliases,
                        done.aliases,
                        (EntityType::Costume, before.costume, text),
                    );
                }
            },
        }
    }
}

/// Synchronising twice with the same list is synchronising once: the second
/// run adds no character, no costume and no alias and changes no id, it
/// needs no new id, and a catalog without duplicates stays without.
pub proof fn lemma_sync_idempotent(v: CatalogView, items: Seq<CatalogCharacter>)
    ensures
        synced(synced(v, items), items).same_rows(synced(v, items)),
        synced(synced(v, items), items).characters.len() == synced(v, items).characters.len(),
        synced(synced(v, items), items).costumes.len() == synced(v, items).costumes.len(),
        synced(synced(v, items), items).aliases.len() == synced(v, items).aliases.len(),
        v.wf() ==> synced(v, items).wf() && synced(synced(v, items), items).wf(),
{
    let ops = ops_of(items);
    let s = SyncState { store: v, character: 0, costume: 0 };
    assert(ops.take(ops.len() as int) =~= ops);
    lemma_second_run(s, ops, ops.len() as int);
    lemma_run_extends(s, ops, 0, ops.len() as int);
    let once = synced(v, items);
    let t = SyncState { store: once, character: 0, costume: 0 };
    lemma_run_extends(t, ops, 0, ops.len() as int);
    let twice = synced(once, items);
    assert(twice.character_keys().len() == once.character_keys().len());
    assert(twice.costume_keys().len() == once.costume_keys().len());
}

/// The display name that the last step of `ops` for the character `slug`
/// gives it, if a step of `ops` stores that character.
pub open spec fn last_character_name(ops: Seq<OpView>, slug: Seq<char>) -> Option<Seq<char>>
    decreases ops.len(),
{
    if ops.len() == 0 {
        None
    } else {
        match ops.last() {
            OpView::Character(s, n) => if s == slug {
                Some(n)
            } else {
                last_character_name(ops.drop_last(), slug)
            },
            _ => last_character_name(ops.drop_last(), slug),
        }
    }
}

/// The display name that the last step of `ops` for the costume `key` gives
/// it, if a step of a run from `start` stores that costume.
pub open spec fn last_costume_name(start: SyncState, ops: Seq<OpView>, key: (int, Seq<char>)) -> Option<
    Seq<char>,
>
    decreases ops.len(),
{
    if ops.len() == 0 {
        None
    } else {
        match ops.last() {
            OpView::Costume(s, n) => if (start.run(ops.drop_last()).character, s) == key {
                Some(n)
            } else {
                last_costume_name(start, ops.drop_last(), key)
            },
            _ => last_costume_name(start, ops.drop_last(), key),
        }
    }
}

/// After a run on a catalog without duplicates, each character and costume
/// has the display name of the last step that stored it, and one that no
/// step stored stands where it stood, under the name it had.
pub proof fn lemma_names_after_run(s: SyncState, ops: Seq<OpView>)
    requires
        s.store.wf(),
    ensures
        ({
            let end = s.run(ops).store;
            &&& forall|i: int|
                0 <= i < end.characters.len() ==> match last_character_name(
                    ops,
                    (#[trigger] end.characters[i]).1,
                ) {
                    Some(n) => end.characters[i].2 == n,
                    None => i < s.store.characters.len() && end.characters[i].2
                        == s.store.characters[i].2,
                }
            &&& forall|i: int|
                0 <= i < end.costumes.len() ==> match last_costume_name(
                    s,
                    ops,
                    ((#[trigger] end.costumes[i]).1, end.costumes[i].2),
                ) {
                    Some(n) => end.costumes[i].3 == n,
                    None => i < s.store.costumes.len() && end.costumes[i].3
                        == s.store.costumes[i].3,
                }
        }),
    decreases ops.len(),
{
    if ops.len() > 0 {
        let rest = ops.drop_last();
        let op = ops.last();
        lemma_names_after_run(s, rest);
        assert(rest.take(rest.len() as int) =~= rest);
        lemma_run_extends(s, rest, 0, rest.len() as int);
        let prev = s.run(rest);
        let end = s.run(ops).store;
        assert(prev.store.wf());
        match op {
            OpView::Character(slug, name) => {
                let keys = prev.store.character_keys();
                match first_index(keys, slug) {
                    Some(p) => {
                        assert(is_first(keys, slug, p));
                        assert forall|i: int| 0 <= i < end.characters.len() implies match last_character_name(
                            ops,
                            (#[trigger] end.characters[i]).1,
                        ) {
                            Some(n) => end.characters[i].2 == n,
                            None => i < s.store.characters.len() && end.characters[i].2
                                == s.store.characters[i].2,
                        } by {
                            if i != p {
                                assert(keys[i] == prev.store.characters[i].1);
                                assert(keys[p] == slug);
                                assert(keys[i] != keys[p]);
                            }
                        }
                    },
                    None => {
                        assert forall|i: int| 0 <= i < end.characters.len() implies match last_character_name(
                            ops,
                            (#[trigger] end.characters[i]).1,
                        ) {
                            Some(n) => end.characters[i].2 == n,
                            None => i < s.store.characters.len() && end.characters[i].2
                                == s.store.characters[i].2,
                        } by {
                            if i < keys.len() {
                                assert(keys[i] == prev.store.characters[i].1);
                                if keys[i] == slug {
                                    lemma_key_has_first(keys, slug, i);
                                }
                            }
                        }
                    },
                }
            },
            OpView::Costume(slug, name) => {
                let keys = prev.store.costume_keys();
                let key = (prev.character, slug);
                match first_index(keys, key) {
                    Some(p) => {
                        assert(is_first(keys, key, p));
                        assert forall|i: int| 0 <= i < end.costumes.len() implies match last_costume_name(
                            s,
                            ops,
                            ((#[trigger] end.costumes[i]).1, end.costumes[i].2),
                        ) {
                            Some(n) => end.costumes[i].3 == n,
                            None => i < s.store.costumes.len() && end.costumes[i].3
                                == s.store.costumes[i].3,
                        } by {
                            if i != p {
                                assert(keys[i] == (
                                    prev.store.costumes[i].1,
                                    prev.store.costumes[i].2,
                                ));
                                assert(keys[p] == key);
                                assert(keys[i] != keys[p]);
                            }
                        }
                    },
                    None => {
                        assert forall|i: int| 0 <= i < end.costumes.len() implies match last_costume_name(
                            s,
                            ops,
                            ((#[trigger] end.costumes[i]).1, end.costumes[i].2),
                        ) {
                            Some(n) => end.costumes[i].3 == n,
                            None => i < s.store.costumes.len() && end.costumes[i].3
                                == s.store.costumes[i].3,
                        } by {
                            if i < keys.len() {
                                assert(keys[i] == (
                                    prev.store.costumes[i].1,
                                    prev.store.costumes[i].2,
                                ));
                                if keys[i] == key {
                                    lemma_key_has_first(keys, key, i);
                                }
                            }
                        }
                    },
                }
            },
            OpView::CharacterAlias(text) => {},
            OpView::CostumeAlias(text) => {},
        }
    }
}

/// In a second run of the same steps each costume is stored by the same steps
/// as in the first.
pub proof fn lemma_same_costume_steps(s: SyncState, ops: Seq<OpView>, k: int, key: (int, Seq<char>))
    requires
        0 <= k <= ops.len(),
    ensures
        last_costume_name(
            SyncState { store: s.run(ops).store, character: s.character, costume: s.costume },
            ops.take(k),
            key,
        ) == last_costume_name(s, ops.take(k), key),
    decreases k,
{
    if k > 0 {
        assert(ops.take(k).drop_last() =~= ops.take(k - 1));
        lemma_same_costume_steps(s, ops, k - 1, key);
        lemma_second_run(s, ops, k - 1);
    }
}

/// Synchronising a catalog without duplicates twice with the same list gives
/// the catalog that synchronising it once gives.
pub proof fn lemma_sync_twice_is_once(v: CatalogView, items: Seq<CatalogCharacter>)
    requires
        v.wf(),
    ensures
        synced(synced(v, items), items) == synced(v, items),
{
    let ops = ops_of(items);
    let s = SyncState { store: v, character: 0, costume: 0 };
    let once = synced(v, items);
    let t = SyncState { store: once, character: 0, costume: 0 };
    let twice = synced(once, items);
    assert(ops.take(ops.len() as int) =~= ops);
    lemma_sync_idempotent(v, items);
    lemma_names_after_run(s, ops);
    lemma_names_after_run(t, ops);
    assert forall|i: int| 0 <= i < twice.characters.len() implies twice.characters[i]
        == once.characters[i] by {
        assert(twice.character_keys()[i] == once.character_keys()[i]);
        assert(twice.character_ids()[i] == once.character_ids()[i]);
    }
    assert forall|i: int| 0 <= i < twice.costumes.len() implies twice.costumes[i]
        == once.costumes[i] by {
        assert(twice.costume_keys()[i] == once.costume_keys()[i]);
        assert(twice.costume_ids()[i] == once.costume_ids()[i]);
        lemma_same_costume_steps(
            s,
            ops,
            ops.len() as int,
            (twice.costumes[i].1, twice.costumes[i].2),
        );
    }
    assert(twice.character_keys().len() == once.character_keys().len());
    assert(twice.costume_keys().len() == once.costume_keys().len());
    assert(twice.characters =~= once.characters);
    assert(twice.costumes =~= once.costumes);
}

/// The two shapes of a canonical catalog file.
#[derive(Debug, Clone, Copy, PartialEq, Eq, Structural)]
pub enum CatalogShape {
    /// A bare list of characters.
    BareList,
    /// An object that holds the list under "characters".
    Wrapper,
}

/// The shape that the text of a catalog file announces: a bare list where
/// its first character after white space is '[', an object otherwise.
pub open spec fn shape_of(data: Seq<char>) -> CatalogShape {
    if trimmed(data).len() > 0 && trimmed(data)[0] == '[' {
        CatalogShape::BareList
    } else {
        CatalogShape::Wrapper
    }
}

/// Frames the text of a catalog file for its parser: the text without the
/// white space around it, and the shape to parse it as.
pub fn load_from_str(data: &str) -> (out: (String, CatalogShape))
    ensures
        out.0@ == trimmed(data@),
        out.1 == shape_of(data@),
{
    let text = trim(data);
    let v = chars_of(text.as_str());
    let shape = if v.len() > 0 && v[0] == '[' {
        CatalogShape::BareList
    } else {
        CatalogShape::Wrapper
    };
    (text, shape)
}

/// Synchronises the catalog with what was loaded from a catalog file. A
/// file that could not be read or parsed is an error, handed on as it is,
/// and leaves the catalog unchanged.
pub fn sync_from_path(store: &mut CatalogStore, loaded: Result<Vec<CatalogCharacter>, String>) -> (out:
    Result<CatalogReport, String>)
    ensures
        match loaded {
            Err(e) => out == Err::<CatalogReport, String>(e) && *final(store) == *old(store),
            Ok(items) => {
                &&& out matches Ok(report) && report.characters == items@.len()
                    && report.costumes == costume_count(items@)
                &&& final(store)@ == synced(old(store)@, items@)
            },
        },
        old(store)@.wf() ==> final(store)@.wf(),
        old(store)@.ids_ok() ==> final(store)@.ids_ok(),
        old(store)@.refs_ok() ==> final(store)@.refs_ok(),
{
    match loaded {
        Err(e) => Err(e),
        Ok(items) => sync_records(store, items),
    }
}

/// Synchronises the catalog with what was loaded from the catalog that
/// ships with the program. A catalog that could not be parsed is an error,
/// handed on as it is, and leaves the catalog unchanged.
pub fn sync_builtin(store: &mut CatalogStore, builtin: Result<Vec<CatalogCharacter>, String>) -> (out:
    Result<CatalogReport, String>)
    ensures
        match builtin {
            Err(e) => out == Err::<CatalogReport, String>(e) && *final(store) == *old(store),
            Ok(items) => {
                &&& out matches Ok(report) && report.characters == items@.len()
                    && report.costumes == costume_count(items@)
                &&& final(store)@ == synced(old(store)@, items@)
            },
        },
        old(store)@.wf() ==> final(store)@.wf(),
        old(store)@.ids_ok() ==> final(store)@.ids_ok(),
        old(store)@.refs_ok() ==> final(store)@.refs_ok(),
{
    sync_from_path(store, builtin)
}

/// The characters of the catalog as (id, slug, display name), in the order
/// of the store.
pub fn db_characters(store: &CatalogStore) -> (out: Vec<(i64, String, String)>)
    ensures
        out@.len() == store@.characters.len(),
        forall|i: int|
            0 <= i < out@.len() ==> ((#[trigger] out@[i]).0 as int, out@[i].1@, out@[i].2@)
                == store@.characters[i],
{
    let mut out: Vec<(i64, String, String)> = Vec::new();
    let mut i: usize = 0;
    while i < store.characters.len()
        invariant
            0 <= i <= store.characters@.len(),
            out@.len() == i,
            forall|j: int|
                0 <= j < i ==> ((#[trigger] out@[j]).0 as int, out@[j].1@, out@[j].2@)
                    == store@.characters[j],
        decreases store.characters.len() - i,
    {
        let r = &store.characters[i];
        out.push((r.id, r.slug.clone(), r.display_name.clone()));
        i += 1;
    }
    out
}

/// The costumes of the catalog as (id, character id, slug, display name), in
/// the order of the store.
pub fn db_costumes(store: &CatalogStore) -> (out: Vec<(i64, i64, String, String)>)
    ensures
        out@.len() == store@.costumes.len(),
        forall|i: int|
            0 <= i < out@.len() ==> (
                (#[trigger] out@[i]).0 as int,
                out@[i].1 as int,
                out@[i].2@,
                out@[i].3@,
            ) == store@.costumes[i],
{
    let mut out: Vec<(i64, i64, String, String)> = Vec::new();
    let mut i: usize = 0;
    while i < store.costumes.len()
        invariant
            0 <= i <= store.costumes@.len(),
            out@.len() == i,
            forall|j: int|
                0 <= j < i ==> (
                    (#[trigger] out@[j]).0 as int,
                    out@[j].1 as int,
                    out@[j].2@,
                    out@[j].3@,
                ) == store@.costumes[j],
        decreases store.costumes.len() - i,
    {
        let r = &store.costumes[i];
        out.push((r.id, r.character_id, r.slug.clone(), r.display_name.clone()));
        i += 1;
    }
    out
}

/// The aliases of the catalog as (kind, entity id, text), in the order of the
/// store.
pub fn db_aliases(store: &CatalogStore) -> (out: Vec<(EntityType, i64, String)>)
    ensures
        out@.len() == store@.aliases.len(),
        forall|i: int|
            0 <= i < out@.len() ==> ((#[trigger] out@[i]).0, out@[i].1 as int, out@[i].2@)
                == store@.aliases[i],
{
    let mut out: Vec<(EntityType, i64, String)> = Vec::new();
    let mut i: usize = 0;
    while i < store.aliases.len()
        invariant
            0 <= i <= store.aliases@.len(),
            out@.len() == i,
            forall|j: int|
                0 <= j < i ==> ((#[trigger] out@[j]).0, out@[j].1 as int, out@[j].2@)
                    == store@.aliases[j],
        decreases store.aliases.len() - i,
    {
        let r = &store.aliases[i];
        out.push((r.entity_type, r.entity_id, r.alias_text.clone()));
        i += 1;
    }
    out
}

/// Whether a path given for a catalog file names a file at all: the path
/// without the white space around it, or the error for an empty path.
pub fn catalog_import_from_file(path: &str) -> (out: Result<String, String>)
    ensures
        match out {
            Ok(p) => p@ == trimmed(path@) && !is_blank(path@),
            Err(e) => e@ == "path is empty"@ && is_blank(path@),
        },
{
    let t = trim(path);
    if t.as_str().unicode_len() == 0 {
        Err("path is empty".to_owned())
    } else {
        Ok(t)
    }
}

} // verus!
