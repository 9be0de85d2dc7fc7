//! The mod store and what fills it: the rescan of the library roots, the
//! dry run that proposes drafts for review, and the commit of reviewed
//! drafts. A mod is keyed by its folder path, and no path is stored twice.

use crate::catalog::{
    distinct, first_index, ints, is_first, lemma_first_none, lemma_first_some,
    lemma_key_has_first, lemma_next_id, next_free_id, next_id, str_eq,
};
use crate::classify::{author_of, infer_author_name, infer_mod_type, mod_type_of};
use crate::paths::{normalize_path_string, path_key};
use crate::catalog::EntityType;
use crate::resolve::{infer_with_aliases, inferred_with};
use crate::text::{blank, is_blank, trim, trimmed};
use crate::types::{AuthorFolder, Confidence, DraftMod, ModRow, ModType, NewMod, ScanSummary};
use vstd::prelude::*;

verus! {

/// The view of an optional string.
pub open spec fn opt_view(o: Option<String>) -> Option<Seq<char>> {
    match o {
        Some(s) => Some(s@),
        None => None,
    }
}

/// A copy of an optional string.
pub fn clone_opt(o: &Option<String>) -> (out: Option<String>)
    ensures
        opt_view(out) == opt_view(*o),
{
    match o {
        Some(s) => Some(s.clone()),
        None => None,
    }
}

/// A mod row as contracts see it.
pub struct ModView {
    pub id: int,
    pub display_name: Seq<char>,
    pub folder_path: Seq<char>,
    pub author: Option<Seq<char>>,
    pub download_url: Option<Seq<char>>,
    pub character_id: Option<i64>,
    pub costume_id: Option<i64>,
    pub mod_type: ModType,
    pub installed: bool,
    pub installed_at: Option<Seq<char>>,
    pub target_path: Option<Seq<char>>,
    pub created_at: Seq<char>,
    pub updated_at: Seq<char>,
}

/// A draft as contracts see it.
pub struct DraftView {
    pub display_name: Seq<char>,
    pub folder_path: Seq<char>,
    pub author: Option<Seq<char>>,
    pub download_url: Option<Seq<char>>,
    pub mod_type: ModType,
    pub character_id: Option<i64>,
    pub costume_id: Option<i64>,
    pub infer_confidence: Confidence,
}

/// The view of a mod row.
pub open spec fn row_view(r: ModRow) -> ModView {
    ModView {
        id: r.id as int,
        display_name: r.display_name@,
        folder_path: r.folder_path@,
        author: opt_view(r.author),
        download_url: opt_view(r.download_url),
        character_id: r.character_id,
        costume_id: r.costume_id,
        mod_type: r.mod_type,
        installed: r.installed,
        installed_at: opt_view(r.installed_at),
        target_path: opt_view(r.target_path),
        created_at: r.created_at@,
        updated_at: r.updated_at@,
    }
}

/// The view of a draft.
pub open spec fn draft_view(d: DraftMod) -> DraftView {
    DraftView {
        display_name: d.display_name@,
        folder_path: d.folder_path@,
        author: opt_view(d.author),
        download_url: opt_view(d.download_url),
        mod_type: d.mod_type,
        character_id: d.character_id,
        costume_id: d.costume_id,
        infer_confidence: d.infer_confidence,
    }
}

/// The mods, in the order of insertion.
#[derive(Debug, Clone, PartialEq, Eq)]
pub struct ModStore {
    pub rows: Vec<ModRow>,
}

/// The folder paths of the rows.
pub open spec fn mod_keys(rows: Seq<ModView>) -> Seq<Seq<char>> {
    Seq::new(rows.len(), |i: int| rows[i].folder_path)
}

/// The ids of the rows.
pub open spec fn mod_ids(rows: Seq<ModView>) -> Seq<int> {
    Seq::new(rows.len(), |i: int| rows[i].id)
}

/// No folder path is stored twice.
pub open spec fn mods_wf(rows: Seq<ModView>) -> bool {
    distinct(mod_keys(rows))
}

/// No id is given to two rows.
pub open spec fn mods_ids_ok(rows: Seq<ModView>) -> bool {
    distinct(mod_ids(rows))
}

/// The row that a rescan inserts for a folder it finds.
pub open spec fn scanned_row(
    id: int,
    key: Seq<char>,
    display_name: Seq<char>,
    author: Seq<char>,
    now: Seq<char>,
) -> ModView {
    ModView {
        id,
        display_name,
        folder_path: key,
        author: Some(author),
        download_url: None,
        character_id: None,
        costume_id: None,
        mod_type: ModType::Other,
        installed: false,
        installed_at: None,
        target_path: None,
        created_at: now,
        updated_at: now,
    }
}

/// The row that a commit inserts for a draft.
pub open spec fn draft_row(id: int, key: Seq<char>, d: DraftView, now: Seq<char>) -> ModView {
    ModView {
        id,
        display_name: d.display_name,
        folder_path: key,
        author: d.author,
        download_url: d.download_url,
        character_id: d.character_id,
        costume_id: d.costume_id,
        mod_type: d.mod_type,
        installed: false,
        installed_at: None,
        target_path: None,
        created_at: now,
        updated_at: now,
    }
}

/// The rows after a rescan has stored a folder: the row of that path gets
/// the display name, the author and the time and keeps the rest, or a new
/// row is added under the next id.
pub open spec fn put_scanned(
    rows: Seq<ModView>,
    key: Seq<char>,
    display_name: Seq<char>,
    author: Seq<char>,
    now: Seq<char>,
) -> Seq<ModView> {
    match first_index(mod_keys(rows), key) {
        Some(i) => rows.update(
            i,
            ModView { display_name, author: Some(author), updated_at: now, ..rows[i] },
        ),
        None => rows.push(scanned_row(next_id(mod_ids(rows)), key, display_name, author, now)),
    }
}

/// The rows after a commit has stored a draft under `key`: the row of that
/// path takes what the draft says and keeps its id, what is installed and
/// when it was created, or a new row is added under the next id.
pub open spec fn put_draft(rows: Seq<ModView>, key: Seq<char>, d: DraftView, now: Seq<char>) -> Seq<
    ModView,
> {
    match first_index(mod_keys(rows), key) {
        Some(i) => rows.update(
            i,
            ModView {
                display_name: d.display_name,
                author: d.author,
                download_url: d.download_url,
                character_id: d.character_id,
                costume_id: d.costume_id,
                mod_type: d.mod_type,
                updated_at: now,
                ..rows[i]
            },
        ),
        None => rows.push(draft_row(next_id(mod_ids(rows)), key, d, now)),
    }
}

impl ModStore {
    pub open spec fn view(&self) -> Seq<ModView> {
        Seq::new(self.rows@.len(), |i: int| row_view(self.rows@[i]))
    }

    /// An empty store.
    pub fn new() -> (out: Self)
        ensures
            out@.len() == 0,
            mods_wf(out@),
            mods_ids_ok(out@),
    {
        ModStore { rows: Vec::new() }
    }

    /// The position of the row with folder path `key`.
    pub fn find(&self, key: &str) -> (out: Option<usize>)
        ensures
            match out {
                Some(i) => first_index(mod_keys(self@), key@) == Some(i as int),
                None => first_index(mod_keys(self@), key@) is None,
            },
    {
        let ghost keys = mod_keys(self@);
        let mut i: usize = 0;
        while i < self.rows.len()
            invariant
                0 <= i <= self.rows@.len(),
                keys == mod_keys(self@),
                forall|j: int| 0 <= j < i ==> keys[j] != key@,
            decreases self.rows.len() - i,
        {
            if str_eq(self.rows[i].folder_path.as_str(), key) {
                proof {
                    assert(is_first(keys, key@, i as int));
                    lemma_first_some(keys, key@, i as int);
                }
                return Some(i);
            }
            i += 1;
        }
        proof {
            lemma_first_none(keys, key@);
        }
        None
    }

    /// The ids of the rows, row by row.
    pub fn id_list(&self) -> (out: Vec<i64>)
        ensures
            ints(out@) == mod_ids(self@),
    {
        let mut out: Vec<i64> = Vec::new();
        let mut i: usize = 0;
        while i < self.rows.len()
            invariant
                0 <= i <= self.rows@.len(),
                out@.len() == i,
                forall|j: int| 0 <= j < i ==> out@[j] == self.rows@[j].id,
            decreases self.rows.len() - i,
        {
            out.push(self.rows[i].id);
            i += 1;
        }
        assert(ints(out@) =~= mod_ids(self@));
        out
    }
}

/// Stores a folder that a rescan found: the row of that path gets the
/// display name, the author and the time, or a new row is added under the
/// next id.
pub fn upsert_scanned(
    store: &mut ModStore,
    key: &str,
    display_name: &str,
    author: &str,
    now: &str,
)
    ensures
        final(store)@ == put_scanned(old(store)@, key@, display_name@, author@, now@),
        mods_wf(old(store)@) ==> mods_wf(final(store)@),
        mods_ids_ok(old(store)@) ==> mods_ids_ok(final(store)@),
{
    let ghost v0 = store@;
    let found = store.find(key);
    match found {
        Some(i) => {
            proof {
                assert(is_first(mod_keys(v0), key@, i as int));
            }
            let old_row = &store.rows[i];
            let row = ModRow {
                id: old_row.id,
                display_name: display_name.to_owned(),
                folder_path: old_row.folder_path.clone(),
                author: Some(author.to_owned()),
                download_url: clone_opt(&old_row.download_url),
                character_id: old_row.character_id,
                costume_id: old_row.costume_id,
                mod_type: old_row.mod_type,
                installed: old_row.installed,
                installed_at: clone_opt(&old_row.installed_at),
                target_path: clone_opt(&old_row.target_path),
                created_at: old_row.created_at.clone(),
                updated_at: now.to_owned(),
            };
            store.rows.set(i, row);
            proof {
                assert(store@ =~= put_scanned(v0, key@, display_name@, author@, now@));
                assert(mod_keys(store@) =~= mod_keys(v0));
                assert(mod_ids(store@) =~= mod_ids(v0));
            }
        },
        None => {
            let ids = store.id_list();
            let count = ids.len();
            assert(mod_ids(v0).len() == count && count <= u64::MAX);
            let id = next_free_id(&ids);
            let row = ModRow {
                id,
                display_name: display_name.to_owned(),
                folder_path: key.to_owned(),
                author: Some(author.to_owned()),
                download_url: None,
                character_id: None,
                costume_id: None,
                mod_type: ModType::Other,
                installed: false,
                installed_at: None,
                target_path: None,
                created_at: now.to_owned(),
                updated_at: now.to_owned(),
            };
            store.rows.push(row);
            proof {
                assert(store@ =~= put_scanned(v0, key@, display_name@, author@, now@));
                assert(mod_keys(store@) =~= mod_keys(v0).push(key@));
                assert(mod_ids(store@) =~= mod_ids(v0).push(id as int));
                lemma_next_id(mod_ids(v0));
                assert forall|j: int| 0 <= j < mod_keys(v0).len() implies mod_keys(v0)[j]
                    != key@ by {
                    if mod_keys(v0)[j] == key@ {
                        lemma_key_has_first(mod_keys(v0), key@, j);
                    }
                }
            }
        },
    }
}

/// Stores a draft under the folder path `key`: the row of that path takes
/// what the draft says, or a new row is added under the next id. Returns
/// whether the path was stored before.
pub fn upsert_draft(store: &mut ModStore, key: &str, d: &DraftMod, now: &str) -> (existed: bool)
    ensures
        final(store)@ == put_draft(old(store)@, key@, draft_view(*d), now@),
        existed == (first_index(mod_keys(old(store)@), key@) is Some),
        mods_wf(old(store)@) ==> mods_wf(final(store)@),
        mods_ids_ok(old(store)@) ==> mods_ids_ok(final(store)@),
{
    let ghost v0 = store@;
    let found = store.find(key);
    match found {
        Some(i) => {
            proof {
                assert(is_first(mod_keys(v0), key@, i as int));
            }
            let old_row = &store.rows[i];
            let row = ModRow {
                id: old_row.id,
                display_name: d.display_name.clone(),
                folder_path: old_row.folder_path.clone(),
                author: clone_opt(&d.author),
                download_url: clone_opt(&d.download_url),
                character_id: d.character_id,
                costume_id: d.costume_id,
                mod_type: d.mod_type,
                installed: old_row.installed,
                installed_at: clone_opt(&old_row.installed_at),
                target_path: clone_opt(&old_row.target_path),
                created_at: old_row.created_at.clone(),
                updated_at: now.to_owned(),
            };
            store.rows.set(i, row);
            proof {
                assert(store@ =~= put_draft(v0, key@, draft_view(*d), now@));
                assert(mod_keys(store@) =~= mod_keys(v0));
                assert(mod_ids(store@) =~= mod_ids(v0));
            }
            true
        },
        None => {
            let ids = store.id_list();
            let count = ids.len();
            assert(mod_ids(v0).len() == count && count <= u64::MAX);
            let id = next_free_id(&ids);
            let row = ModRow {
                id,
                display_name: d.display_name.clone(),
                folder_path: key.to_owned(),
                author: clone_opt(&d.author),
                download_url: clone_opt(&d.download_url),
                character_id: d.character_id,
                costume_id: d.costume_id,
                mod_type: d.mod_type,
                installed: false,
                installed_at: None,
                target_path: None,
                created_at: now.to_owned(),
                updated_at: now.to_owned(),
            };
            store.rows.push(row);
            proof {
                assert(store@ =~= put_draft(v0, key@, draft_view(*d), now@));
                assert(mod_keys(store@) =~= mod_keys(v0).push(key@));
                assert(mod_ids(store@) =~= mod_ids(v0).push(id as int));
                lemma_next_id(mod_ids(v0));
                assert forall|j: int| 0 <= j < mod_keys(v0).len() implies mod_keys(v0)[j]
                    != key@ by {
                    if mod_keys(v0)[j] == key@ {
                        lemma_key_has_first(mod_keys(v0), key@, j);
                    }
                }
            }
            false
        },
    }
}

/// What the walk of the library roots comes upon, in the order of the walk.
#[derive(Debug, Clone, PartialEq, Eq)]
pub enum ScanEvent {
    /// A library root is entered.
    Root,
    /// An entry could not be read.
    Unreadable,
    /// A mod folder inside an author folder. `resolved` is what the file
    /// system resolved `path` to, if anything.
    ModFolder { author_folder: String, display_name: String, path: String, resolved: Option<String> },
}

/// The rows and the counts of a rescan under way.
pub struct RescanState {
    pub rows: Seq<ModView>,
    pub scanned_dirs: nat,
    pub discovered_mods: nat,
    pub upserts: nat,
    pub errors: nat,
}

/// The state of a rescan after one event.
pub open spec fn rescan_step(s: RescanState, e: ScanEvent, now: Seq<char>) -> RescanState {
    match e {
        ScanEvent::Root => RescanState { scanned_dirs: s.scanned_dirs + 1, ..s },
        ScanEvent::Unreadable => RescanState { errors: s.errors + 1, ..s },
        ScanEvent::ModFolder { author_folder, display_name, path, resolved } => RescanState {
            rows: put_scanned(
                s.rows,
                path_key(path@, opt_view(resolved)),
                display_name@,
                author_of(author_folder@),
                now,
            ),
            discovered_mods: s.discovered_mods + 1,
            upserts: s.upserts + 1,
            ..s
        },
    }
}

/// The state of a rescan after the events of `events`, in order.
pub open spec fn rescan_run(s: RescanState, events: Seq<ScanEvent>, now: Seq<char>) -> RescanState
    decreases events.len(),
{
    if events.len() == 0 {
        s
    } else {
        rescan_step(rescan_run(s, events.drop_last(), now), events.last(), now)
    }
}

/// The state in which a rescan of `rows` starts.
pub open spec fn rescan_start(rows: Seq<ModView>) -> RescanState {
    RescanState { rows, scanned_dirs: 0, discovered_mods: 0, upserts: 0, errors: 0 }
}

/// Stores every mod folder that the walk of the library roots found, under
/// its path key, with the author read from the name of the author folder,
/// and counts roots, folders, upserts and unreadable entries. A folder that
/// is stored already keeps its character, costume and type. It always
/// succeeds.
pub fn paths_rescan(store: &mut ModStore, events: &Vec<ScanEvent>, now: &str) -> (out: Result<
    ScanSummary,
    String,
>)
    ensures
        ({
            let end = rescan_run(rescan_start(old(store)@), events@, now@);
            &&& final(store)@ == end.rows
            &&& out matches Ok(summary) && summary.scanned_dirs == end.scanned_dirs
                && summary.discovered_mods == end.discovered_mods && summary.upserts
                == end.upserts && summary.errors == end.errors
        }),
        mods_wf(old(store)@) ==> mods_wf(final(store)@),
        mods_ids_ok(old(store)@) ==> mods_ids_ok(final(store)@),
{
    let ghost v0 = store@;
    let mut summary = ScanSummary { scanned_dirs: 0, discovered_mods: 0, upserts: 0, errors: 0 };
    let mut k: usize = 0;
    assert(events@.take(0) =~= Seq::<ScanEvent>::empty());
    while k < events.len()
        invariant
            0 <= k <= events.len(),
            v0 == old(store)@,
            mods_wf(v0) ==> mods_wf(store@),
            mods_ids_ok(v0) ==> mods_ids_ok(store@),
            summary.scanned_dirs <= k,
            summary.discovered_mods <= k,
            summary.upserts <= k,
            summary.errors <= k,
            ({
                let at = rescan_run(rescan_start(v0), events@.take(k as int), now@);
                &&& store@ == at.rows
                &&& summary.scanned_dirs == at.scanned_dirs
                &&& summary.discovered_mods == at.discovered_mods
                &&& summary.upserts == at.upserts
                &&& summary.errors == at.errors
            }),
        decreases events.len() - k,
    {
        proof {
            assert(events@.take(k + 1).drop_last() =~= events@.take(k as int));
            assert(events@.take(k + 1).last() == events@[k as int]);
        }
        match &events[k] {
            ScanEvent::Root => {
                summary.scanned_dirs = summary.scanned_dirs + 1;
            },
            ScanEvent::Unreadable => {
                summary.errors = summary.errors + 1;
            },
            ScanEvent::ModFolder { author_folder, display_name, path, resolved } => {
                let author = infer_author_name(author_folder.as_str());
                let key = normalize_path_string(path.as_str(), clone_opt(resolved));
                upsert_scanned(store, key.as_str(), display_name.as_str(), author.as_str(), now);
                summary.discovered_mods = summary.discovered_mods + 1;
                summary.upserts = summary.upserts + 1;
            },
        }
        k += 1;
    }
    assert(events@.take(events@.len() as int) =~= events@);
    Ok(summary)
}

/// The path key of draft `i`: `resolved[i]` is what the file system resolved
/// the draft's folder path to, and a missing entry counts as unresolved.
pub open spec fn draft_key(drafts: Seq<DraftMod>, resolved: Seq<Option<String>>, i: int) -> Seq<
    char,
> {
    path_key(
        drafts[i].folder_path@,
        if i < resolved.len() {
            opt_view(resolved[i])
        } else {
            None
        },
    )
}

/// The drafts of a batch, each with its path key.
pub open spec fn keyed_drafts(drafts: Seq<DraftMod>, resolved: Seq<Option<String>>) -> Seq<
    (Seq<char>, DraftView),
> {
    Seq::new(drafts.len(), |i: int| (draft_key(drafts, resolved, i), draft_view(drafts[i])))
}

/// The rows, the path keys seen so far and the counts of a commit under way.
pub struct CommitState {
    pub rows: Seq<ModView>,
    pub seen: Seq<Seq<char>>,
    pub inserted: nat,
    pub updated: nat,
}

/// The state of a commit after one draft: a draft whose key was seen in the
/// batch is dropped; another is stored, and counts as an update where its
/// key was stored before, as an insert where not.
pub open spec fn commit_step(s: CommitState, key: Seq<char>, d: DraftView, now: Seq<char>) -> CommitState {
    if s.seen.contains(key) {
        s
    } else if first_index(mod_keys(s.rows), key) is Some {
        CommitState {
            rows: put_draft(s.rows, key, d, now),
            seen: s.seen.push(key),
            inserted: s.inserted,
            updated: s.updated + 1,
        }
    } else {
        CommitState {
            rows: put_draft(s.rows, key, d, now),
            seen: s.seen.push(key),
            inserted: s.inserted + 1,
            updated: s.updated,
        }
    }
}

/// The state of a commit after the drafts of `batch`, in order.
pub open spec fn commit_run(s: CommitState, batch: Seq<(Seq<char>, DraftView)>, now: Seq<char>) -> CommitState
    decreases batch.len(),
{
    if batch.len() == 0 {
        s
    } else {
        commit_step(commit_run(s, batch.drop_last(), now), batch.last().0, batch.last().1, now)
    }
}

/// The state in which a commit into `rows` starts.
pub open spec fn commit_start(rows: Seq<ModView>) -> CommitState {
    CommitState { rows, seen: Seq::empty(), inserted: 0, updated: 0 }
}

/// A commit adds one row for each insert it counts and none else, stores no
/// path twice, and counts one insert or update for each path key of the
/// batch.
pub proof fn lemma_commit_counts(s: CommitState, batch: Seq<(Seq<char>, DraftView)>, now: Seq<char>)
    ensures
        ({
            let end = commit_run(s, batch, now);
            &&& end.rows.len() - s.rows.len() == end.inserted - s.inserted
            &&& end.seen.len() - s.seen.len() == (end.inserted - s.inserted) + (end.updated
                - s.updated)
            &&& end.inserted >= s.inserted
            &&& end.updated >= s.updated
            &&& end.seen.len() - s.seen.len() <= batch.len()
            &&& mods_wf(s.rows) ==> mods_wf(end.rows)
            &&& distinct(s.seen) ==> distinct(end.seen)
        }),
    decreases batch.len(),
{
    if batch.len() > 0 {
        lemma_commit_counts(s, batch.drop_last(), now);
        let mid = commit_run(s, batch.drop_last(), now);
        lemma_put_draft(mid.rows, batch.last().0, batch.last().1, now);
    }
}

/// Storing a draft adds a row only where its path was not stored, keeps the
/// paths distinct, and leaves the path stored.
pub proof fn lemma_put_draft(rows: Seq<ModView>, key: Seq<char>, d: DraftView, now: Seq<char>)
    ensures
        first_index(mod_keys(rows), key) is Some ==> put_draft(rows, key, d, now).len()
            == rows.len(),
        first_index(mod_keys(rows), key) is None ==> put_draft(rows, key, d, now).len()
            == rows.len() + 1,
        mods_wf(rows) ==> mods_wf(put_draft(rows, key, d, now)),
        first_index(mod_keys(put_draft(rows, key, d, now)), key) is Some,
{
    let keys = mod_keys(rows);
    let after = put_draft(rows, key, d, now);
    match first_index(keys, key) {
        Some(i) => {
            assert(is_first(keys, key, i));
            assert(mod_keys(after) =~= keys);
            assert(mod_ids(after) =~= mod_ids(rows));
        },
        None => {
            assert(mod_keys(after) =~= keys.push(key));
            assert forall|j: int| 0 <= j < keys.len() implies keys[j] != key by {
                if keys[j] == key {
                    lemma_key_has_first(keys, key, j);
                }
            }
            lemma_key_has_first(mod_keys(after), key, keys.len() as int);
        },
    }
}

/// Two drafts of one batch with the same path key are stored as one row: the
/// first is stored and the second dropped, the path stands once in the
/// store, and the commit counts one insert where the path was not stored
/// before and one update where it was.
pub proof fn lemma_duplicate_in_batch(
    rows: Seq<ModView>,
    key: Seq<char>,
    first: DraftView,
    second: DraftView,
    now: Seq<char>,
)
    requires
        mods_wf(rows),
    ensures
        ({
            let end = commit_run(commit_start(rows), seq![(key, first), (key, second)], now);
            &&& end.rows == put_draft(rows, key, first, now)
            &&& mods_wf(end.rows)
            &&& first_index(mod_keys(end.rows), key) is Some
            &&& first_index(mod_keys(rows), key) is None ==> end.inserted == 1 && end.updated == 0
                && end.rows.len() == rows.len() + 1
            &&& first_index(mod_keys(rows), key) is Some ==> end.inserted == 0 && end.updated == 1
                && end.rows.len() == rows.len()
            &&& forall|i: int, j: int|
                0 <= i < end.rows.len() && 0 <= j < end.rows.len() && end.rows[i].folder_path
                    == key && end.rows[j].folder_path == key ==> i == j
        }),
{
    let batch = seq![(key, first), (key, second)];
    let after = put_draft(rows, key, first, now);
    assert forall|i: int, j: int|
        0 <= i < after.len() && 0 <= j < after.len() && after[i].folder_path == key
            && after[j].folder_path == key implies i == j by {
        lemma_put_draft(rows, key, first, now);
        assert(mod_keys(after)[i] == key && mod_keys(after)[j] == key);
    }

    let one = batch.drop_last();
    assert(one.drop_last() =~= Seq::<(Seq<char>, DraftView)>::empty());
    let s0 = commit_start(rows);
    assert(commit_run(s0, one.drop_last(), now) == s0);
    let s1 = commit_run(s0, one, now);
    assert(one.last() == (key, first));
    assert(!s0.seen.contains(key));
    assert(s1 == commit_step(s0, key, first, now));
    assert(s1.seen =~= seq![key]);
    assert(s1.seen[0] == key);
    assert(s1.seen.contains(key));
    assert(batch.last() == (key, second));
    lemma_put_draft(rows, key, first, now);
}

/// Storing a folder or a draft keeps every row in its place, with its id and
/// its folder path; storing a folder that a rescan found keeps the
/// character, the costume and the type of the row as well.
pub proof fn lemma_put_keeps_rows(
    rows: Seq<ModView>,
    key: Seq<char>,
    display_name: Seq<char>,
    author: Seq<char>,
    d: DraftView,
    now: Seq<char>,
)
    ensures
        ({
            let scanned = put_scanned(rows, key, display_name, author, now);
            let stored = put_draft(rows, key, d, now);
            &&& rows.len() <= scanned.len()
            &&& rows.len() <= stored.len()
            &&& forall|i: int|
                0 <= i < rows.len() ==> {
                    &&& (#[trigger] scanned[i]).id == rows[i].id
                    &&& scanned[i].folder_path == rows[i].folder_path
                    &&& scanned[i].character_id == rows[i].character_id
                    &&& scanned[i].costume_id == rows[i].costume_id
                    &&& scanned[i].mod_type == rows[i].mod_type
                    &&& scanned[i].installed == rows[i].installed
                    &&& scanned[i].created_at == rows[i].created_at
                }
            &&& forall|i: int|
                0 <= i < rows.len() ==> {
                    &&& (#[trigger] stored[i]).id == rows[i].id
                    &&& stored[i].folder_path == rows[i].folder_path
                    &&& stored[i].installed == rows[i].installed
                    &&& stored[i].created_at == rows[i].created_at
                }
        }),
{
    match first_index(mod_keys(rows), key) {
        Some(p) => {
            assert(is_first(mod_keys(rows), key, p));
        },
        None => {},
    }
}

/// A rescan deletes no mod and takes nothing back that was assigned: every
/// row stays in its place and keeps its id, its folder path, its character,
/// its costume and its type.
pub proof fn lemma_rescan_keeps_assignments(s: RescanState, events: Seq<ScanEvent>, now: Seq<char>)
    ensures
        ({
            let end = rescan_run(s, events, now);
            &&& s.rows.len() <= end.rows.len()
            &&& forall|i: int|
                0 <= i < s.rows.len() ==> {
                    &&& (#[trigger] end.rows[i]).id == s.rows[i].id
                    &&& end.rows[i].folder_path == s.rows[i].folder_path
                    &&& end.rows[i].character_id == s.rows[i].character_id
                    &&& end.rows[i].costume_id == s.rows[i].costume_id
                    &&& end.rows[i].mod_type == s.rows[i].mod_type
                }
        }),
    decreases events.len(),
{
    if events.len() > 0 {
        lemma_rescan_keeps_assignments(s, events.drop_last(), now);
        let mid = rescan_run(s, events.drop_last(), now);
        match events.last() {
            ScanEvent::ModFolder { author_folder, display_name, path, resolved } => {
                let d = DraftView {
                    display_name: display_name@,
                    folder_path: path@,
                    author: None,
                    download_url: None,
                    mod_type: ModType::Other,
                    character_id: None,
                    costume_id: None,
                    infer_confidence: Confidence { two_hundredths: 0 },
                };
                lemma_put_keeps_rows(
                    mid.rows,
                    path_key(path@, opt_view(resolved)),
                    display_name@,
                    author_of(author_folder@),
                    d,
                    now,
                );
            },
            _ => {},
        }
    }
}

/// After a commit every draft of the batch is stored: a mod stands in the
/// store under the path key of each.
pub proof fn lemma_commit_stores_all(
    s: CommitState,
    batch: Seq<(Seq<char>, DraftView)>,
    now: Seq<char>,
)
    requires
        forall|k: int|
            0 <= k < s.seen.len() ==> first_index(mod_keys(s.rows), #[trigger] s.seen[k]) is Some,
    ensures
        ({
            let end = commit_run(s, batch, now);
            &&& forall|k: int|
                0 <= k < end.seen.len() ==> first_index(
                    mod_keys(end.rows),
                    #[trigger] end.seen[k],
                ) is Some
            &&& forall|i: int| 0 <= i < batch.len() ==> end.seen.contains((#[trigger] batch[i]).0)
            &&& forall|i: int|
                0 <= i < batch.len() ==> first_index(
                    mod_keys(end.rows),
                    (#[trigger] batch[i]).0,
                ) is Some
        }),
    decreases batch.len(),
{
    if batch.len() > 0 {
        let front = batch.drop_last();
        lemma_commit_stores_all(s, front, now);
        let mid = commit_run(s, front, now);
        let end = commit_run(s, batch, now);
        let key = batch.last().0;
        let d = batch.last().1;
        if !mid.seen.contains(key) {
            lemma_put_draft(mid.rows, key, d, now);
            lemma_put_keeps_rows(mid.rows, key, Seq::empty(), Seq::empty(), d, now);
            assert(end.seen == mid.seen.push(key));
            assert(end.seen[mid.seen.len() as int] == key);
            assert forall|k: int| 0 <= k < end.seen.len() implies first_index(
                mod_keys(end.rows),
                #[trigger] end.seen[k],
            ) is Some by {
                if k < mid.seen.len() {
                    let other = mid.seen[k];
                    assert(end.seen[k] == other);
                    let p = first_index(mod_keys(mid.rows), other)->0;
                    assert(is_first(mod_keys(mid.rows), other, p));
                    assert(mod_keys(end.rows)[p] == end.rows[p].folder_path);
                    assert(mod_keys(mid.rows)[p] == mid.rows[p].folder_path);
                    lemma_key_has_first(mod_keys(end.rows), other, p);
                }
            }
        }
        assert forall|i: int| 0 <= i < batch.len() implies end.seen.contains(
            (#[trigger] batch[i]).0,
        ) by {
            if i < front.len() {
                assert(front[i] == batch[i]);
                let j = choose|j: int| 0 <= j < mid.seen.len() && mid.seen[j] == front[i].0;
                assert(end.seen[j] == batch[i].0);
            }
        }
        assert forall|i: int| 0 <= i < batch.len() implies first_index(
            mod_keys(end.rows),
            (#[trigger] batch[i]).0,
        ) is Some by {
            let j = choose|j: int| 0 <= j < end.seen.len() && end.seen[j] == batch[i].0;
            assert(first_index(mod_keys(end.rows), end.seen[j]) is Some);
        }
    }
}

/// Whether `key` is one of `seen`.
pub fn seen_before(seen: &Vec<String>, key: &str) -> (b: bool)
    ensures
        b == crate::text::views(seen@).contains(key@),
{
    let ghost vs = crate::text::views(seen@);
    let mut i: usize = 0;
    while i < seen.len()
        invariant
            0 <= i <= seen.len(),
            vs == crate::text::views(seen@),
            forall|j: int| 0 <= j < i ==> vs[j] != key@,
        decreases seen.len() - i,
    {
        if str_eq(seen[i].as_str(), key) {
            assert(vs[i as int] == key@);
            return true;
        }
        i += 1;
    }
    false
}

/// Stores reviewed drafts. Each draft is keyed by its path key; of the
/// drafts of the batch that share a key the first is stored and the others
/// are dropped. A draft whose key is stored already replaces what the row
/// says of the mod, another is inserted. Returns how many were inserted and
/// how many updated. `resolved[i]` is what the file system resolved the
/// folder path of draft `i` to. It always succeeds.
pub fn mods_import_commit(
    store: &mut ModStore,
    drafts: Vec<DraftMod>,
    resolved: &Vec<Option<String>>,
    now: &str,
) -> (out: Result<(usize, usize), String>)
    ensures
        ({
            let end = commit_run(
                commit_start(old(store)@),
                keyed_drafts(drafts@, resolved@),
                now@,
            );
            &&& final(store)@ == end.rows
            &&& out matches Ok(counts) && counts.0 == end.inserted && counts.1 == end.updated
        }),
        mods_wf(old(store)@) ==> mods_wf(final(store)@),
        mods_ids_ok(old(store)@) ==> mods_ids_ok(final(store)@),
{
    let ghost v0 = store@;
    let ghost batch = keyed_drafts(drafts@, resolved@);
    let mut seen: Vec<String> = Vec::new();
    let mut inserted: usize = 0;
    let mut updated: usize = 0;
    let mut k: usize = 0;
    assert(batch.take(0) =~= Seq::<(Seq<char>, DraftView)>::empty());
    assert(crate::text::views(seen@) =~= Seq::<Seq<char>>::empty());
    while k < drafts.len()
        invariant
            0 <= k <= drafts.len(),
            v0 == old(store)@,
            batch == keyed_drafts(drafts@, resolved@),
            mods_ids_ok(v0) ==> mods_ids_ok(store@),
            ({
                let at = commit_run(commit_start(v0), batch.take(k as int), now@);
                &&& store@ == at.rows
                &&& crate::text::views(seen@) == at.seen
                &&& inserted == at.inserted
                &&& updated == at.updated
            }),
        decreases drafts.len() - k,
    {
        proof {
            assert(batch.take(k + 1).drop_last() =~= batch.take(k as int));
            assert(batch.take(k + 1).last() == batch[k as int]);
            lemma_commit_counts(commit_start(v0), batch.take(k as int), now@);
            lemma_commit_counts(commit_start(v0), batch.take(k + 1), now@);
        }
        let d = &drafts[k];
        let found = if k < resolved.len() {
            clone_opt(&resolved[k])
        } else {
            None
        };
        let key = normalize_path_string(d.folder_path.as_str(), found);
        assert(key@ == draft_key(drafts@, resolved@, k as int));
        if !seen_before(&seen, key.as_str()) {
            if upsert_draft(store, key.as_str(), d, now) {
                updated = updated + 1;
            } else {
                inserted = inserted + 1;
            }
            let ghost earlier = crate::text::views(seen@);
            seen.push(key);
            assert(crate::text::views(seen@) =~= earlier.push(key@));
        }
        k += 1;
    }
    proof {
        assert(batch.take(drafts@.len() as int) =~= batch);
        lemma_commit_counts(commit_start(v0), batch, now@);
    }
    Ok((inserted, updated))
}

/// A folder that a walk found. `resolved` is what the file system resolved
/// `path` to, if anything.
#[derive(Debug, Clone, PartialEq, Eq)]
pub struct ScannedFolder {
    pub display_name: String,
    pub path: String,
    pub resolved: Option<String>,
}

/// The author of the drafts of a dry run: the override where one is given
/// that is not blank, without the white space around it; else the author
/// read from the name of the author folder; and "unknown" where that name
/// is blank.
pub open spec fn chosen_author(given: Option<Seq<char>>, inferred_name: Option<Seq<char>>) -> Option<
    Seq<char>,
> {
    let candidate = match given {
        Some(raw) => if is_blank(raw) {
            inferred_name
        } else {
            Some(trimmed(raw))
        },
        None => inferred_name,
    };
    match candidate {
        Some(name) => if is_blank(name) {
            Some("unknown"@)
        } else {
            Some(name)
        },
        None => None,
    }
}

/// The author that the name of an author folder stands for, where the folder
/// has a name.
pub open spec fn folder_author(author_folder: Option<Seq<char>>) -> Option<Seq<char>> {
    match author_folder {
        Some(name) => Some(author_of(name)),
        None => None,
    }
}

/// The draft that a dry run proposes for a folder.
pub open spec fn drafted(
    folder: ScannedFolder,
    author: Option<Seq<char>>,
    download_url: Option<Seq<char>>,
    chars: Seq<(i64, String, String)>,
    costumes: Seq<(i64, i64, String, String)>,
    aliases: Seq<(EntityType, i64, String)>,
) -> DraftView {
    let found = inferred_with(folder.display_name@, chars, costumes, aliases);
    DraftView {
        display_name: folder.display_name@,
        folder_path: path_key(folder.path@, opt_view(folder.resolved)),
        author,
        download_url,
        mod_type: mod_type_of(folder.display_name@),
        character_id: found.0,
        costume_id: found.1,
        infer_confidence: found.2,
    }
}

/// Picks the author of the drafts of a dry run.
pub fn choose_author(default_author: Option<String>, inferred_author: Option<String>) -> (out:
    Option<String>)
    ensures
        opt_view(out) == chosen_author(opt_view(default_author), opt_view(inferred_author)),
{
    let given: Option<String> = match default_author {
        Some(raw) => {
            let t = trim(raw.as_str());
            if t.as_str().unicode_len() == 0 {
                None
            } else {
                Some(t)
            }
        },
        None => None,
    };
    let candidate = match given {
        Some(name) => Some(name),
        None => inferred_author,
    };
    match candidate {
        Some(name) => {
            if blank(name.as_str()) {
                Some("unknown".to_owned())
            } else {
                Some(name)
            }
        },
        None => None,
    }
}

/// Proposes a draft for every mod folder of one author folder: its type
/// from the classifier, its character, costume and confidence from the
/// resolver against the snapshot of the catalog and its aliases, and the
/// author that `chosen_author` picks. Nothing is stored.
pub fn mods_import_dry_run(
    author_folder: Option<String>,
    folders: &Vec<ScannedFolder>,
    default_author: Option<String>,
    default_download_url: Option<String>,
    chars: &[(i64, String, String)],
    costumes: &[(i64, i64, String, String)],
    aliases: &[(EntityType, i64, String)],
) -> (out: Vec<DraftMod>)
    ensures
        out@.len() == folders@.len(),
        forall|i: int|
            0 <= i < folders@.len() ==> draft_view(#[trigger] out@[i]) == drafted(
                folders@[i],
                chosen_author(opt_view(default_author), folder_author(opt_view(author_folder))),
                opt_view(default_download_url),
                chars@,
                costumes@,
                aliases@,
            ),
        forall|i: int| 0 <= i < out@.len() ==> (#[trigger] out@[i]).infer_confidence.wf(),
{
    let inferred_author = match &author_folder {
        Some(name) => Some(infer_author_name(name.as_str())),
        None => None,
    };
    let ghost author_spec = chosen_author(
        opt_view(default_author),
        folder_author(opt_view(author_folder)),
    );
    let author = choose_author(default_author, inferred_author);
    let mut out: Vec<DraftMod> = Vec::new();
    let mut i: usize = 0;
    while i < folders.len()
        invariant
            0 <= i <= folders.len(),
            out@.len() == i,
            opt_view(author) == author_spec,
            forall|j: int|
                0 <= j < i ==> draft_view(#[trigger] out@[j]) == drafted(
                    folders@[j],
                    author_spec,
                    opt_view(default_download_url),
                    chars@,
                    costumes@,
                    aliases@,
                ),
            forall|j: int| 0 <= j < i ==> (#[trigger] out@[j]).infer_confidence.wf(),
        decreases folders.len() - i,
    {
        let f = &folders[i];
        let found = infer_with_aliases(f.display_name.as_str(), chars, costumes, aliases);
        let mod_type = infer_mod_type(f.display_name.as_str());
        let folder_path = normalize_path_string(f.path.as_str(), clone_opt(&f.resolved));
        out.push(
            DraftMod {
                display_name: f.display_name.clone(),
                folder_path,
                author: clone_opt(&author),
                download_url: clone_opt(&default_download_url),
                mod_type,
                character_id: found.0,
                costume_id: found.1,
                infer_confidence: found.2,
            },
        );
        i += 1;
    }
    out
}

/// The folders directly under a library root, each with its path key and
/// the author read from its name.
pub fn library_author_dirs(folders: &Vec<ScannedFolder>) -> (out: Vec<AuthorFolder>)
    ensures
        out@.len() == folders@.len(),
        forall|i: int|
            0 <= i < folders@.len() ==> (#[trigger] out@[i]).folder_path@ == path_key(
                folders@[i].path@,
                opt_view(folders@[i].resolved),
            ) && out@[i].inferred_author@ == author_of(folders@[i].display_name@),
{
    let mut out: Vec<AuthorFolder> = Vec::new();
    let mut i: usize = 0;
    while i < folders.len()
        invariant
            0 <= i <= folders.len(),
            out@.len() == i,
            forall|j: int|
                0 <= j < i ==> (#[trigger] out@[j]).folder_path@ == path_key(
                    folders@[j].path@,
                    opt_view(folders@[j].resolved),
                ) && out@[j].inferred_author@ == author_of(folders@[j].display_name@),
        decreases folders.len() - i,
    {
        let f = &folders[i];
        out.push(
            AuthorFolder {
                folder_path: normalize_path_string(f.path.as_str(), clone_opt(&f.resolved)),
                inferred_author: infer_author_name(f.display_name.as_str()),
            },
        );
        i += 1;
    }
    out
}

/// The row that a mod entered by hand is stored as.
pub open spec fn added_row(id: int, key: Seq<char>, m: NewMod, now: Seq<char>) -> ModView {
    ModView {
        id,
        display_name: m.display_name@,
        folder_path: key,
        author: opt_view(m.author),
        download_url: opt_view(m.download_url),
        character_id: m.character_id,
        costume_id: m.costume_id,
        mod_type: m.mod_type,
        installed: false,
        installed_at: None,
        target_path: None,
        created_at: now,
        updated_at: now,
    }
}

/// A row after it was marked as installed or as not installed: an installed
/// mod has the time and the target path, another has neither.
pub open spec fn marked_row(
    row: ModView,
    installed: bool,
    target_path: Option<Seq<char>>,
    now: Seq<char>,
) -> ModView {
    ModView {
        installed,
        installed_at: if installed {
            Some(now)
        } else {
            None
        },
        target_path: if installed {
            target_path
        } else {
            None
        },
        updated_at: now,
        ..row
    }
}

/// Whether a mod is stored under the path key `key`.
pub fn mod_exists_by_path(store: &ModStore, key: &str) -> (b: bool)
    ensures
        b == (first_index(mod_keys(store@), key@) is Some),
{
    store.find(key).is_some()
}

/// Stores a mod entered by hand under the key of its folder path. `resolved`
/// is what the file system resolved that path to. Returns the id of the new
/// row, the next id. Fails, and changes nothing, exactly where the path is
/// stored already.
pub fn mods_add(store: &mut ModStore, new_mod: NewMod, resolved: Option<String>, now: &str) -> (out:
    Result<i64, String>)
    ensures
        match out {
            Ok(id) => id == next_id(mod_ids(old(store)@)) && final(store)@ == old(store)@.push(
                added_row(
                    id as int,
                    path_key(new_mod.folder_path@, opt_view(resolved)),
                    new_mod,
                    now@,
                ),
            ),
            Err(_) => *final(store) == *old(store),
        },
        out is Ok <==> first_index(
            mod_keys(old(store)@),
            path_key(new_mod.folder_path@, opt_view(resolved)),
        ) is None,
        mods_wf(old(store)@) ==> mods_wf(final(store)@),
        mods_ids_ok(old(store)@) ==> mods_ids_ok(final(store)@),
{
    let ghost v0 = store@;
    let key = normalize_path_string(new_mod.folder_path.as_str(), resolved);
    if store.find(key.as_str()).is_some() {
        return Err("a mod with this folder path is stored already".to_owned());
    }
    let ids = store.id_list();
            let count = ids.len();
            assert(mod_ids(v0).len() == count && count <= u64::MAX);
            let id = next_free_id(&ids);
    let ghost row = added_row(id as int, key@, new_mod, now@);
    store.rows.push(
        ModRow {
            id,
            display_name: new_mod.display_name,
            folder_path: key,
            author: new_mod.author,
            download_url: new_mod.download_url,
            character_id: new_mod.character_id,
            costume_id: new_mod.costume_id,
            mod_type: new_mod.mod_type,
            installed: false,
            installed_at: None,
            target_path: None,
            created_at: now.to_owned(),
            updated_at: now.to_owned(),
        },
    );
    proof {
        assert(store@ =~= v0.push(row));
        assert(mod_keys(store@) =~= mod_keys(v0).push(row.folder_path));
        assert(mod_ids(store@) =~= mod_ids(v0).push(id as int));
        lemma_next_id(mod_ids(v0));
        assert forall|j: int| 0 <= j < mod_keys(v0).len() implies mod_keys(v0)[j]
            != row.folder_path by {
            if mod_keys(v0)[j] == row.folder_path {
                lemma_key_has_first(mod_keys(v0), row.folder_path, j);
            }
        }
    }
    Ok(id)
}

/// Marks the mod with this id as installed, at `target_path`, or as not
/// installed. Fails, and changes nothing, where no mod has this id.
pub fn mods_set_installed(
    store: &mut ModStore,
    id: i64,
    installed: bool,
    target_path: Option<String>,
    now: &str,
) -> (out: Result<(), String>)
    ensures
        match first_index(mod_ids(old(store)@), id as int) {
            Some(i) => out is Ok && final(store)@ == old(store)@.update(
                i,
                marked_row(old(store)@[i], installed, opt_view(target_path), now@),
            ),
            None => out matches Err(e) && e@ == "Mod not found"@ && *final(store) == *old(store),
        },
        mods_wf(old(store)@) ==> mods_wf(final(store)@),
{
    let ghost v0 = store@;
    let ghost ids = mod_ids(v0);
    let mut i: usize = 0;
    while i < store.rows.len()
        invariant
            *store == *old(store),
            v0 == store@,
            ids == mod_ids(v0),
            0 <= i <= store.rows@.len(),
            forall|j: int| 0 <= j < i ==> ids[j] != id as int,
        decreases store.rows.len() - i,
    {
        if store.rows[i].id == id {
            proof {
                assert(is_first(ids, id as int, i as int));
                lemma_first_some(ids, id as int, i as int);
            }
            let old_row = &store.rows[i];
            let row = ModRow {
                id: old_row.id,
                display_name: old_row.display_name.clone(),
                folder_path: old_row.folder_path.clone(),
                author: clone_opt(&old_row.author),
                download_url: clone_opt(&old_row.download_url),
                character_id: old_row.character_id,
                costume_id: old_row.costume_id,
                mod_type: old_row.mod_type,
                installed,
                installed_at: if installed {
                    Some(now.to_owned())
                } else {
                    None
                },
                target_path: if installed {
                    target_path
                } else {
                    None
                },
                created_at: old_row.created_at.clone(),
                updated_at: now.to_owned(),
            };
            store.rows.set(i, row);
            proof {
                assert(store@ =~= v0.update(
                    i as int,
                    marked_row(v0[i as int], installed, opt_view(target_path), now@),
                ));
                assert(mod_keys(store@) =~= mod_keys(v0));
                assert(mod_ids(store@) =~= mod_ids(v0));
            }
            return Ok(());
        }
        i += 1;
    }
    proof {
        lemma_first_none(ids, id as int);
    }
    Err("Mod not found".to_owned())
}

/// Deletes every mod, and returns how many there were.
pub fn mods_purge_all(store: &mut ModStore) -> (out: usize)
    ensures
        out == old(store)@.len(),
        final(store)@.len() == 0,
        mods_wf(final(store)@),
{
    let n = store.rows.len();
    store.rows.clear();
    n
}

} // verus!
