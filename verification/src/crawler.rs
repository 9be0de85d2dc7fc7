//! The catalog as a web page shows it. The page's markup is not ours and
//! may change, so the characters are looked for with a primary set of
//! selectors and, where that finds none, with each fallback set in turn.
//! A selector that does not parse is an error of its own and ends the
//! reading; so does a page in which no set finds a character.

use crate::catalog::{costume_count, sync_records, synced, CatalogStore};
use crate::text::{slug_of, slugify, trim, trimmed, views};
use crate::types::{CatalogCharacter, CatalogCostume};
use vstd::prelude::*;

verus! {

/// The four selectors that find the characters of a page: the container of
/// a character, the name inside it, the costumes inside it, and the name
/// inside a costume.
#[derive(Debug, Clone, Copy, PartialEq, Eq)]
pub struct HtmlSelectors {
    pub char_selector: &'static str,
    pub char_name_selector: &'static str,
    pub costume_selector: &'static str,
    pub costume_name_selector: &'static str,
}

/// A page that holds the catalog, and the selectors made for it.
#[derive(Debug, Clone, Copy, PartialEq, Eq)]
pub struct HardHtmlSource {
    pub url: &'static str,
    pub sel: HtmlSelectors,
}

/// A costume as a page shows it.
pub type CrawledCostume = CatalogCostume;

/// A character as a page shows it, with its costumes.
pub type CrawledCharacter = CatalogCharacter;

/// What one storing of crawled characters went through.
#[derive(Debug, Clone, Copy, PartialEq, Eq, Structural)]
pub struct CrawlerReport {
    pub sources: usize,
    pub characters: usize,
    pub costumes: usize,
}

/// The texts that the selectors find in one character container: the texts
/// of the elements that the name selector matches and, for each element
/// that the costume selector matches, the texts of the elements inside it
/// that the costume name selector matches.
#[derive(Debug, Clone, PartialEq, Eq)]
pub struct RawCard {
    pub names: Vec<String>,
    pub items: Vec<Vec<String>>,
}

/// A container as contracts see it.
pub type RawCardView = (Seq<Seq<char>>, Seq<Seq<Seq<char>>>);

/// A costume as contracts see it: slug, display name and aliases.
pub type CostumeView = (Seq<char>, Seq<char>, Seq<Seq<char>>);

/// A character as contracts see it: slug, display name, aliases and
/// costumes.
pub type CharacterView = (Seq<char>, Seq<char>, Seq<Seq<char>>, Seq<CostumeView>);

/// Whether `scraper::Selector::parse` accepts a selector group.
pub uninterp spec fn selector_valid(selector: Seq<char>) -> bool;

/// The containers that `scraper` finds in a page parsed as a document: one
/// for each element that `container` selects, in the order in which
/// `Html::select` yields them, with the texts of the elements inside it
/// that `name` selects and, for each element inside it that `item`
/// selects, the texts of the elements inside that one that `item_name`
/// selects.
pub uninterp spec fn page_cards(
    html: Seq<char>,
    container: Seq<char>,
    name: Seq<char>,
    item: Seq<char>,
    item_name: Seq<char>,
) -> Seq<RawCardView>;

/// The views of lists of texts.
pub open spec fn item_views(items: Seq<Vec<String>>) -> Seq<Seq<Seq<char>>> {
    Seq::new(items.len(), |i: int| views(items[i]@))
}

/// The view of a container.
pub open spec fn card_view(c: RawCard) -> RawCardView {
    (views(c.names@), item_views(c.items@))
}

/// The views of containers.
pub open spec fn card_views(cards: Seq<RawCard>) -> Seq<RawCardView> {
    Seq::new(cards.len(), |i: int| card_view(cards[i]))
}

/// The view of a costume.
pub open spec fn costume_view(c: CatalogCostume) -> CostumeView {
    (c.slug@, c.display_name@, views(c.aliases@))
}

/// The views of costumes.
pub open spec fn costume_views(cs: Seq<CatalogCostume>) -> Seq<CostumeView> {
    Seq::new(cs.len(), |i: int| costume_view(cs[i]))
}

/// The view of a character.
pub open spec fn character_view(c: CatalogCharacter) -> CharacterView {
    (c.slug@, c.display_name@, views(c.aliases@), costume_views(c.costumes@))
}

/// The views of characters.
pub open spec fn character_views(cs: Seq<CatalogCharacter>) -> Seq<CharacterView> {
    Seq::new(cs.len(), |i: int| character_view(cs[i]))
}

/// The name that the texts found by a name selector give: the first of them
/// without the white space around it, and the empty name where none was
/// found.
pub open spec fn name_of(texts: Seq<Seq<char>>) -> Seq<char> {
    if texts.len() == 0 {
        Seq::empty()
    } else {
        trimmed(texts[0])
    }
}

/// The costumes of the texts of a container: one for each name that is not
/// empty, in order, under the slug of the name and without aliases.
pub open spec fn costumes_of(items: Seq<Seq<Seq<char>>>) -> Seq<CostumeView>
    decreases items.len(),
{
    if items.len() == 0 {
        Seq::empty()
    } else if name_of(items.last()).len() == 0 {
        costumes_of(items.drop_last())
    } else {
        costumes_of(items.drop_last()).push(
            (slug_of(name_of(items.last())), name_of(items.last()), Seq::empty()),
        )
    }
}

/// The characters of the containers of a page: one for each container whose
/// name is not empty, in order, under the slug of the name, without aliases
/// and with the costumes of the container.
pub open spec fn characters_of(cards: Seq<RawCardView>) -> Seq<CharacterView>
    decreases cards.len(),
{
    if cards.len() == 0 {
        Seq::empty()
    } else if name_of(cards.last().0).len() == 0 {
        characters_of(cards.drop_last())
    } else {
        characters_of(cards.drop_last()).push(
            (
                slug_of(name_of(cards.last().0)),
                name_of(cards.last().0),
                Seq::empty(),
                costumes_of(cards.last().1),
            ),
        )
    }
}

/// All four selectors of a set are accepted.
pub open spec fn selectors_valid(s: HtmlSelectors) -> bool {
    &&& selector_valid(s.char_selector@)
    &&& selector_valid(s.char_name_selector@)
    &&& selector_valid(s.costume_selector@)
    &&& selector_valid(s.costume_name_selector@)
}

/// The first selector of a set that is not accepted.
pub open spec fn first_invalid(s: HtmlSelectors) -> Seq<char> {
    if !selector_valid(s.char_selector@) {
        s.char_selector@
    } else if !selector_valid(s.char_name_selector@) {
        s.char_name_selector@
    } else if !selector_valid(s.costume_selector@) {
        s.costume_selector@
    } else {
        s.costume_name_selector@
    }
}

/// The error for a set with a selector that is not accepted: it names the
/// first such selector.
pub open spec fn selector_error(s: HtmlSelectors) -> Seq<char> {
    "selector does not parse: "@ + first_invalid(s)
}

/// The characters that a set of accepted selectors finds in a page.
pub open spec fn found(html: Seq<char>, s: HtmlSelectors) -> Seq<CharacterView> {
    characters_of(
        page_cards(
            html,
            s.char_selector@,
            s.char_name_selector@,
            s.costume_selector@,
            s.costume_name_selector@,
        ),
    )
}

/// What reading a page with one set of selectors gives: the characters it
/// finds, or the error of a selector that is not accepted.
pub open spec fn parsed(html: Seq<char>, s: HtmlSelectors) -> Result<Seq<CharacterView>, Seq<char>> {
    if selectors_valid(s) {
        Ok(found(html, s))
    } else {
        Err(selector_error(s))
    }
}

/// What reading a page with the sets from position `i` on gives, one set
/// after another: a set with a selector that is not accepted ends the
/// reading with its error; a set that finds a character ends it with what
/// it found; and where the sets run out, no set matched.
pub open spec fn read_sets(html: Seq<char>, sets: Seq<HtmlSelectors>, i: int) -> Result<
    Seq<CharacterView>,
    Seq<char>,
>
    decreases sets.len() - i,
{
    if i < 0 || i >= sets.len() {
        Err("no matches with available selectors"@)
    } else if !selectors_valid(sets[i]) {
        Err(selector_error(sets[i]))
    } else if found(html, sets[i]).len() > 0 {
        Ok(found(html, sets[i]))
    } else {
        read_sets(html, sets, i + 1)
    }
}

/// Every set before position `i` is accepted and finds no character in the
/// page.
pub open spec fn none_before(html: Seq<char>, sets: Seq<HtmlSelectors>, i: int) -> bool {
    forall|j: int|
        0 <= j < i ==> selectors_valid(#[trigger] sets[j]) && found(html, sets[j]).len() == 0
}

/// Set `i` is the first of `sets` that finds a character in the page, and
/// every set before it is accepted.
pub open spec fn is_first_yield(html: Seq<char>, sets: Seq<HtmlSelectors>, i: int) -> bool {
    &&& 0 <= i < sets.len()
    &&& selectors_valid(sets[i])
    &&& found(html, sets[i]).len() > 0
    &&& none_before(html, sets, i)
}

/// Calls `scraper::Selector::parse` and says whether it accepted the
/// selector group, which depends on the text of the group alone.
#[verifier::external_body]
pub(crate) fn selector_parses(selector: &str) -> (b: bool)
    ensures
        b == selector_valid(selector@),
{
    scraper::Selector::parse(selector).is_ok()
}

/// Calls `scraper::Html::select` on the page, parsed by
/// `Html::parse_document`, and `ElementRef::select` on what it finds, with
/// the selectors parsed by `Selector::parse`; a text is what
/// `ElementRef::text` yields, written one after another. Every match is
/// handed out, in the order in which the selection yields it. What comes
/// back depends on the page and the four selectors alone; nothing else is
/// claimed of it. The selectors have to be ones that `Selector::parse`
/// accepts.
#[verifier::external_body]
pub(crate) fn select_cards(html: &str, s: &HtmlSelectors) -> (out: Vec<RawCard>)
    requires
        selectors_valid(*s),
    ensures
        card_views(out@) == page_cards(
            html@,
            s.char_selector@,
            s.char_name_selector@,
            s.costume_selector@,
            s.costume_name_selector@,
        ),
{
    let doc = scraper::Html::parse_document(html);
    let card = scraper::Selector::parse(s.char_selector).unwrap();
    let name = scraper::Selector::parse(s.char_name_selector).unwrap();
    let item = scraper::Selector::parse(s.costume_selector).unwrap();
    let item_name = scraper::Selector::parse(s.costume_name_selector).unwrap();
    doc.select(&card).map(|c| RawCard {
        names: c.select(&name).map(|n| n.text().collect()).collect(),
        items: c.select(&item).map(|i| i.select(&item_name).map(|n| n.text().collect()).collect()).collect(),
    }).collect()
}

/// The name that the texts found by a name selector give.
pub fn found_name(texts: &Vec<String>) -> (out: String)
    ensures
        out@ == name_of(views(texts@)),
{
    if texts.len() == 0 {
        String::new()
    } else {
        trim(texts[0].as_str())
    }
}

/// The costumes of the texts of a container: one for each name that is not
/// empty, under the slug of the name and without aliases.
pub fn costumes_from_items(items: &Vec<Vec<String>>) -> (out: Vec<CrawledCostume>)
    ensures
        costume_views(out@) == costumes_of(item_views(items@)),
{
    let ghost all = item_views(items@);
    let mut out: Vec<CrawledCostume> = Vec::new();
    let mut i: usize = 0;
    assert(all.take(0) =~= Seq::<Seq<Seq<char>>>::empty());
    assert(costume_views(out@) =~= costumes_of(all.take(0)));
    while i < items.len()
        invariant
            0 <= i <= items.len(),
            all == item_views(items@),
            costume_views(out@) == costumes_of(all.take(i as int)),
        decreases items.len() - i,
    {
        proof {
            assert(all.take(i + 1).drop_last() =~= all.take(i as int));
            assert(all.take(i + 1).last() == views(items@[i as int]@));
        }
        let name = found_name(&items[i]);
        if name.as_str().unicode_len() > 0 {
            let ghost before = costume_views(out@);
            let slug = slugify(name.as_str());
            let aliases: Vec<String> = Vec::new();
            assert(views(aliases@) =~= Seq::<Seq<char>>::empty());
            out.push(CatalogCostume { slug, display_name: name, aliases });
            assert(costume_views(out@) =~= before.push(
                (slug_of(name_of(all[i as int])), name_of(all[i as int]), Seq::empty()),
            ));
        }
        i += 1;
    }
    assert(all.take(items@.len() as int) =~= all);
    out
}

/// The characters of the containers of a page: one for each container whose
/// name is not empty, under the slug of the name, with its costumes and
/// without aliases.
pub fn characters_from_cards(cards: &Vec<RawCard>) -> (out: Vec<CrawledCharacter>)
    ensures
        character_views(out@) == characters_of(card_views(cards@)),
{
    let ghost all = card_views(cards@);
    let mut out: Vec<CrawledCharacter> = Vec::new();
    let mut i: usize = 0;
    assert(all.take(0) =~= Seq::<RawCardView>::empty());
    assert(character_views(out@) =~= characters_of(all.take(0)));
    while i < cards.len()
        invariant
            0 <= i <= cards.len(),
            all == card_views(cards@),
            character_views(out@) == characters_of(all.take(i as int)),
        decreases cards.len() - i,
    {
        proof {
            assert(all.take(i + 1).drop_last() =~= all.take(i as int));
            assert(all.take(i + 1).last() == card_view(cards@[i as int]));
        }
        let name = found_name(&cards[i].names);
        if name.as_str().unicode_len() > 0 {
            let ghost before = character_views(out@);
            let costumes = costumes_from_items(&cards[i].items);
            let slug = slugify(name.as_str());
            let aliases: Vec<String> = Vec::new();
            assert(views(aliases@) =~= Seq::<Seq<char>>::empty());
            out.push(CatalogCharacter { slug, display_name: name, aliases, costumes });
            assert(character_views(out@) =~= before.push(
                (
                    slug_of(name_of(all[i as int].0)),
                    name_of(all[i as int].0),
                    Seq::empty(),
                    costumes_of(all[i as int].1),
                ),
            ));
        }
        i += 1;
    }
    assert(all.take(cards@.len() as int) =~= all);
    out
}

/// The error for a selector that is not accepted.
pub fn selector_failure(selector: &str) -> (out: String)
    ensures
        out@ == "selector does not parse: "@ + selector@,
{
    let mut out = "selector does not parse: ".to_owned();
    out.append(selector);
    out
}

/// The characters that a set of selectors finds in a page. A selector that is
/// not accepted is an error, which names the first such selector of the
/// set.
pub fn parse_with_selectors(html: &str, s: &HtmlSelectors) -> (out: Result<
    Vec<CrawledCharacter>,
    String,
>)
    ensures
        match out {
            Ok(items) => parsed(html@, *s) == Ok::<Seq<CharacterView>, Seq<char>>(
                character_views(items@),
            ),
            Err(e) => parsed(html@, *s) == Err::<Seq<CharacterView>, Seq<char>>(e@),
        },
{
    if !selector_parses(s.char_selector) {
        return Err(selector_failure(s.char_selector));
    }
    if !selector_parses(s.char_name_selector) {
        return Err(selector_failure(s.char_name_selector));
    }
    if !selector_parses(s.costume_selector) {
        return Err(selector_failure(s.costume_selector));
    }
    if !selector_parses(s.costume_name_selector) {
        return Err(selector_failure(s.costume_name_selector));
    }
    let cards = select_cards(html, s);
    Ok(characters_from_cards(&cards))
}

/// The selectors that the catalog page was first read with.
pub open spec fn primary_selectors() -> HtmlSelectors {
    HtmlSelectors {
        char_selector: "div.col-mobile-6",
        char_name_selector: "h4 > a",
        costume_selector: "ul.list-group > li",
        costume_name_selector: "a",
    }
}

/// The selector sets to fall back on, in the order in which they are tried.
pub open spec fn fallback_selectors() -> Seq<HtmlSelectors> {
    seq![
        HtmlSelectors {
            char_selector: ".media-body",
            char_name_selector: "h5.mb-1 > a, h4 > a, .name a",
            costume_selector: ".list-group .list-group-item",
            costume_name_selector: "a, .cname, span",
        },
        HtmlSelectors {
            char_selector: "[class*='col-']",
            char_name_selector: "h4 a, h5 a, .name a",
            costume_selector: "ul.list-group li, .costume, .costumes li",
            costume_name_selector: "a, .cname, span",
        },
    ]
}

/// The selector sets that a page is read with: `primary`, then the
/// fallbacks.
pub open spec fn candidate_sets(primary: HtmlSelectors) -> Seq<HtmlSelectors> {
    seq![primary] + fallback_selectors()
}

/// The selectors that the catalog page was first read with.
pub fn sel_primary() -> (out: HtmlSelectors)
    ensures
        out == primary_selectors(),
{
    HtmlSelectors {
        char_selector: "div.col-mobile-6",
        char_name_selector: "h4 > a",
        costume_selector: "ul.list-group > li",
        costume_name_selector: "a",
    }
}

/// The selector sets to fall back on, in the order in which they are tried.
pub fn sel_fallbacks() -> (out: Vec<HtmlSelectors>)
    ensures
        out@ == fallback_selectors(),
{
    let out = vec![
        HtmlSelectors {
            char_selector: ".media-body",
            char_name_selector: "h5.mb-1 > a, h4 > a, .name a",
            costume_selector: ".list-group .list-group-item",
            costume_name_selector: "a, .cname, span",
        },
        HtmlSelectors {
            char_selector: "[class*='col-']",
            char_name_selector: "h4 a, h5 a, .name a",
            costume_selector: "ul.list-group li, .costume, .costumes li",
            costume_name_selector: "a, .cname, span",
        },
    ];
    assert(out@ =~= fallback_selectors());
    out
}

/// The pages that hold the catalog.
pub fn hardcoded_sources() -> (out: Vec<HardHtmlSource>)
    ensures
        out@.len() == 1,
        out@[0].url@ == "https://browndust2-wiki.souseha.com/en/costumes"@,
        out@[0].sel == primary_selectors(),
{
    vec![
        HardHtmlSource {
            url: "https://browndust2-wiki.souseha.com/en/costumes",
            sel: HtmlSelectors {
                char_selector: "div.col-mobile-6",
                char_name_selector: "h4 > a",
                costume_selector: "ul.list-group > li",
                costume_name_selector: "a",
            },
        },
    ]
}

/// Sets that are accepted and find nothing are passed over: reading from the
/// first set is reading from position `i` where every set before `i` is
/// such a set.
pub proof fn lemma_read_skip(html: Seq<char>, sets: Seq<HtmlSelectors>, i: int)
    requires
        0 <= i <= sets.len(),
        none_before(html, sets, i),
    ensures
        read_sets(html, sets, 0) == read_sets(html, sets, i),
    decreases i,
{
    if i > 0 {
        lemma_read_skip(html, sets, i - 1);
        assert(selectors_valid(sets[i - 1]) && found(html, sets[i - 1]).len() == 0);
    }
}

/// The order of the sets decides: a page is read with the first set that
/// finds a character in it, whatever the sets after it would find.
pub proof fn lemma_first_yield(html: Seq<char>, sets: Seq<HtmlSelectors>, i: int)
    requires
        is_first_yield(html, sets, i),
    ensures
        read_sets(html, sets, 0) == Ok::<Seq<CharacterView>, Seq<char>>(found(html, sets[i])),
{
    lemma_read_skip(html, sets, i);
}

/// A selector that is not accepted is fatal: where the sets before it find
/// nothing, the reading ends with its error, whatever the sets after it
/// would find.
pub proof fn lemma_bad_selector_is_fatal(html: Seq<char>, sets: Seq<HtmlSelectors>, i: int)
    requires
        0 <= i < sets.len(),
        !selectors_valid(sets[i]),
        none_before(html, sets, i),
    ensures
        read_sets(html, sets, 0) == Err::<Seq<CharacterView>, Seq<char>>(selector_error(sets[i])),
{
    lemma_read_skip(html, sets, i);
}

/// Reads a page with each selector set of `sets` in turn and stops at the
/// first that finds a character: returns the position of that set and what
/// it found. A set with a selector that is not accepted ends the reading
/// with its error, and where no set finds a character, that is an error
/// too.
pub fn parse_with_fallbacks(html: &str, sets: &Vec<HtmlSelectors>) -> (out: Result<
    (usize, Vec<CrawledCharacter>),
    String,
>)
    ensures
        match out {
            Ok((i, items)) => {
                &&& is_first_yield(html@, sets@, i as int)
                &&& character_views(items@) == found(html@, sets@[i as int])
                &&& read_sets(html@, sets@, 0) == Ok::<Seq<CharacterView>, Seq<char>>(
                    character_views(items@),
                )
            },
            Err(e) => read_sets(html@, sets@, 0) == Err::<Seq<CharacterView>, Seq<char>>(e@),
        },
{
    let mut i: usize = 0;
    while i < sets.len()
        invariant
            0 <= i <= sets.len(),
            none_before(html@, sets@, i as int),
        decreases sets.len() - i,
    {
        proof {
            lemma_read_skip(html@, sets@, i as int);
        }
        match parse_with_selectors(html, &sets[i]) {
            Ok(items) => {
                assert(character_views(items@).len() == items@.len());
                if items.len() > 0 {
                    return Ok((i, items));
                }
            },
            Err(e) => {
                return Err(e);
            },
        }
        i += 1;
    }
    proof {
        lemma_read_skip(html@, sets@, sets@.len() as int);
    }
    Err("no matches with available selectors".to_owned())
}

/// What reading a page with `primary` and then with the fallbacks gives.
pub open spec fn read_page(html: Seq<char>, primary: HtmlSelectors) -> Result<
    Seq<CharacterView>,
    Seq<char>,
> {
    read_sets(html, candidate_sets(primary), 0)
}

/// What reading one more page after others gives: the characters of the
/// pages before and of this one, or the error of this page.
pub open spec fn with_page(before: Seq<CharacterView>, html: Seq<char>, primary: HtmlSelectors) -> Result<
    Seq<CharacterView>,
    Seq<char>,
> {
    match read_page(html, primary) {
        Ok(more) => Ok(before + more),
        Err(e) => Err(e),
    }
}

/// What reading several pages gives: the characters of all of them, in the
/// order of the pages, or the error of the first page that cannot be read.
pub open spec fn read_pages(pages: Seq<(String, HtmlSelectors)>) -> Result<
    Seq<CharacterView>,
    Seq<char>,
>
    decreases pages.len(),
{
    if pages.len() == 0 {
        Ok(Seq::empty())
    } else {
        match read_pages(pages.drop_last()) {
            Ok(before) => with_page(before, pages.last().0@, pages.last().1),
            Err(e) => Err(e),
        }
    }
}

/// A page in which only the second fallback finds a character, and whose
/// selectors are all accepted, is read with the second fallback.
pub proof fn lemma_fallback_order(html: Seq<char>, primary: HtmlSelectors, i: int)
    requires
        is_first_yield(html, candidate_sets(primary), i),
    ensures
        read_page(html, primary) == Ok::<Seq<CharacterView>, Seq<char>>(
            found(html, candidate_sets(primary)[i]),
        ),
        i == 2 ==> read_page(html, primary) == Ok::<Seq<CharacterView>, Seq<char>>(
            found(html, fallback_selectors()[1]),
        ),
{
    lemma_first_yield(html, candidate_sets(primary), i);
}

/// Reads the characters of a page: with `primary` and, where that finds
/// none, with each fallback set in turn, stopping at the first set that
/// finds a character. A set with a selector that is not accepted ends the
/// reading with its error. Where no set finds a character, the page's
/// structure has changed, and that is an error.
pub fn parse_hardcoded_html(html: &str, primary: &HtmlSelectors) -> (out: Result<
    Vec<CrawledCharacter>,
    String,
>)
    ensures
        match out {
            Ok(items) => read_page(html@, *primary) == Ok::<Seq<CharacterView>, Seq<char>>(
                character_views(items@),
            ) && items@.len() > 0,
            Err(e) => read_page(html@, *primary) == Err::<Seq<CharacterView>, Seq<char>>(e@),
        },
{
    let mut sets: Vec<HtmlSelectors> = Vec::new();
    sets.push(*primary);
    let mut rest = sel_fallbacks();
    sets.append(&mut rest);
    assert(sets@ =~= candidate_sets(*primary));
    match parse_with_fallbacks(html, &sets) {
        Ok((_, items)) => {
            assert(character_views(items@).len() == items@.len());
            Ok(items)
        },
        Err(e) => Err(e),
    }
}

/// Reads one more page and adds its characters to those of the pages before.
/// A page that cannot be read is an error, and nothing is handed out.
pub fn add_page(all: Vec<CrawledCharacter>, html: &str, primary: &HtmlSelectors) -> (out: Result<
    Vec<CrawledCharacter>,
    String,
>)
    ensures
        match out {
            Ok(more) => with_page(character_views(all@), html@, *primary) == Ok::<
                Seq<CharacterView>,
                Seq<char>,
            >(character_views(more@)),
            Err(e) => with_page(character_views(all@), html@, *primary) == Err::<
                Seq<CharacterView>,
                Seq<char>,
            >(e@),
        },
{
    match parse_hardcoded_html(html, primary) {
        Ok(mut items) => {
            let mut all = all;
            let ghost before = all@;
            let ghost found = items@;
            all.append(&mut items);
            assert(character_views(all@) =~= character_views(before) + character_views(found));
            Ok(all)
        },
        Err(e) => Err(e),
    }
}

/// Where the pages before a page are read and the page itself is not, the
/// pages together give the error of that page.
pub proof fn lemma_read_pages_fail(pages: Seq<(String, HtmlSelectors)>, i: int, m: int)
    requires
        0 <= i < m <= pages.len(),
        read_pages(pages.take(i + 1)) is Err,
    ensures
        read_pages(pages.take(m)) == read_pages(pages.take(i + 1)),
    decreases m,
{
    if i + 1 < m {
        lemma_read_pages_fail(pages, i, m - 1);
        assert(pages.take(m).drop_last() =~= pages.take(m - 1));
    }
}

/// Reads the characters of the pages that were fetched, each with the
/// selectors made for it, one page after another. The first page that
/// cannot be read ends the reading with its error, and nothing of the
/// pages before it is handed out.
pub fn fetch_all_hardcoded(pages: &Vec<(String, HtmlSelectors)>) -> (out: Result<
    Vec<CrawledCharacter>,
    String,
>)
    ensures
        match out {
            Ok(items) => read_pages(pages@) == Ok::<Seq<CharacterView>, Seq<char>>(
                character_views(items@),
            ),
            Err(e) => read_pages(pages@) == Err::<Seq<CharacterView>, Seq<char>>(e@),
        },
{
    let mut all: Vec<CrawledCharacter> = Vec::new();
    let mut i: usize = 0;
    assert(pages@.take(0) =~= Seq::<(String, HtmlSelectors)>::empty());
    assert(character_views(all@) =~= Seq::<CharacterView>::empty());
    while i < pages.len()
        invariant
            0 <= i <= pages.len(),
            read_pages(pages@.take(i as int)) == Ok::<Seq<CharacterView>, Seq<char>>(
                character_views(all@),
            ),
        decreases pages.len() - i,
    {
        proof {
            assert(pages@.take(i + 1).drop_last() =~= pages@.take(i as int));
            assert(pages@.take(i + 1).last() == pages@[i as int]);
            assert(pages@.take(pages@.len() as int) =~= pages@);
        }
        match add_page(all, pages[i].0.as_str(), &pages[i].1) {
            Ok(more) => {
                all = more;
            },
            Err(e) => {
                proof {
                    lemma_read_pages_fail(pages@, i as int, pages@.len() as int);
                }
                return Err(e);
            },
        }
        i += 1;
    }
    assert(pages@.take(pages@.len() as int) =~= pages@);
    Ok(all)
}

/// What to do after the attempt to have a page rendered by a browser.
#[derive(Debug, Clone, PartialEq, Eq)]
pub enum AfterRender {
    /// The page was rendered: use it.
    Use(String),
    /// The rendering failed: fetch the page with a plain request.
    FetchStatic,
}

/// Decides what follows the attempt to render a page: a rendered page is
/// used, and a rendering that failed, for whatever reason, is made up for
/// by a plain request.
pub fn after_render(rendered: Result<String, String>) -> (out: AfterRender)
    ensures
        match rendered {
            Ok(h) => out == AfterRender::Use(h),
            Err(_) => out is FetchStatic,
        },
{
    match rendered {
        Ok(h) => AfterRender::Use(h),
        Err(_) => AfterRender::FetchStatic,
    }
}

/// Stores crawled characters in the catalog, as a synchronisation does, and
/// reports how many pages, characters and costumes were gone through.
pub fn persist_crawled(store: &mut CatalogStore, items: Vec<CrawledCharacter>) -> (out: Result<
    CrawlerReport,
    String,
>)
    ensures
        out matches Ok(report) && report.sources == 1 && report.characters == items@.len()
            && report.costumes == costume_count(items@),
        final(store)@ == synced(old(store)@, items@),
        old(store)@.wf() ==> final(store)@.wf(),
        old(store)@.ids_ok() ==> final(store)@.ids_ok(),
        old(store)@.refs_ok() ==> final(store)@.refs_ok(),
{
    let sources = hardcoded_sources().len();
    match sync_records(store, items) {
        Ok(report) => Ok(
            CrawlerReport { sources, characters: report.characters, costumes: report.costumes },
        ),
        Err(e) => Err(e),
    }
}

} // verus!
