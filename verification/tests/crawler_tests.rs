use mods_handler::catalog::CatalogStore;
use mods_handler::crawler::{
    add_page, after_render, characters_from_cards, costumes_from_items, fetch_all_hardcoded,
    found_name, hardcoded_sources, parse_hardcoded_html, parse_with_fallbacks,
    parse_with_selectors, persist_crawled, sel_fallbacks, sel_primary, selector_failure,
    AfterRender, CrawlerReport, HtmlSelectors, RawCard,
};

const PRIMARY_PAGE: &str = r#"<html><body>
<div class="col-mobile-6"><h4><a href="/a"> Aria </a></h4>
  <ul class="list-group"><li><a>Default</a></li><li><a>  </a></li><li><a>Summer Breeze</a></li><li><span>none</span></li></ul>
</div>
<div class="col-mobile-6"><h4><a></a></h4><ul class="list-group"><li><a>Lost</a></li></ul></div>
<div class="col-mobile-6"><h4><a>Élodie <b>II</b></a></h4></div>
</body></html>"#;

const FIRST_FALLBACK_PAGE: &str = r#"<html><body>
<div class="media-body"><h5 class="mb-1"><a>Bruno</a></h5>
  <div class="list-group"><div class="list-group-item"><span>Knight</span></div></div>
</div></body></html>"#;

const SECOND_FALLBACK_PAGE: &str = r#"<html><body>
<section class="col-4"><h5><a>Cleo</a></h5>
  <div class="costume"><span class="cname">Night Gown</span></div>
</section></body></html>"#;

#[test]
fn primary_selectors_read_the_page() {
    let out = parse_with_selectors(PRIMARY_PAGE, &sel_primary()).unwrap();
    assert_eq!(out.len(), 2);
    assert_eq!(out[0].slug, "aria");
    assert_eq!(out[0].display_name, "Aria");
    assert!(out[0].aliases.is_empty());
    let costumes: Vec<(&str, &str)> =
        out[0].costumes.iter().map(|c| (c.slug.as_str(), c.display_name.as_str())).collect();
    assert_eq!(costumes, vec![("default", "Default"), ("summer-breeze", "Summer Breeze")]);
    assert_eq!(out[1].slug, "elodie-ii");
    assert_eq!(out[1].display_name, "Élodie II");
    assert!(out[1].costumes.is_empty());
    assert_eq!(parse_with_selectors("<p>nothing</p>", &sel_primary()), Ok(vec![]));
}

#[test]
fn a_selector_that_does_not_parse_is_an_error() {
    let bad = HtmlSelectors {
        char_selector: "div.col-mobile-6",
        char_name_selector: "h4 > > a",
        costume_selector: "ul.list-group > li",
        costume_name_selector: "a",
    };
    assert_eq!(
        parse_with_selectors(PRIMARY_PAGE, &bad),
        Err("selector does not parse: h4 > > a".to_string())
    );
    let bad_first = HtmlSelectors { char_selector: "div[", costume_name_selector: "[[", ..sel_primary() };
    assert_eq!(
        parse_with_selectors(PRIMARY_PAGE, &bad_first),
        Err("selector does not parse: div[".to_string())
    );
    let bad_last = HtmlSelectors { costume_name_selector: "[[", ..sel_primary() };
    assert_eq!(
        parse_with_selectors(PRIMARY_PAGE, &bad_last),
        Err("selector does not parse: [[".to_string())
    );
    let bad_third = HtmlSelectors { costume_selector: "li >", ..sel_primary() };
    assert_eq!(
        parse_with_selectors("", &bad_third),
        Err("selector does not parse: li >".to_string())
    );
    assert_eq!(selector_failure("x y"), "selector does not parse: x y");
}

#[test]
fn a_selector_that_does_not_parse_is_fatal_for_the_page() {
    // The first fallback would find a character, but the primary set is
    // read first and one of its selectors does not parse.
    let bad_primary = HtmlSelectors { char_selector: "div[", ..sel_primary() };
    assert!(parse_hardcoded_html(FIRST_FALLBACK_PAGE, &sel_primary()).is_ok());
    assert_eq!(
        parse_hardcoded_html(FIRST_FALLBACK_PAGE, &bad_primary),
        Err("selector does not parse: div[".to_string())
    );
    assert_eq!(
        parse_hardcoded_html("", &bad_primary),
        Err("selector does not parse: div[".to_string())
    );
    // A set that is reached only after sets that find nothing is fatal too.
    let bad = HtmlSelectors { char_name_selector: "h4 > > a", ..sel_primary() };
    let sets = vec![sel_primary(), bad, sel_fallbacks()[0]];
    assert_eq!(
        parse_with_fallbacks(FIRST_FALLBACK_PAGE, &sets),
        Err("selector does not parse: h4 > > a".to_string())
    );
    // A set after the one that finds a character is not read at all.
    let (index, found) = parse_with_fallbacks(PRIMARY_PAGE, &sets).unwrap();
    assert_eq!(index, 0);
    assert_eq!(found.len(), 2);
    // One page that cannot be read leaves nothing of the others.
    let pages = vec![
        (PRIMARY_PAGE.to_string(), sel_primary()),
        (FIRST_FALLBACK_PAGE.to_string(), bad_primary),
    ];
    assert_eq!(
        fetch_all_hardcoded(&pages),
        Err("selector does not parse: div[".to_string())
    );
}

#[test]
fn primary_match_is_returned_first() {
    let out = parse_hardcoded_html(PRIMARY_PAGE, &sel_primary()).unwrap();
    assert_eq!(out.len(), 2);
    assert_eq!(out[0].slug, "aria");
}

#[test]
fn first_fallback_is_used_when_primary_finds_nothing() {
    let out = parse_hardcoded_html(FIRST_FALLBACK_PAGE, &sel_primary()).unwrap();
    assert_eq!(out.len(), 1);
    assert_eq!(out[0].slug, "bruno");
    assert_eq!(out[0].costumes.len(), 1);
    assert_eq!(out[0].costumes[0].display_name, "Knight");
}

#[test]
fn second_fallback_is_used_when_only_it_matches() {
    let mut sets = vec![sel_primary()];
    sets.extend(sel_fallbacks());
    assert_eq!(parse_with_selectors(SECOND_FALLBACK_PAGE, &sets[0]), Ok(vec![]));
    assert_eq!(parse_with_selectors(SECOND_FALLBACK_PAGE, &sets[1]), Ok(vec![]));
    let direct = parse_with_selectors(SECOND_FALLBACK_PAGE, &sets[2]).unwrap();
    let (index, found) = parse_with_fallbacks(SECOND_FALLBACK_PAGE, &sets).unwrap();
    assert_eq!(index, 2);
    assert_eq!(found, direct);
    let out = parse_hardcoded_html(SECOND_FALLBACK_PAGE, &sel_primary()).unwrap();
    assert_eq!(out, direct);
    assert_eq!(out.len(), 1);
    assert_eq!(out[0].slug, "cleo");
    assert_eq!(out[0].costumes[0].slug, "night-gown");
}

#[test]
fn a_page_that_no_selector_set_matches_is_an_error() {
    assert_eq!(
        parse_hardcoded_html("<html><body><p>moved</p></body></html>", &sel_primary()),
        Err("no matches with available selectors".to_string())
    );
    assert_eq!(parse_hardcoded_html("", &sel_primary()).is_err(), true);
    assert_eq!(
        parse_with_fallbacks(PRIMARY_PAGE, &vec![]),
        Err("no matches with available selectors".to_string())
    );
}

#[test]
fn containers_without_a_name_are_skipped() {
    let s = |x: &str| x.to_string();
    let cards = vec![
        RawCard { names: vec![], items: vec![vec![s("Lost")]] },
        RawCard { names: vec![s("  \n"), s("Second")], items: vec![vec![s("Lost")]] },
        RawCard {
            names: vec![s(" Aria\t"), s("Other")],
            items: vec![vec![], vec![s("")], vec![s(" Default "), s("Ignored")], vec![s("Été")]],
        },
    ];
    let out = characters_from_cards(&cards);
    assert_eq!(out.len(), 1);
    assert_eq!(out[0].slug, "aria");
    assert_eq!(out[0].display_name, "Aria");
    assert_eq!(out[0].costumes.len(), 2);
    assert_eq!(out[0].costumes[0].display_name, "Default");
    assert_eq!(out[0].costumes[1].slug, "ete");
    assert_eq!(out[0].costumes[1].display_name, "Été");
    assert_eq!(found_name(&vec![]), "");
    assert_eq!(found_name(&vec![s(" x "), s("y")]), "x");
    assert!(costumes_from_items(&vec![]).is_empty());
    assert!(characters_from_cards(&vec![]).is_empty());
}

#[test]
fn the_first_name_match_of_a_container_is_its_name() {
    let page = r#"<div class="col-mobile-6"><h4><a>First</a></h4><h4><a>Second</a></h4>
      <ul class="list-group"><li><a>One</a><a>Two</a></li></ul></div>"#;
    let out = parse_with_selectors(page, &sel_primary()).unwrap();
    assert_eq!(out.len(), 1);
    assert_eq!(out[0].display_name, "First");
    assert_eq!(out[0].costumes.len(), 1);
    assert_eq!(out[0].costumes[0].display_name, "One");
}

#[test]
fn a_failed_rendering_is_made_up_for_by_a_plain_request() {
    assert_eq!(after_render(Ok("<html></html>".to_string())), AfterRender::Use("<html></html>".to_string()));
    assert_eq!(after_render(Ok(String::new())), AfterRender::Use(String::new()));
    assert_eq!(after_render(Err("no browser".to_string())), AfterRender::FetchStatic);
    assert_eq!(after_render(Err(String::new())), AfterRender::FetchStatic);
}

#[test]
fn a_page_adds_its_characters_to_those_before() {
    let first = add_page(vec![], SECOND_FALLBACK_PAGE, &sel_primary()).unwrap();
    assert_eq!(first.len(), 1);
    let both = add_page(first.clone(), PRIMARY_PAGE, &sel_primary()).unwrap();
    let slugs: Vec<&str> = both.iter().map(|c| c.slug.as_str()).collect();
    assert_eq!(slugs, vec!["cleo", "aria", "elodie-ii"]);
    assert_eq!(
        add_page(first, "<p>moved</p>", &sel_primary()),
        Err("no matches with available selectors".to_string())
    );
}

#[test]
fn crawled_characters_are_stored_like_a_catalog() {
    let mut store = CatalogStore::new();
    let items = parse_hardcoded_html(PRIMARY_PAGE, &sel_primary()).unwrap();
    let report = persist_crawled(&mut store, items.clone()).unwrap();
    assert_eq!(report, CrawlerReport { sources: 1, characters: 2, costumes: 2 });
    assert_eq!(store.characters.len(), 2);
    assert_eq!(store.costumes.len(), 2);
    let again = persist_crawled(&mut store, items).unwrap();
    assert_eq!(again, report);
    assert_eq!(store.characters.len(), 2);
    assert_eq!(store.costumes.len(), 2);
    assert!(store.aliases.is_empty());
}

#[test]
fn the_catalog_page_is_read_with_the_primary_selectors() {
    let sources = hardcoded_sources();
    assert_eq!(sources.len(), 1);
    assert_eq!(sources[0].url, "https://browndust2-wiki.souseha.com/en/costumes");
    assert_eq!(sources[0].sel, sel_primary());
    assert_eq!(sel_fallbacks().len(), 2);
    assert_eq!(sel_fallbacks()[0].char_selector, ".media-body");
}

#[test]
fn pages_are_read_in_order_and_all_or_nothing() {
    let pages = vec![
        (SECOND_FALLBACK_PAGE.to_string(), sel_primary()),
        (PRIMARY_PAGE.to_string(), sel_primary()),
    ];
    let all = fetch_all_hardcoded(&pages).unwrap();
    let slugs: Vec<&str> = all.iter().map(|c| c.slug.as_str()).collect();
    assert_eq!(slugs, vec!["cleo", "aria", "elodie-ii"]);
    let broken = vec![
        (PRIMARY_PAGE.to_string(), sel_primary()),
        ("<p>nothing here</p>".to_string(), sel_primary()),
        (FIRST_FALLBACK_PAGE.to_string(), sel_primary()),
    ];
    assert_eq!(
        fetch_all_hardcoded(&broken),
        Err("no matches with available selectors".to_string())
    );
    assert_eq!(fetch_all_hardcoded(&vec![]), Ok(vec![]));
}
