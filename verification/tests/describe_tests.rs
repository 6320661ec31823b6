use pokedesc::cache::{get_cached_response_for_id, set_cached_response_for_id};
use pokedesc::describe::{get_poke_description, select_result};
use pokedesc::extract::PokeInfo;
use pokedesc::text::{capitalize_first_letter, normalize_text};

#[test]
fn capitalize_uppercases_first_letter_only() {
    assert_eq!(capitalize_first_letter("pikachu"), "Pikachu");
    assert_eq!(capitalize_first_letter("x"), "X");
    assert_eq!(capitalize_first_letter("Already"), "Already");
    assert_eq!(capitalize_first_letter("7th"), "7th");
}

#[test]
fn normalize_collapses_line_breaks() {
    assert_eq!(normalize_text("A mouse\npokemon."), "A mouse pokemon.");
    assert_eq!(normalize_text("a\nb\nc"), "a b c");
    assert_eq!(normalize_text("no breaks"), "no breaks");
    assert_eq!(normalize_text(""), "");
}

#[test]
fn selection_normalizes_name_and_text() {
    let picked = select_result(&PokeInfo {
        name: String::from("pikachu"),
        info: String::from("A mouse\npokemon."),
    });
    assert_eq!(picked.name, "Pikachu");
    assert_eq!(picked.info, "A mouse pokemon.");
}

#[test]
fn description_of_single_entry() {
    let text = "{\"name\":\"pikachu\",\"flavor_text_entries\":[{\"flavor_text\":\"A mouse\\npokemon.\",\"language\":{\"name\":\"en\"}}]}";
    let got = get_poke_description(text, "en").unwrap();
    assert_eq!(got.name, "Pikachu");
    assert_eq!(got.info, "A mouse pokemon.");
}

#[test]
fn description_is_one_of_the_matching_entries() {
    let text = "{\"name\":\"mew\",\"flavor_text_entries\":[\
        {\"flavor_text\":\"first\",\"language\":{\"name\":\"en\"}},\
        {\"flavor_text\":\"second\",\"language\":{\"name\":\"en\"}},\
        {\"flavor_text\":\"third\",\"language\":{\"name\":\"en\"}}]}";
    for _ in 0..20 {
        let got = get_poke_description(text, "en").unwrap();
        assert_eq!(got.name, "Mew");
        assert!(got.info == "first" || got.info == "second" || got.info == "third");
    }
}

#[test]
fn no_matching_language_yields_no_description() {
    let text = "{\"name\":\"mew\",\"flavor_text_entries\":[{\"flavor_text\":\"texte\",\"language\":{\"name\":\"fr\"}}]}";
    assert!(get_poke_description(text, "en").is_none());
}

#[test]
fn unparseable_payload_yields_no_description() {
    assert!(get_poke_description("garbage", "en").is_none());
}

#[test]
fn lookup_fetches_once_then_serves_from_cache() {
    // The flow the surrounding program runs: ask the cache, fall back to the
    // fetch collaborator on a miss, store what it returned, extract.
    let fetched = "{\"name\":\"bulbasaur\",\"flavor_text_entries\":[{\"flavor_text\":\"A strange seed\\nwas planted.\",\"language\":{\"name\":\"en\"}}]}";
    let mut fetch_calls: u32 = 0;

    // First lookup: the cache file is absent, so the collaborator is asked.
    let cached = get_cached_response_for_id(None, 1).unwrap();
    assert_eq!(cached, None);
    fetch_calls += 1;
    let payload = fetched.to_string();
    let file_text = set_cached_response_for_id(None, 1, payload.as_str()).unwrap();
    let first = get_poke_description(payload.as_str(), "en").unwrap();
    assert_eq!(first.name, "Bulbasaur");
    assert_eq!(first.info, "A strange seed was planted.");

    // Second lookup: served from the cache, the collaborator disabled.
    let cached = get_cached_response_for_id(Some(file_text.as_str()), 1)
        .unwrap()
        .expect("the payload must be served from the cache");
    let second = get_poke_description(cached.as_str(), "en").unwrap();
    assert_eq!(second.name, "Bulbasaur");
    assert_eq!(second.info, "A strange seed was planted.");
    assert_eq!(fetch_calls, 1);
}
