use pokedesc::extract::{extract_from_text, parse_api_result};

fn entry(lang: &str, text: &str) -> String {
    format!(
        "{{\"flavor_text\":\"{}\",\"language\":{{\"name\":\"{}\"}}}}",
        text, lang
    )
}

fn doc(name: &str, entries: &[String]) -> String {
    format!(
        "{{\"name\":\"{}\",\"flavor_text_entries\":[{}]}}",
        name,
        entries.join(",")
    )
}

#[test]
fn keeps_exactly_the_matching_language() {
    let text = doc(
        "pikachu",
        &[
            entry("en", "first english"),
            entry("fr", "texte francais"),
            entry("en", "second english"),
            entry("de", "deutscher text"),
        ],
    );
    let got = extract_from_text(text.as_str(), "en").unwrap();
    assert_eq!(got.len(), 2);
    assert_eq!(got[0].name, "pikachu");
    assert_eq!(got[0].info, "first english");
    assert_eq!(got[1].name, "pikachu");
    assert_eq!(got[1].info, "second english");
}

#[test]
fn parse_api_result_picks_english() {
    let text = doc(
        "eevee",
        &[entry("fr", "texte"), entry("en", "english text")],
    );
    let got = parse_api_result(text.as_str()).unwrap();
    assert_eq!(got.len(), 1);
    assert_eq!(got[0].name, "eevee");
    assert_eq!(got[0].info, "english text");
}

#[test]
fn no_matching_language_yields_empty() {
    let text = doc("mew", &[entry("fr", "texte"), entry("de", "text")]);
    let got = extract_from_text(text.as_str(), "en").unwrap();
    assert_eq!(got.len(), 0);
}

#[test]
fn keeps_text_verbatim_before_normalization() {
    let text = doc("mew", &[entry("en", "kept\\nverbatim")]);
    let got = extract_from_text(text.as_str(), "en").unwrap();
    assert_eq!(got.len(), 1);
    assert_eq!(got[0].info, "kept\nverbatim");
}

#[test]
fn unparseable_payload_yields_none() {
    assert!(extract_from_text("this is not json", "en").is_none());
    assert!(parse_api_result("{\"name\": unterminated").is_none());
}

#[test]
fn missing_entry_array_yields_none() {
    assert!(extract_from_text("{\"name\":\"mew\"}", "en").is_none());
    assert!(extract_from_text("[]", "en").is_none());
}

#[test]
fn missing_name_yields_no_candidates() {
    let text = format!(
        "{{\"flavor_text_entries\":[{}]}}",
        entry("en", "english text")
    );
    let got = extract_from_text(text.as_str(), "en").unwrap();
    assert_eq!(got.len(), 0);
}

#[test]
fn empty_name_yields_no_candidates() {
    let text = doc("", &[entry("en", "english text")]);
    let got = extract_from_text(text.as_str(), "en").unwrap();
    assert_eq!(got.len(), 0);
}

#[test]
fn entries_missing_fields_are_skipped() {
    let text = format!(
        "{{\"name\":\"mew\",\"flavor_text_entries\":[{},{},{},{}]}}",
        "{\"flavor_text\":\"no language\"}",
        "{\"language\":{\"name\":\"en\"}}",
        "{\"flavor_text\":7,\"language\":{\"name\":\"en\"}}",
        entry("en", "the good one"),
    );
    let got = extract_from_text(text.as_str(), "en").unwrap();
    assert_eq!(got.len(), 1);
    assert_eq!(got[0].info, "the good one");
}
