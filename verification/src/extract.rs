//! Extraction of description candidates from a parsed payload document: the
//! document's top-level name paired with the text of every description entry
//! whose language tag matches the requested one.

use vstd::prelude::*;
use crate::json::{Json, obj_get, json_obj_get, parsed_json, parse_json_text};
use crate::text::str_eq;

verus! {

/// One extracted candidate: the record's name and one description text.
pub struct PokeInfo {
    pub name: String,
    pub info: String,
}

impl View for PokeInfo {
    type V = (Seq<char>, Seq<char>);

    open spec fn view(&self) -> (Seq<char>, Seq<char>) {
        (self.name@, self.info@)
    }
}

/// The top-level name of the document, when it is an object with a string
/// `name` field.
pub open spec fn doc_name(doc: Json) -> Option<Seq<char>> {
    match doc {
        Json::Obj(fields) => match obj_get(fields@, "name"@) {
            Some(Json::Str(s)) => Some(s@),
            _ => None,
        },
        _ => None,
    }
}

/// The document's array of description entries, when present.
pub open spec fn doc_entries(doc: Json) -> Option<Seq<Json>> {
    match doc {
        Json::Obj(fields) => match obj_get(fields@, "flavor_text_entries"@) {
            Some(Json::Arr(v)) => Some(v@),
            _ => None,
        },
        _ => None,
    }
}

/// The language tag of one description entry, read from its nested
/// `language.name` field, when present.
pub open spec fn entry_lang(e: Json) -> Option<Seq<char>> {
    match e {
        Json::Obj(fields) => match obj_get(fields@, "language"@) {
            Some(Json::Obj(lf)) => match obj_get(lf@, "name"@) {
                Some(Json::Str(s)) => Some(s@),
                _ => None,
            },
            _ => None,
        },
        _ => None,
    }
}

/// The description text of one entry, when present.
pub open spec fn entry_text(e: Json) -> Option<Seq<char>> {
    match e {
        Json::Obj(fields) => match obj_get(fields@, "flavor_text"@) {
            Some(Json::Str(s)) => Some(s@),
            _ => None,
        },
        _ => None,
    }
}

/// Whether one entry carries language tag `lang` and a description text.
pub open spec fn entry_matches(e: Json, lang: Seq<char>) -> bool {
    entry_lang(e) == Some(lang) && entry_text(e) is Some
}

/// The texts of the entries of `entries` that match `lang`, in source order.
pub open spec fn matching_texts(entries: Seq<Json>, lang: Seq<char>) -> Seq<Seq<char>>
    decreases entries.len(),
{
    if entries.len() == 0 {
        Seq::empty()
    } else {
        let rest = matching_texts(entries.drop_last(), lang);
        match (entry_lang(entries.last()), entry_text(entries.last())) {
            (Some(l), Some(t)) => if l == lang {
                rest.push(t)
            } else {
                rest
            },
            _ => rest,
        }
    }
}

/// The candidates extracted from `doc` for language `lang`: the document's
/// name paired with each matching entry's text. A document without a name,
/// with an empty name, or without an entry array yields no candidates.
pub open spec fn extract_spec(doc: Json, lang: Seq<char>) -> Seq<(Seq<char>, Seq<char>)> {
    match (doc_name(doc), doc_entries(doc)) {
        (Some(name), Some(entries)) => if name.len() == 0 {
            Seq::empty()
        } else {
            matching_texts(entries, lang).map_values(|t: Seq<char>| (name, t))
        },
        _ => Seq::empty(),
    }
}

fn entry_lang_exec<'a>(e: &'a Json) -> (r: Option<&'a String>)
    ensures
        match r {
            Some(s) => entry_lang(*e) == Some(s@),
            None => entry_lang(*e) is None,
        },
{
    match e {
        Json::Obj(fields) => match json_obj_get(fields, "language") {
            Some(Json::Obj(lf)) => match json_obj_get(lf, "name") {
                Some(Json::Str(s)) => Some(s),
                _ => None,
            },
            _ => None,
        },
        _ => None,
    }
}

fn entry_text_exec<'a>(e: &'a Json) -> (r: Option<&'a String>)
    ensures
        match r {
            Some(s) => entry_text(*e) == Some(s@),
            None => entry_text(*e) is None,
        },
{
    match e {
        Json::Obj(fields) => match json_obj_get(fields, "flavor_text") {
            Some(Json::Str(s)) => Some(s),
            _ => None,
        },
        _ => None,
    }
}

/// Extracts from the document `doc` every description entry tagged `lang`,
/// paired with the document's name; `None` when the document carries no
/// entry array at all.
pub fn extract(doc: &Json, lang: &str) -> (r: Option<Vec<PokeInfo>>)
    ensures
        match doc_entries(*doc) {
            None => r is None,
            Some(_) => r matches Some(v) && v@.map_values(|p: PokeInfo| p@) == extract_spec(
                *doc,
                lang@,
            ),
        },
{
    let entries: &Vec<Json> = match doc {
        Json::Obj(fields) => match json_obj_get(fields, "flavor_text_entries") {
            Some(Json::Arr(v)) => v,
            _ => {
                return None;
            },
        },
        _ => {
            return None;
        },
    };
    let mut out: Vec<PokeInfo> = Vec::new();
    let name: &String = match doc {
        Json::Obj(fields) => match json_obj_get(fields, "name") {
            Some(Json::Str(s)) => s,
            _ => {
                proof {
                    assert(out@.map_values(|p: PokeInfo| p@) =~= extract_spec(*doc, lang@));
                }
                return Some(out);
            },
        },
        _ => {
            return Some(out);
        },
    };
    if name.as_str().unicode_len() == 0 {
        proof {
            assert(out@.map_values(|p: PokeInfo| p@) =~= extract_spec(*doc, lang@));
        }
        return Some(out);
    }
    let n = entries.len();
    let mut i: usize = 0;
    proof {
        assert(entries@.take(0) =~= Seq::<Json>::empty());
    }
    while i < n
        invariant
            n == entries@.len(),
            i <= n,
            name@.len() > 0,
            out@.len() == matching_texts(entries@.take(i as int), lang@).len(),
            forall|j: int| 0 <= j < out@.len() ==> out@[j]@ == (
                name@,
                matching_texts(entries@.take(i as int), lang@)[j],
            ),
        decreases n - i,
    {
        let e = &entries[i];
        proof {
            let post = entries@.take(i + 1);
            assert(post.drop_last() =~= entries@.take(i as int));
            assert(post.last() == entries@[i as int]);
            assert(post.len() == i + 1);
        }
        match entry_lang_exec(e) {
            Some(l) => {
                if str_eq(l.as_str(), lang) {
                    match entry_text_exec(e) {
                        Some(t) => {
                            let ghost pre_out = out@;
                            out.push(PokeInfo { name: name.clone(), info: t.clone() });
                            proof {
                                assert(out@ == pre_out.push(
                                    PokeInfo { name: *name, info: *t },
                                ));
                                assert(matching_texts(entries@.take(i + 1), lang@)
                                    == matching_texts(entries@.take(i as int), lang@).push(t@));
                            }
                        },
                        None => {
                            proof {
                                assert(matching_texts(entries@.take(i + 1), lang@)
                                    == matching_texts(entries@.take(i as int), lang@));
                            }
                        },
                    }
                } else {
                    proof {
                        assert(matching_texts(entries@.take(i + 1), lang@) == matching_texts(
                            entries@.take(i as int),
                            lang@,
                        ));
                    }
                }
            },
            None => {
                proof {
                    assert(matching_texts(entries@.take(i + 1), lang@) == matching_texts(
                        entries@.take(i as int),
                        lang@,
                    ));
                }
            },
        }
        i += 1;
    }
    proof {
        assert(entries@.take(n as int) =~= entries@);
        assert(out@.map_values(|p: PokeInfo| p@) =~= matching_texts(entries@, lang@).map_values(
            |t: Seq<char>| (name@, t),
        ));
    }
    Some(out)
}

/// Parses a raw payload and extracts every description entry tagged `lang`;
/// `None` when the payload is not valid JSON or carries no entry array.
pub fn extract_from_text(text: &str, lang: &str) -> (r: Option<Vec<PokeInfo>>)
    ensures
        match parsed_json(text@) {
            None => r is None,
            Some(doc) => match doc_entries(doc) {
                None => r is None,
                Some(_) => r matches Some(v) && v@.map_values(|p: PokeInfo| p@) == extract_spec(
                    doc,
                    lang@,
                ),
            },
        },
{
    match parse_json_text(text) {
        Some(doc) => extract(&doc, lang),
        None => None,
    }
}

/// The description text of an entry, an empty text standing in where the
/// entry has none.
pub open spec fn entry_text_of(e: Json) -> Seq<char> {
    match entry_text(e) {
        Some(t) => t,
        None => Seq::empty(),
    }
}

/// Every extracted candidate carries a non-empty name.
pub proof fn lemma_extract_names(doc: Json, lang: Seq<char>)
    ensures
        forall|i: int|
            0 <= i < extract_spec(doc, lang).len() ==> (#[trigger] extract_spec(doc, lang)[i])
                .0.len() > 0,
{
}

/// Law: extraction keeps exactly the entries whose language tag matches,
/// in source order, with their texts verbatim.
pub proof fn lemma_matching_texts_filter(entries: Seq<Json>, lang: Seq<char>)
    ensures
        matching_texts(entries, lang) == entries.filter(|e: Json| entry_matches(e, lang))
            .map_values(|e: Json| entry_text_of(e)),
    decreases entries.len(),
{
    reveal(Seq::filter);
    let p = |e: Json| entry_matches(e, lang);
    let f = |e: Json| entry_text_of(e);
    if entries.len() == 0 {
        assert(matching_texts(entries, lang) =~= entries.filter(p).map_values(f));
    } else {
        let rest = entries.drop_last();
        let x = entries.last();
        lemma_matching_texts_filter(rest, lang);
        if p(x) {
            rest.filter(p).lemma_push_map_commute(f, x);
            assert(entries.filter(p) == rest.filter(p).push(x));
            assert(matching_texts(entries, lang) == matching_texts(rest, lang).push(
                entry_text_of(x),
            ));
            assert(matching_texts(entries, lang) == entries.filter(p).map_values(f));
        } else {
            assert(entries.filter(p) == rest.filter(p));
            assert(matching_texts(entries, lang) == matching_texts(rest, lang));
        }
    }
}

/// Law: a document none of whose entries carries the requested language tag
/// yields no candidates at all.
pub proof fn lemma_no_match_no_candidates(doc: Json, lang: Seq<char>)
    requires
        match doc_entries(doc) {
            Some(es) => forall|i: int| 0 <= i < es.len() ==> !entry_matches(#[trigger] es[i], lang),
            None => true,
        },
    ensures
        extract_spec(doc, lang) == Seq::<(Seq<char>, Seq<char>)>::empty(),
{
    match doc_entries(doc) {
        Some(es) => {
            lemma_matching_texts_unmatched(es, lang);
            assert(extract_spec(doc, lang) =~= Seq::<(Seq<char>, Seq<char>)>::empty());
        },
        None => {
            assert(extract_spec(doc, lang) =~= Seq::<(Seq<char>, Seq<char>)>::empty());
        },
    }
}

proof fn lemma_matching_texts_unmatched(entries: Seq<Json>, lang: Seq<char>)
    requires
        forall|i: int| 0 <= i < entries.len() ==> !entry_matches(#[trigger] entries[i], lang),
    ensures
        matching_texts(entries, lang) == Seq::<Seq<char>>::empty(),
    decreases entries.len(),
{
    if entries.len() > 0 {
        lemma_matching_texts_unmatched(entries.drop_last(), lang);
        assert(!entry_matches(entries.last(), lang));
    }
}

/// Parses a raw payload and extracts its English description entries.
pub fn parse_api_result(text: &str) -> (r: Option<Vec<PokeInfo>>)
    ensures
        match parsed_json(text@) {
            None => r is None,
            Some(doc) => match doc_entries(doc) {
                None => r is None,
                Some(_) => r matches Some(v) && v@.map_values(|p: PokeInfo| p@) == extract_spec(
                    doc,
                    "en"@,
                ),
            },
        },
{
    extract_from_text(text, "en")
}

} // verus!
