//! Selection and presentation: one candidate is chosen uniformly at random
//! from the extracted set and formatted for display.

use vstd::prelude::*;
use rand::Rng;
use crate::extract::{PokeInfo, doc_entries, extract_from_text, extract_spec, lemma_extract_names};
use crate::json::parsed_json;
use crate::text::{cap_first, capitalize_first_letter, flatten_newlines, normalize_text};

verus! {

/// Relies on `rand::Rng::gen_range` over `0..n`: returns a uniformly random
/// index below `n`. Two calls may differ; every result is below `n`.
#[verifier::external_body]
fn random_below(n: usize) -> (r: usize)
    requires
        n > 0,
    ensures
        r < n,
{
    rand::thread_rng().gen_range(0..n)
}

/// The display form of a candidate: the name uppercased at its first
/// character, the text collapsed to one line.
pub open spec fn normalized(c: (Seq<char>, Seq<char>)) -> (Seq<char>, Seq<char>) {
    (cap_first(c.0), flatten_newlines(c.1))
}

/// Formats one chosen candidate for display, as `normalized` describes.
pub fn select_result(c: &PokeInfo) -> (r: PokeInfo)
    requires
        c.name@.len() > 0,
    ensures
        r@ == normalized(c@),
{
    PokeInfo {
        name: capitalize_first_letter(c.name.as_str()),
        info: normalize_text(c.info.as_str()),
    }
}

/// Parses a raw payload, keeps the description entries tagged `lang`, and
/// formats one of them, chosen uniformly at random, for display. `None` when
/// the payload does not parse, carries no entry array, or nothing matches:
/// no description is available, which is not an error.
pub fn get_poke_description(text: &str, lang: &str) -> (r: Option<PokeInfo>)
    ensures
        match parsed_json(text@) {
            None => r is None,
            Some(doc) => match doc_entries(doc) {
                None => r is None,
                Some(_) => {
                    let cands = extract_spec(doc, lang@);
                    if cands.len() == 0 {
                        r is None
                    } else {
                        r matches Some(p) && exists|i: int|
                            0 <= i < cands.len() && p@ == normalized(cands[i])
                    }
                },
            },
        },
{
    let cands = match extract_from_text(text, lang) {
        Some(v) => v,
        None => {
            return None;
        },
    };
    if cands.len() == 0 {
        return None;
    }
    let i = random_below(cands.len());
    let chosen = &cands[i];
    proof {
        let doc = parsed_json(text@)->Some_0;
        lemma_extract_names(doc, lang@);
        assert(cands@.map_values(|p: PokeInfo| p@)[i as int] == chosen@);
        assert(chosen@ == extract_spec(doc, lang@)[i as int]);
        assert(chosen@.0.len() > 0);
    }
    let picked = select_result(chosen);
    proof {
        let doc = parsed_json(text@)->Some_0;
        assert(picked@ == normalized(extract_spec(doc, lang@)[i as int]));
    }
    Some(picked)
}

} // verus!
