//! The durable response cache: a mapping from decimal ID keys to raw payload
//! texts, held as a JSON object of strings in a single backing file. Callers
//! hand the file's current text in and write the returned text back, so the
//! whole mapping is re-read and rewritten on every operation.

use vstd::prelude::*;
use crate::text::{decimal_of, str_eq, u32_to_decimal};

verus! {

/// Failure of a cache operation: the backing file's text is not a JSON
/// object of strings.
#[derive(Debug, PartialEq, Eq, Structural)]
pub enum CacheError {
    Corrupt,
}

/// Whether no two entries of `pairs` share a key.
pub open spec fn distinct_keys(pairs: Seq<(String, String)>) -> bool {
    forall|i: int, j: int| 0 <= i < j < pairs.len() ==> pairs[i].0@ != pairs[j].0@
}

/// The mapping that `pairs` holds, the last entry of a key winning.
pub open spec fn assoc_map(pairs: Seq<(String, String)>) -> Map<Seq<char>, Seq<char>>
    decreases pairs.len(),
{
    if pairs.len() == 0 {
        Map::empty()
    } else {
        assoc_map(pairs.drop_last()).insert(pairs.last().0@, pairs.last().1@)
    }
}

/// What `serde_json` decodes the text into, read as a string-to-string
/// mapping: `Some` of the mapping when the text is a JSON object of strings,
/// `None` otherwise.
pub uninterp spec fn decoded_map(s: Seq<char>) -> Option<Map<Seq<char>, Seq<char>>>;

/// Relies on `serde_json::from_str::<BTreeMap<String, String>>`: decodes a
/// JSON object of strings into its entries, each key at most once; the
/// result depends on the text alone.
#[verifier::external_body]
fn json_decode_pairs(s: &str) -> (r: Option<Vec<(String, String)>>)
    ensures
        match r {
            Some(v) => decoded_map(s@) == Some(assoc_map(v@)) && distinct_keys(v@),
            None => decoded_map(s@) is None,
        },
{
    match serde_json::from_str::<std::collections::BTreeMap<String, String>>(s) {
        Ok(m) => Some(m.into_iter().collect()),
        Err(_) => None,
    }
}

/// Relies on `serde_json::to_string` applied to a `BTreeMap<String, String>`:
/// renders the entries as a JSON object of strings, which
/// `serde_json::from_str` reads back as the same mapping; serializing a map
/// of strings cannot fail.
#[verifier::external_body]
fn json_encode_pairs(pairs: &Vec<(String, String)>) -> (r: String)
    requires
        distinct_keys(pairs@),
    ensures
        decoded_map(r@) == Some(assoc_map(pairs@)),
{
    let m: std::collections::BTreeMap<&str, &str> = pairs.iter().map(
        |p: &(String, String)| (p.0.as_str(), p.1.as_str()),
    ).collect();
    serde_json::to_string(&m).expect("a map of strings always serializes")
}

proof fn lemma_assoc_absent(pairs: Seq<(String, String)>, key: Seq<char>)
    requires
        forall|j: int| 0 <= j < pairs.len() ==> pairs[j].0@ != key,
    ensures
        !assoc_map(pairs).contains_key(key),
    decreases pairs.len(),
{
    if pairs.len() > 0 {
        lemma_assoc_absent(pairs.drop_last(), key);
    }
}

proof fn lemma_assoc_found(pairs: Seq<(String, String)>, i: int)
    requires
        distinct_keys(pairs),
        0 <= i < pairs.len(),
    ensures
        assoc_map(pairs).contains_key(pairs[i].0@),
        assoc_map(pairs)[pairs[i].0@] == pairs[i].1@,
    decreases pairs.len(),
{
    if i < pairs.len() - 1 {
        lemma_assoc_found(pairs.drop_last(), i);
    }
}

proof fn lemma_assoc_remove(pairs: Seq<(String, String)>, i: int)
    requires
        distinct_keys(pairs),
        0 <= i < pairs.len(),
    ensures
        distinct_keys(pairs.remove(i)),
        assoc_map(pairs.remove(i)) == assoc_map(pairs).remove(pairs[i].0@),
    decreases pairs.len(),
{
    let k = pairs[i].0@;
    assert(distinct_keys(pairs.remove(i))) by {
        assert forall|a: int, b: int|
            0 <= a < b < pairs.remove(i).len() implies pairs.remove(i)[a].0@ != pairs.remove(
            i,
        )[b].0@ by {
            let a0 = if a < i {
                a
            } else {
                a + 1
            };
            let b0 = if b < i {
                b
            } else {
                b + 1
            };
            assert(pairs.remove(i)[a] == pairs[a0]);
            assert(pairs.remove(i)[b] == pairs[b0]);
        }
    }
    if i == pairs.len() - 1 {
        assert(pairs.remove(i) =~= pairs.drop_last());
        lemma_assoc_absent(pairs.drop_last(), k);
        assert(assoc_map(pairs.drop_last()) =~= assoc_map(pairs).remove(k));
    } else {
        lemma_assoc_remove(pairs.drop_last(), i);
        assert(pairs.remove(i).drop_last() =~= pairs.drop_last().remove(i));
        assert(pairs.remove(i).last() == pairs.last());
        assert(assoc_map(pairs.remove(i)) == assoc_map(pairs.drop_last()).remove(k).insert(
            pairs.last().0@,
            pairs.last().1@,
        ));
        assert(k != pairs.last().0@);
        assert(assoc_map(pairs.remove(i)) =~= assoc_map(pairs).remove(k));
    }
}

fn find_key_index(entries: &Vec<(String, String)>, key: &str) -> (r: Option<usize>)
    ensures
        match r {
            Some(i) => i < entries@.len() && entries@[i as int].0@ == key@,
            None => forall|j: int| 0 <= j < entries@.len() ==> entries@[j].0@ != key@,
        },
{
    let n = entries.len();
    let mut i: usize = 0;
    while i < n
        invariant
            n == entries@.len(),
            i <= n,
            forall|j: int| 0 <= j < i ==> entries@[j].0@ != key@,
        decreases n - i,
    {
        if str_eq(entries[i].0.as_str(), key) {
            return Some(i);
        }
        i += 1;
    }
    None
}

/// The in-memory form of the cache: its entries, each ID key at most once.
pub struct CacheMap {
    entries: Vec<(String, String)>,
}

impl View for CacheMap {
    type V = Map<Seq<char>, Seq<char>>;

    closed spec fn view(&self) -> Map<Seq<char>, Seq<char>> {
        assoc_map(self.entries@)
    }
}

impl CacheMap {
    /// No two entries share a key.
    pub closed spec fn wf(&self) -> bool {
        distinct_keys(self.entries@)
    }

    /// A cache with nothing in it.
    pub fn empty() -> (r: CacheMap)
        ensures
            r@ == Map::<Seq<char>, Seq<char>>::empty(),
            r.wf(),
    {
        CacheMap { entries: Vec::new() }
    }

    /// The payload stored under `key`, if any.
    pub fn lookup<'a>(&'a self, key: &str) -> (r: Option<&'a String>)
        requires
            self.wf(),
        ensures
            match r {
                Some(s) => self@.contains_key(key@) && self@[key@] == s@,
                None => !self@.contains_key(key@),
            },
    {
        match find_key_index(&self.entries, key) {
            Some(i) => {
                proof {
                    lemma_assoc_found(self.entries@, i as int);
                }
                Some(&self.entries[i].1)
            },
            None => {
                proof {
                    lemma_assoc_absent(self.entries@, key@);
                }
                None
            },
        }
    }

    /// Stores `val` under `key`, replacing any earlier entry of that key.
    pub fn insert(&mut self, key: String, val: String)
        requires
            old(self).wf(),
        ensures
            final(self).wf(),
            final(self)@ == old(self)@.insert(key@, val@),
    {
        let ghost es0 = self.entries@;
        match find_key_index(&self.entries, key.as_str()) {
            Some(i) => {
                let _removed = self.entries.remove(i);
                proof {
                    lemma_assoc_remove(es0, i as int);
                    assert forall|j: int|
                        0 <= j < self.entries@.len() implies self.entries@[j].0@ != key@ by {
                        let j0 = if j < i {
                            j
                        } else {
                            j + 1
                        };
                        assert(self.entries@[j] == es0[j0]);
                    }
                }
            },
            None => {},
        }
        let ghost es1 = self.entries@;
        self.entries.push((key, val));
        proof {
            assert(self.entries@.drop_last() =~= es1);
            assert(self.entries@.last() == (key, val));
            assert(distinct_keys(self.entries@)) by {
                assert forall|a: int, b: int|
                    0 <= a < b < self.entries@.len() implies self.entries@[a].0@
                    != self.entries@[b].0@ by {
                    if b < es1.len() {
                        assert(self.entries@[a] == es1[a]);
                        assert(self.entries@[b] == es1[b]);
                    } else {
                        assert(self.entries@[a] == es1[a]);
                        assert(self.entries@[b].0@ == key@);
                    }
                }
            }
            assert(final(self)@ =~= old(self)@.insert(key@, val@));
        }
    }

    /// Renders the cache as the backing file's text.
    pub fn to_file_text(&self) -> (r: String)
        requires
            self.wf(),
        ensures
            decoded_map(r@) == Some(self@),
    {
        json_encode_pairs(&self.entries)
    }

    /// Reads the cache back from the backing file's text; a text that is not
    /// a JSON object of strings is corrupt, never an empty cache.
    pub fn from_file_text(text: &str) -> (r: Result<CacheMap, CacheError>)
        ensures
            match r {
                Ok(c) => decoded_map(text@) == Some(c@) && c.wf(),
                Err(e) => decoded_map(text@) is None && e == CacheError::Corrupt,
            },
    {
        match json_decode_pairs(text) {
            Some(v) => Ok(CacheMap { entries: v }),
            None => Err(CacheError::Corrupt),
        }
    }
}

/// The text a backing file holds, `None` when the file is absent.
pub open spec fn text_view(file_text: Option<&str>) -> Option<Seq<char>> {
    match file_text {
        Some(t) => Some(t@),
        None => None,
    }
}

/// The mapping a backing file holds: an absent file is an empty mapping; a
/// present file holds what `decoded_map` reads from it, or is corrupt.
pub open spec fn cache_view(file_text: Option<Seq<char>>) -> Option<Map<Seq<char>, Seq<char>>> {
    match file_text {
        None => Some(Map::empty()),
        Some(t) => decoded_map(t),
    }
}

/// The payload stored for `id` in mapping `m`, if any.
pub open spec fn cache_get_spec(m: Map<Seq<char>, Seq<char>>, id: u32) -> Option<Seq<char>> {
    if m.contains_key(decimal_of(id as nat)) {
        Some(m[decimal_of(id as nat)])
    } else {
        None
    }
}

/// Mapping `m` with `payload` stored for `id`.
pub open spec fn cache_set_spec(m: Map<Seq<char>, Seq<char>>, id: u32, payload: Seq<char>) -> Map<
    Seq<char>,
    Seq<char>,
> {
    m.insert(decimal_of(id as nat), payload)
}

/// The cached payload for `id`, given the backing file's current text
/// (`None` when the file is absent); absent IDs are a miss, a file that does
/// not decode is corrupt.
pub fn get_cached_response_for_id(file_text: Option<&str>, id: u32) -> (r: Result<
    Option<String>,
    CacheError,
>)
    ensures
        match cache_view(text_view(file_text)) {
            None => r matches Err(CacheError::Corrupt),
            Some(m) => r matches Ok(o) && (match o {
                Some(s) => cache_get_spec(m, id) == Some(s@),
                None => cache_get_spec(m, id) is None,
            }),
        },
{
    let map = match file_text {
        Some(t) => match CacheMap::from_file_text(t) {
            Ok(c) => c,
            Err(e) => {
                return Err(e);
            },
        },
        None => CacheMap::empty(),
    };
    let key = u32_to_decimal(id);
    match map.lookup(key.as_str()) {
        Some(s) => Ok(Some(s.clone())),
        None => Ok(None),
    }
}

/// The backing file's new text after storing `response` for `id`, given its
/// current text; a file that does not decode is corrupt and is left alone.
pub fn set_cached_response_for_id(file_text: Option<&str>, id: u32, response: &str) -> (r: Result<
    String,
    CacheError,
>)
    ensures
        match cache_view(text_view(file_text)) {
            None => r matches Err(CacheError::Corrupt),
            Some(m) => r matches Ok(t) && decoded_map(t@) == Some(
                cache_set_spec(m, id, response@),
            ),
        },
{
    let mut map = match file_text {
        Some(t) => match CacheMap::from_file_text(t) {
            Ok(c) => c,
            Err(e) => {
                return Err(e);
            },
        },
        None => CacheMap::empty(),
    };
    map.insert(u32_to_decimal(id), response.to_owned());
    Ok(map.to_file_text())
}

/// Law: storing a payload and then reading the same ID yields that payload,
/// unchanged.
pub proof fn lemma_cache_round_trip(m: Map<Seq<char>, Seq<char>>, id: u32, payload: Seq<char>)
    ensures
        cache_get_spec(cache_set_spec(m, id, payload), id) == Some(payload),
{
}

/// Law: of two writes to the same ID, the most recent wins.
pub proof fn lemma_cache_overwrite(
    m: Map<Seq<char>, Seq<char>>,
    id: u32,
    first: Seq<char>,
    second: Seq<char>,
)
    ensures
        cache_get_spec(cache_set_spec(cache_set_spec(m, id, first), id, second), id) == Some(
            second,
        ),
{
}

/// Law: an empty cache misses on every ID.
pub proof fn lemma_cache_empty_miss(id: u32)
    ensures
        cache_get_spec(Map::empty(), id) is None,
{
}

} // verus!
