//! Looking up what agents are called.
use crate::api::errors::ApiError;
use crate::api::requests::{parse_hex_pubkey, reads_key};
use crate::seqs::{lemma_pick_step, pick};
use crate::table::Table;
use crate::tags::TextTable;
use crate::text::{trim, trimmed};
use crate::types::PublicKey;
use vstd::prelude::*;
use vstd::string::*;

verus! {

/// How many keys one request may ask about.
pub const MAX_NAMES_LOOKUP: usize = 64;

/// A name that an agent has, or does not.
#[derive(Debug, Clone)]
pub struct FoundName {
    pub name: Option<String>,
}

impl View for FoundName {
    type V = Option<Seq<char>>;

    open spec fn view(&self) -> Option<Seq<char>> {
        match self.name {
            Some(n) => Some(n@),
            None => None,
        }
    }
}

/// The parts of a text between its commas, one more than it has commas.
pub open spec fn parts(text: Seq<char>) -> Seq<Seq<char>>
    decreases text.len(),
{
    if text.len() == 0 {
        seq![Seq::empty()]
    } else {
        let before = parts(text.drop_last());
        if text.last() == ',' {
            before.push(Seq::empty())
        } else {
            before.update(before.len() - 1, before.last().push(text.last()))
        }
    }
}

/// What texts show, in order.
pub open spec fn shown_parts(v: Seq<&str>) -> Seq<Seq<char>> {
    v.map_values(|t: &str| t@)
}

/// Splits a text at its commas.
fn split_at_commas(text: &str) -> (r: Vec<&str>)
    ensures
        shown_parts(r@) == parts(text@),
{
    let n = text.unicode_len();
    let mut done: Vec<&str> = Vec::new();
    let mut start: usize = 0;
    let mut i: usize = 0;
    assert(text@.subrange(0, 0) =~= Seq::empty());
    assert(shown_parts(done@).push(text@.subrange(0, 0)) =~= parts(text@.take(0)));
    while i < n
        invariant
            n == text@.len(),
            start <= i <= n,
            shown_parts(done@).push(text@.subrange(start as int, i as int)) == parts(text@.take(i as int)),
        decreases n - i,
    {
        proof {
            assert(text@.take(i + 1).drop_last() =~= text@.take(i as int));
            assert(text@.take(i + 1).last() == text@[i as int]);
        }
        let ghost before = shown_parts(done@);
        if text.get_char(i) == ',' {
            let part = text.substring_char(start, i);
            done.push(part);
            start = i + 1;
            proof {
                assert(shown_parts(done@) =~= before.push(part@));
                assert(text@.subrange(start as int, i + 1) =~= Seq::empty());
                assert(shown_parts(done@).push(text@.subrange(start as int, i + 1)) =~= parts(text@.take(i + 1)));
            }
        } else {
            proof {
                let piece = text@.subrange(start as int, i as int);
                assert(text@.subrange(start as int, i + 1) =~= piece.push(text@[i as int]));
                let grown = parts(text@.take(i as int));
                assert(grown.last() == piece);
                assert(before.push(piece.push(text@[i as int])) =~= grown.update(
                    grown.len() - 1,
                    piece.push(text@[i as int]),
                ));
            }
        }
        i += 1;
    }
    assert(text@.take(i as int) =~= text@);
    let last = text.substring_char(start, n);
    let ghost before = shown_parts(done@);
    done.push(last);
    assert(shown_parts(done@) =~= before.push(last@));
    done
}

/// Keeps what is not blank, without the white space around it.
pub open spec fn not_blank() -> spec_fn(Seq<char>) -> Option<Seq<char>> {
    |part: Seq<char>|
        if trimmed(part).len() > 0 {
            Some(trimmed(part))
        } else {
            None
        }
}

/// The first `n` of a list, or all of it.
pub open spec fn first<T>(s: Seq<T>, n: int) -> Seq<T> {
    if n < s.len() {
        s.take(n)
    } else {
        s
    }
}

/// The keys that a request asks about, as it writes them.
pub open spec fn asked_keys(text: Seq<char>) -> Seq<Seq<char>> {
    first(pick(parts(text), not_blank()), MAX_NAMES_LOOKUP as int)
}

/// The keys that a request asks about, as it writes them.
fn keys_asked(text: &str) -> (asked: Vec<&str>)
    ensures
        shown_parts(asked@) == asked_keys(text@),
{
    let all = split_at_commas(text);
    let ghost f = not_blank();
    let ghost seen = shown_parts(all@);
    let mut asked: Vec<&str> = Vec::new();
    let mut i: usize = 0;
    assert(shown_parts(asked@) =~= pick(seen.take(0), f));
    while i < all.len()
        invariant
            i <= all.len(),
            f == not_blank(),
            seen == shown_parts(all@),
            shown_parts(asked@) == pick(seen.take(i as int), f),
        decreases all.len() - i,
    {
        proof {
            lemma_pick_step(seen, f, i as int);
        }
        let part = trim(all[i]);
        if !part.is_empty() {
            let ghost before = shown_parts(asked@);
            asked.push(part);
            assert(shown_parts(asked@) =~= before.push(part@));
        }
        i += 1;
    }
    assert(seen.take(i as int) =~= seen);
    if asked.len() > MAX_NAMES_LOOKUP {
        let ghost before = shown_parts(asked@);
        asked.truncate(MAX_NAMES_LOOKUP);
        assert(shown_parts(asked@) =~= before.take(MAX_NAMES_LOOKUP as int));
    }
    asked
}

/// The key inside a reading, if it is one.
pub open spec fn key_in(r: Result<PublicKey, ApiError>) -> Option<PublicKey> {
    match r {
        Ok(key) => Some(key),
        Err(_) => None,
    }
}

/// What is answered about keys that are read so: a name for each that is a
/// key, or none if it has no name. What is no key is left out.
pub open spec fn answers(
    asked: Seq<Seq<char>>,
    keys: Seq<Option<PublicKey>>,
    names: Map<PublicKey, Seq<char>>,
) -> Map<Seq<char>, Option<Seq<char>>>
    decreases asked.len(),
{
    if asked.len() == 0 {
        Map::empty()
    } else {
        let before = answers(asked.drop_last(), keys.drop_last(), names);
        match keys.last() {
            Some(key) => before.insert(
                asked.last(),
                if names.contains_key(key) {
                    Some(names[key])
                } else {
                    None
                },
            ),
            None => before,
        }
    }
}

/// Whether reading the text gives that key, or no key.
pub open spec fn reads_as<F: Fn(&[u8]) -> Result<PublicKey, String>>(
    text: Seq<char>,
    point: F,
    key: Option<PublicKey>,
) -> bool {
    exists|r: Result<PublicKey, ApiError>| #[trigger] reads_key(text, point, r) && key == key_in(r)
}

/// Whether each of `keys` comes of reading the text beside it.
pub open spec fn read_so<F: Fn(&[u8]) -> Result<PublicKey, String>>(
    asked: Seq<Seq<char>>,
    point: F,
    keys: Seq<Option<PublicKey>>,
) -> bool {
    &&& keys.len() == asked.len()
    &&& forall|i: int| 0 <= i < keys.len() ==> reads_as(asked[i], point, #[trigger] keys[i])
}

/// The names of the agents whose keys are asked for, with commas between.
/// Whoever has no name is answered all the same; what is no key is left out.
/// Nobody gets a name by being asked for.
pub fn lookup_names<F: Fn(&[u8]) -> Result<PublicKey, String>>(
    registry: &Table<PublicKey, String>,
    pubkeys: &str,
    point: &F,
) -> (out: TextTable<FoundName>)
    requires
        registry.wf(),
        forall|bytes: &[u8]| #[trigger] point.requires((bytes,)),
    ensures
        out.wf(),
        exists|keys: Seq<Option<PublicKey>>|
            #[trigger] read_so(asked_keys(pubkeys@), *point, keys) && out@ == answers(
                asked_keys(pubkeys@),
                keys,
                registry@,
            ),
{
    let asked = keys_asked(pubkeys);
    let ghost texts = shown_parts(asked@);
    let ghost mut keys: Seq<Option<PublicKey>> = Seq::empty();
    let mut out: TextTable<FoundName> = TextTable::new();
    let mut i: usize = 0;
    while i < asked.len()
        invariant
            i <= asked.len(),
            registry.wf(),
            forall|bytes: &[u8]| #[trigger] point.requires((bytes,)),
            texts == shown_parts(asked@),
            out.wf(),
            read_so(texts.take(i as int), *point, keys),
            out@ == answers(texts.take(i as int), keys, registry@),
        decreases asked.len() - i,
    {
        let r = parse_hex_pubkey(asked[i], point);
        let ghost before = keys;
        proof {
            assert(reads_key(texts[i as int], *point, r));
            keys = keys.push(key_in(r));
            assert(texts.take(i + 1).drop_last() =~= texts.take(i as int));
            assert(keys.drop_last() =~= before);
            assert(texts.take(i + 1).last() == asked@[i as int]@);
            assert(reads_as(texts[i as int], *point, key_in(r)));
            assert forall|k: int| 0 <= k < keys.len() implies reads_as(
                texts.take(i + 1)[k],
                *point,
                #[trigger] keys[k],
            ) by {
                if k < i {
                    assert(before[k] == keys[k]);
                    assert(texts.take(i as int)[k] == texts.take(i + 1)[k]);
                }
            }
        }
        if let Ok(key) = r {
            let found = FoundName {
                name: match registry.get(&key) {
                    Some(name) => Some(name.clone()),
                    None => None,
                },
            };
            let ghost shown = found@;
            let ghost had = out@;
            let at = out.slot(asked[i].to_owned(), FoundName { name: None });
            *out.value_at_mut(at) = found;
            assert(out@ =~= had.insert(asked@[i as int]@, shown));
        }
        i += 1;
    }
    assert(texts.take(i as int) =~= texts);
    out
}

}
