//! Trusted boundary to the `fst` crate: compact sorted-key search automata.
//!
//! The set holds the dictionary words; the map assigns each shortcode a
//! dense id. The uninterpreted functions below name what each structure
//! holds; every method the library calls is wrapped with a contract that
//! states, over those names, what the crate's source shows.
use vstd::prelude::*;

use crate::text::{lex_lt, pair_prefix_pred, prefix_pred};
use fst::Automaton;
use fst::IntoStreamer;

verus! {

#[verifier::external_type_specification]
#[verifier::external_body]
#[verifier::reject_recursive_types(D)]
pub struct ExSet<D>(fst::Set<D>);

#[verifier::external_type_specification]
#[verifier::external_body]
#[verifier::reject_recursive_types(D)]
pub struct ExMap<D>(fst::Map<D>);

#[verifier::external_type_specification]
#[verifier::external_body]
#[verifier::reject_recursive_types(W)]
pub struct ExSetBuilder<W>(fst::SetBuilder<W>);

#[verifier::external_type_specification]
#[verifier::external_body]
#[verifier::reject_recursive_types(W)]
pub struct ExMapBuilder<W>(fst::MapBuilder<W>);

/// The keys a set holds, in ascending `lex_lt` order (the order in which a
/// set streams its keys).
pub uninterp spec fn set_keys(s: &fst::Set<Vec<u8>>) -> Seq<Seq<char>>;

/// Whether every key of the set is valid UTF-8, so that `set_keys` is
/// faithful and searches can hand keys back as strings.
pub uninterp spec fn set_utf8(s: &fst::Set<Vec<u8>>) -> bool;

/// The serialized form of the set. Construction is deterministic, so the
/// bytes are a function of the set alone.
pub uninterp spec fn set_bytes(s: &fst::Set<Vec<u8>>) -> Seq<u8>;

/// The keys inserted into a set builder so far, in insertion order (the
/// builder only accepts ascending keys, so this is also ascending).
pub uninterp spec fn set_builder_keys(b: &fst::SetBuilder<Vec<u8>>) -> Seq<Seq<char>>;

/// The key/value pairs a map holds, in ascending key order (the order in
/// which a map streams its pairs).
pub uninterp spec fn map_pairs(m: &fst::Map<Vec<u8>>) -> Seq<(Seq<char>, u64)>;

/// Whether every key of the map is valid UTF-8.
pub uninterp spec fn map_utf8(m: &fst::Map<Vec<u8>>) -> bool;

/// The serialized form of the map.
pub uninterp spec fn map_bytes(m: &fst::Map<Vec<u8>>) -> Seq<u8>;

/// The key/value pairs inserted into a map builder so far, in insertion
/// order.
pub uninterp spec fn map_builder_pairs(b: &fst::MapBuilder<Vec<u8>>) -> Seq<(Seq<char>, u64)>;

/// Relies on `fst::SetBuilder::memory`: a fresh in-memory builder holds no
/// keys.
#[verifier::external_body]
pub(crate) fn set_builder_new() -> (b: fst::SetBuilder<Vec<u8>>)
    ensures
        set_builder_keys(&b) == Seq::<Seq<char>>::empty(),
{
    fst::SetBuilder::memory()
}

/// Relies on `fst::SetBuilder::insert`: a key below the last inserted key
/// is rejected, an equal key is absorbed without effect, a greater key is
/// appended. fst compares UTF-8 bytes, whose order is `lex_lt` on the
/// characters; writing to the in-memory `Vec<u8>` cannot fail.
#[verifier::external_body]
pub(crate) fn set_builder_insert(b: &mut fst::SetBuilder<Vec<u8>>, key: &str) -> (r: bool)
    ensures
        r == (set_builder_keys(old(b)).len() == 0 || !lex_lt(
            key@,
            set_builder_keys(old(b)).last(),
        )),
        (r && (set_builder_keys(old(b)).len() == 0 || set_builder_keys(old(b)).last() != key@))
            ==> set_builder_keys(final(b)) == set_builder_keys(old(b)).push(key@),
        (r && set_builder_keys(old(b)).len() > 0 && set_builder_keys(old(b)).last() == key@)
            ==> set_builder_keys(final(b)) == set_builder_keys(old(b)),
        !r ==> set_builder_keys(final(b)) == set_builder_keys(old(b)),
{
    b.insert(key).is_ok()
}

/// Relies on `fst::SetBuilder::into_set`: the finished set holds exactly
/// the inserted keys; every key was handed over as a `&str`, so all keys
/// are valid UTF-8. The in-memory writer cannot fail.
#[verifier::external_body]
pub(crate) fn set_builder_finish(b: fst::SetBuilder<Vec<u8>>) -> (s: fst::Set<Vec<u8>>)
    ensures
        set_keys(&s) == set_builder_keys(&b),
        set_utf8(&s),
{
    b.into_set()
}

/// Relies on `fst::Set::search` with a starts-with string automaton: the
/// stream yields, in the set's ascending order, exactly the keys that have
/// the query as a prefix; `into_strs` fails only on a key that is not
/// valid UTF-8. Traversal indexes the buffer by addresses read from it, so
/// freedom from panics past loading rests on the checksum that
/// `set_from_bytes` verifies; a deliberately forged checksum over a
/// malformed structure is outside what these contracts can exclude.
#[verifier::external_body]
pub(crate) fn set_prefix_search(s: &fst::Set<Vec<u8>>, prefix: &str) -> (r: Option<Vec<String>>)
    ensures
        set_utf8(s) ==> r is Some,
        r matches Some(v) ==> v.deep_view() == set_keys(s).filter(prefix_pred(prefix@)),
{
    let stream = s.search(fst::automaton::Str::new(prefix).starts_with()).into_stream();
    stream.into_strs().ok()
}

/// Relies on `fst::Set::as_fst` and `fst::raw::Fst::as_bytes`: the
/// serialized bytes of the set.
#[verifier::external_body]
pub(crate) fn set_to_bytes(s: &fst::Set<Vec<u8>>) -> (b: Vec<u8>)
    ensures
        b@ == set_bytes(s),
{
    s.as_fst().as_bytes().to_vec()
}

/// Relies on `fst::Set::new` and `fst::raw::Fst::verify`: on the
/// serialized bytes of a set, construction succeeds, the stored checksum
/// matches, and the result has the same contents (the contents are a
/// function of the bytes); bytes whose structure or checksum do not hold
/// up are rejected.
#[verifier::external_body]
pub(crate) fn set_from_bytes(bytes: Vec<u8>) -> (r: Option<fst::Set<Vec<u8>>>)
    ensures
        r is None ==> forall|s0: fst::Set<Vec<u8>>| bytes@ != #[trigger] set_bytes(&s0),
        r matches Some(s) ==> forall|s0: fst::Set<Vec<u8>>|
            bytes@ == #[trigger] set_bytes(&s0) ==> (set_keys(&s) == set_keys(&s0) && set_utf8(&s)
                == set_utf8(&s0)),
{
    match fst::Set::new(bytes) {
        Ok(s) => match s.as_fst().verify() {
            Ok(()) => Some(s),
            Err(_) => None,
        },
        Err(_) => None,
    }
}

/// Relies on `fst::MapBuilder::memory`: a fresh in-memory builder holds no
/// pairs.
#[verifier::external_body]
pub(crate) fn map_builder_new() -> (b: fst::MapBuilder<Vec<u8>>)
    ensures
        map_builder_pairs(&b) == Seq::<(Seq<char>, u64)>::empty(),
{
    fst::MapBuilder::memory()
}

/// Relies on `fst::MapBuilder::insert`: a key at or below the last inserted
/// key is rejected (duplicates included) and leaves the builder unchanged;
/// a strictly greater key is appended with its value. fst compares UTF-8
/// bytes, whose order is `lex_lt` on the characters; writing to the
/// in-memory `Vec<u8>` cannot fail.
#[verifier::external_body]
pub(crate) fn map_builder_insert(b: &mut fst::MapBuilder<Vec<u8>>, key: &str, val: u64) -> (r:
    bool)
    ensures
        r == (map_builder_pairs(old(b)).len() == 0 || lex_lt(
            map_builder_pairs(old(b)).last().0,
            key@,
        )),
        r ==> map_builder_pairs(final(b)) == map_builder_pairs(old(b)).push((key@, val)),
        !r ==> map_builder_pairs(final(b)) == map_builder_pairs(old(b)),
{
    b.insert(key, val).is_ok()
}

/// Relies on `fst::MapBuilder::into_map`: the finished map holds exactly
/// the inserted pairs; every key was handed over as a `&str`, so all keys
/// are valid UTF-8. The in-memory writer cannot fail.
#[verifier::external_body]
pub(crate) fn map_builder_finish(b: fst::MapBuilder<Vec<u8>>) -> (m: fst::Map<Vec<u8>>)
    ensures
        map_pairs(&m) == map_builder_pairs(&b),
        map_utf8(&m),
{
    b.into_map()
}

/// Relies on `fst::Map::search` with a starts-with string automaton: the
/// stream yields, in the map's ascending key order, exactly the pairs whose
/// key has the query as a prefix; `into_str_vec` fails only on a key that
/// is not valid UTF-8. As with the set search, freedom from panics past
/// loading rests on the checksum that `map_from_bytes` verifies.
#[verifier::external_body]
pub(crate) fn map_prefix_search(m: &fst::Map<Vec<u8>>, prefix: &str) -> (r: Option<
    Vec<(String, u64)>,
>)
    ensures
        map_utf8(m) ==> r is Some,
        r matches Some(v) ==> v.deep_view() == map_pairs(m).filter(pair_prefix_pred(prefix@)),
{
    let stream = m.search(fst::automaton::Str::new(prefix).starts_with()).into_stream();
    stream.into_str_vec().ok()
}

/// Relies on `fst::Map::as_fst` and `fst::raw::Fst::as_bytes`: the
/// serialized bytes of the map.
#[verifier::external_body]
pub(crate) fn map_to_bytes(m: &fst::Map<Vec<u8>>) -> (b: Vec<u8>)
    ensures
        b@ == map_bytes(m),
{
    m.as_fst().as_bytes().to_vec()
}

/// Relies on `fst::Map::new` and `fst::raw::Fst::verify`: on the
/// serialized bytes of a map, construction succeeds, the stored checksum
/// matches, and the result has the same contents (the contents are a
/// function of the bytes); bytes whose structure or checksum do not hold
/// up are rejected.
#[verifier::external_body]
pub(crate) fn map_from_bytes(bytes: Vec<u8>) -> (r: Option<fst::Map<Vec<u8>>>)
    ensures
        r is None ==> forall|m0: fst::Map<Vec<u8>>| bytes@ != #[trigger] map_bytes(&m0),
        r matches Some(m) ==> forall|m0: fst::Map<Vec<u8>>|
            bytes@ == #[trigger] map_bytes(&m0) ==> (map_pairs(&m) == map_pairs(&m0) && map_utf8(
                &m,
            ) == map_utf8(&m0)),
{
    match fst::Map::new(bytes) {
        Ok(m) => match m.as_fst().verify() {
            Ok(()) => Some(m),
            Err(_) => None,
        },
        Err(_) => None,
    }
}

} // verus!
