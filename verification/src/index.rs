//! The two prefix-search indexes: an immutable sorted dictionary of words,
//! and an immutable sorted map from shortcode to symbol text.
use vstd::prelude::*;

use crate::automaton::{
    map_builder_finish, map_builder_insert, map_builder_new, map_builder_pairs, map_bytes,
    map_from_bytes, map_pairs, map_prefix_search, map_to_bytes, map_utf8, set_builder_finish,
    set_builder_insert, set_builder_keys, set_builder_new, set_bytes, set_from_bytes, set_keys,
    set_prefix_search, set_to_bytes, set_utf8,
};
use crate::text::{
    entry_prefix_pred, is_prefix_of, lemma_lex_asym, lemma_lex_connected, lemma_sorted_pairwise,
    lex_lt, pair_prefix_pred, prefix_pred, str_lt, strictly_sorted,
};

verus! {

/// Upper bound on the number of candidates a lookup returns.
pub const MAX_CANDIDATES: usize = 32;

/// Why index construction was aborted.
#[derive(Debug, Clone, Copy, PartialEq, Eq, Structural)]
pub enum BuildError {
    /// A key was below the key before it.
    OutOfOrderKey,
    /// A key was repeated.
    DuplicateKey,
    /// The payload table could not be serialized.
    Serialization,
}

/// Why a serialized index could not be loaded.
#[derive(Debug, Clone, Copy, PartialEq, Eq, Structural)]
pub enum LoadError {
    /// The bytes are not a serialized index.
    BadArtifact,
    /// The payload bytes are not a serialized payload table.
    BadPayloads,
}

/// Why a single query was rejected.
#[derive(Debug, Clone, Copy, PartialEq, Eq, Structural)]
pub enum QueryError {
    /// A stored key was not valid UTF-8.
    InvalidKeyText,
}

/// The leading slice of `s`, at most `MAX_CANDIDATES` long.
pub open spec fn capped<A>(s: Seq<A>) -> Seq<A> {
    if s.len() <= MAX_CANDIDATES {
        s
    } else {
        s.take(MAX_CANDIDATES as int)
    }
}

/// The dictionary keys that have `p` as a prefix, in dictionary order.
pub open spec fn word_matches(keys: Seq<Seq<char>>, p: Seq<char>) -> Seq<Seq<char>> {
    keys.filter(prefix_pred(p))
}

/// The (shortcode, symbol-text) entries whose shortcode has `p` as a
/// prefix, in shortcode order.
pub open spec fn symbol_matches(entries: Seq<(Seq<char>, Seq<char>)>, p: Seq<char>) -> Seq<
    (Seq<char>, Seq<char>),
> {
    entries.filter(entry_prefix_pred(p))
}

/// A filter keeps a sequence whose every element satisfies the predicate.
proof fn lemma_filter_all<A>(s: Seq<A>, p: spec_fn(A) -> bool)
    requires
        forall|i: int| 0 <= i < s.len() ==> p(#[trigger] s[i]),
    ensures
        s.filter(p) == s,
    decreases s.len(),
{
    reveal(Seq::filter);
    if s.len() == 0 {
        assert(s.filter(p) =~= s);
    } else {
        assert(forall|i: int|
            0 <= i < s.drop_last().len() ==> #[trigger] s.drop_last()[i] == s[i]);
        lemma_filter_all(s.drop_last(), p);
        assert(p(s.last()));
        assert(s.filter(p) =~= s);
    }
}

/// Every element of a filtered sequence occurs in the original.
proof fn lemma_filter_subset<A>(s: Seq<A>, p: spec_fn(A) -> bool, i: int)
    requires
        0 <= i < s.filter(p).len(),
    ensures
        exists|j: int| 0 <= j < s.len() && s[j] == s.filter(p)[i],
    decreases s.len(),
{
    reveal(Seq::filter);
    if s.len() == 0 {
    } else {
        let sub = s.drop_last().filter(p);
        if p(s.last()) && i == sub.len() {
            assert(s[s.len() - 1] == s.filter(p)[i]);
        } else {
            lemma_filter_subset(s.drop_last(), p, i);
            let j = choose|j: int|
                0 <= j < s.drop_last().len() && s.drop_last()[j] == s.drop_last().filter(p)[i];
            assert(s[j] == s.filter(p)[i]);
        }
    }
}

/// Mapping commutes with filtering when the predicates correspond.
proof fn lemma_filter_map<A, B>(
    s: Seq<A>,
    g: spec_fn(A) -> B,
    pa: spec_fn(A) -> bool,
    pb: spec_fn(B) -> bool,
)
    requires
        forall|a: A| #[trigger] pa(a) == pb(g(a)),
    ensures
        s.map_values(g).filter(pb) == s.filter(pa).map_values(g),
    decreases s.len(),
{
    reveal(Seq::filter);
    if s.len() == 0 {
        assert(s.map_values(g).filter(pb) =~= s.filter(pa).map_values(g));
    } else {
        lemma_filter_map(s.drop_last(), g, pa, pb);
        let m = s.map_values(g);
        assert(m.drop_last() =~= s.drop_last().map_values(g));
        assert(m.last() == g(s.last()));
        assert(pa(s.last()) == pb(m.last()));
        if pa(s.last()) {
            assert(s.filter(pa) == s.drop_last().filter(pa).push(s.last()));
            assert(m.filter(pb) == m.drop_last().filter(pb).push(m.last()));
            assert(s.filter(pa).map_values(g) =~= s.drop_last().filter(pa).map_values(g).push(
                g(s.last()),
            ));
            assert(m.filter(pb) =~= s.filter(pa).map_values(g));
        } else {
            assert(m.filter(pb) =~= s.filter(pa).map_values(g));
        }
    }
}

/// The immutable dictionary-word index: a sorted set of words, queryable by
/// prefix.
pub struct DictionaryIndex {
    set: fst::Set<Vec<u8>>,
}

impl View for DictionaryIndex {
    type V = Seq<Seq<char>>;

    /// The dictionary's words, in ascending order.
    closed spec fn view(&self) -> Seq<Seq<char>> {
        set_keys(&self.set)
    }
}

impl DictionaryIndex {
    /// The index holds its keys in strictly ascending order, stored as
    /// valid text.
    pub closed spec fn wf(&self) -> bool {
        set_utf8(&self.set) && strictly_sorted(self@)
    }

    /// The serialized form of the index.
    pub closed spec fn artifact(&self) -> Seq<u8> {
        set_bytes(&self.set)
    }

    /// Builds the dictionary from a word list that the caller has sorted:
    /// construction succeeds exactly on strictly sorted, duplicate-free
    /// input, and the built index holds exactly the given words.
    pub fn build(words: &Vec<String>) -> (r: Result<DictionaryIndex, BuildError>)
        ensures
            r matches Ok(d) ==> d.wf() && d@ == words.deep_view() && strictly_sorted(
                words.deep_view(),
            ),
            r is Err ==> !strictly_sorted(words.deep_view()),
            r matches Err(e) ==> (e == BuildError::OutOfOrderKey || e == BuildError::DuplicateKey),
    {
        let ghost all = words.deep_view();
        let mut b = set_builder_new();
        let n = words.len();
        let mut i: usize = 0;
        while i < n
            invariant
                n == words.len(),
                i <= n,
                all == words.deep_view(),
                set_builder_keys(&b) == all.take(i as int),
                strictly_sorted(all.take(i as int)),
            decreases n - i,
        {
            let w = &words[i];
            assert(w@ == all[i as int]);
            if i > 0 {
                let prev = &words[i - 1];
                assert(prev@ == all[i as int - 1]);
                if !str_lt(prev.as_str(), w.as_str()) {
                    if str_lt(w.as_str(), prev.as_str()) {
                        proof {
                            assert(!lex_lt(all[i - 1], all[i - 1 + 1])) by {
                                lemma_lex_asym(w@, prev@);
                            }
                        }
                        return Err(BuildError::OutOfOrderKey);
                    } else {
                        proof {
                            lemma_lex_connected(prev@, w@);
                            assert(!lex_lt(all[i - 1], all[i - 1 + 1]));
                        }
                        return Err(BuildError::DuplicateKey);
                    }
                }
            }
            proof {
                if i > 0 {
                    assert(set_builder_keys(&b).last() == all.take(i as int)[i - 1]);
                    assert(all.take(i as int)[i - 1] == all[i as int - 1]);
                    lemma_lex_asym(all[i as int - 1], w@);
                }
            }
            let ok = set_builder_insert(&mut b, w.as_str());
            assert(ok);
            proof {
                if i > 0 && set_builder_keys(&b) == all.take(i as int) {
                    // the key was not absorbed as a duplicate: it is above
                    // the last key, so it differs from it
                    assert(false);
                }
                assert(set_builder_keys(&b) =~= all.take(i as int + 1));
                assert(strictly_sorted(all.take(i as int + 1))) by {
                    assert(forall|j: int|
                        0 <= j < i ==> all.take(i as int + 1)[j] == #[trigger] all.take(
                            i as int,
                        )[j]);
                    assert(forall|j: int| 0 <= j <= i ==> all.take(i as int + 1)[j] == all[j]);
                }
            }
            i = i + 1;
        }
        proof {
            assert(all.take(n as int) =~= all);
        }
        Ok(DictionaryIndex { set: set_builder_finish(b) })
    }

    /// All dictionary words with the given prefix, in ascending order,
    /// capped at `MAX_CANDIDATES`. On a well-formed index the query cannot
    /// fail; a stored key that is not valid text rejects the call.
    pub fn lookup_words(&self, prefix: &str) -> (r: Result<Vec<String>, QueryError>)
        ensures
            self.wf() ==> r is Ok,
            r matches Ok(v) ==> v.deep_view() == capped(word_matches(self@, prefix@)),
    {
        match set_prefix_search(&self.set, prefix) {
            None => Err(QueryError::InvalidKeyText),
            Some(mut v) => {
                let ghost m = word_matches(self@, prefix@);
                if v.len() > MAX_CANDIDATES {
                    v.truncate(MAX_CANDIDATES);
                    assert(v.deep_view() =~= capped(m));
                } else {
                    assert(v.deep_view() =~= capped(m));
                }
                Ok(v)
            },
        }
    }

    /// The on-disk artifact of the dictionary: the serialized automaton.
    pub fn to_bytes(&self) -> (r: Vec<u8>)
        ensures
            r@ == self.artifact(),
    {
        set_to_bytes(&self.set)
    }

    /// Loads a dictionary artifact. The serialized form of a well-formed
    /// index loads to an index with the same contents; bytes that are not
    /// an artifact are rejected.
    pub fn from_bytes(bytes: Vec<u8>) -> (r: Result<DictionaryIndex, LoadError>)
        ensures
            r matches Ok(d) ==> forall|d0: DictionaryIndex|
                bytes@ == #[trigger] d0.artifact() && d0.wf() ==> d@ == d0@ && d.wf(),
            r is Err ==> forall|d0: DictionaryIndex| bytes@ != #[trigger] d0.artifact(),
    {
        let ghost bs = bytes@;
        match set_from_bytes(bytes) {
            None => {
                proof {
                    assert forall|d0: DictionaryIndex| bs != #[trigger] d0.artifact() by {
                        assert(d0.artifact() == set_bytes(&d0.set));
                    }
                }
                Err(LoadError::BadArtifact)
            },
            Some(s) => {
                let d = DictionaryIndex { set: s };
                proof {
                    assert forall|d0: DictionaryIndex|
                        bs == #[trigger] d0.artifact() && d0.wf() implies d@ == d0@ && d.wf() by {
                        assert(bs == set_bytes(&d0.set));
                    }
                }
                Ok(d)
            },
        }
    }
}

/// The shortcodes of a sequence of (shortcode, symbol-text) entries.
pub open spec fn entry_keys(entries: Seq<(Seq<char>, Seq<char>)>) -> Seq<Seq<char>> {
    entries.map_values(|e: (Seq<char>, Seq<char>)| e.0)
}

/// The symbol texts of a sequence of (shortcode, symbol-text) entries.
pub open spec fn entry_texts(entries: Seq<(Seq<char>, Seq<char>)>) -> Seq<Seq<char>> {
    entries.map_values(|e: (Seq<char>, Seq<char>)| e.1)
}

/// The serialized form of a payload table. bincode's encoding of a
/// `Vec<String>` is a function of the contents alone.
pub uninterp spec fn payload_encoding(texts: Seq<Seq<char>>) -> Seq<u8>;

/// Relies on `bincode::serialize`: the encoding of a `Vec<String>` is
/// determined by its contents (a fixed-width, little-endian layout), and
/// with no size limit and an in-memory buffer the serialization of a
/// `Vec<String>` cannot fail.
#[verifier::external_body]
fn encode_payloads(texts: &Vec<String>) -> (r: Option<Vec<u8>>)
    ensures
        r is Some,
        r matches Some(b) ==> b@ == payload_encoding(texts.deep_view()),
{
    bincode::serialize(texts).ok()
}

/// Relies on `bincode::deserialize`: it inverts `bincode::serialize` on
/// every byte string serialize produced.
#[verifier::external_body]
fn decode_payloads(bytes: &Vec<u8>) -> (r: Option<Vec<String>>)
    ensures
        r is None ==> forall|ts: Seq<Seq<char>>| bytes@ != #[trigger] payload_encoding(ts),
        r matches Some(v) ==> forall|ts: Seq<Seq<char>>|
            bytes@ == #[trigger] payload_encoding(ts) ==> v.deep_view() == ts,
{
    bincode::deserialize(bytes.as_slice()).ok()
}

/// The immutable symbol index: a sorted map from shortcode to a dense id,
/// and the parallel table of symbol texts those ids address.
pub struct SymbolIndex {
    map: fst::Map<Vec<u8>>,
    payloads: Vec<String>,
}

impl View for SymbolIndex {
    type V = Seq<(Seq<char>, Seq<char>)>;

    /// The index's (shortcode, symbol-text) entries, in ascending
    /// shortcode order.
    closed spec fn view(&self) -> Seq<(Seq<char>, Seq<char>)> {
        Seq::new(
            map_pairs(&self.map).len(),
            |i: int| (map_pairs(&self.map)[i].0, self.payloads.deep_view()[i]),
        )
    }
}

impl SymbolIndex {
    /// Ids are assigned densely in sorted-key order, so every id addresses
    /// a payload entry; keys are stored as valid text.
    pub closed spec fn wf(&self) -> bool {
        &&& map_utf8(&self.map)
        &&& self.payloads.len() == map_pairs(&self.map).len()
        &&& forall|i: int|
            0 <= i < map_pairs(&self.map).len() ==> (#[trigger] map_pairs(&self.map)[i]).1
                == i as u64
        &&& strictly_sorted(entry_keys(self@))
    }

    /// The serialized form of the shortcode-to-id automaton.
    pub closed spec fn map_artifact(&self) -> Seq<u8> {
        map_bytes(&self.map)
    }

    /// The serialized form of the payload table.
    pub closed spec fn payload_artifact(&self) -> Seq<u8> {
        payload_encoding(self.payloads.deep_view())
    }

    /// Builds the symbol index from (shortcode, symbol-text) records that
    /// the caller has sorted by shortcode: construction succeeds exactly on
    /// strictly sorted, duplicate-free shortcodes, and the built index
    /// holds exactly the given records.
    pub fn build(records: &Vec<(String, String)>) -> (r: Result<SymbolIndex, BuildError>)
        ensures
            r matches Ok(ix) ==> ix.wf() && ix@ == records.deep_view() && strictly_sorted(
                entry_keys(records.deep_view()),
            ),
            r is Err ==> !strictly_sorted(entry_keys(records.deep_view())),
            r matches Err(e) ==> (e == BuildError::OutOfOrderKey || e == BuildError::DuplicateKey),
    {
        let ghost all = records.deep_view();
        let ghost keys = entry_keys(all);
        let mut b = map_builder_new();
        let mut payloads: Vec<String> = Vec::new();
        let n = records.len();
        let mut i: usize = 0;
        while i < n
            invariant
                n == records.len(),
                i <= n,
                all == records.deep_view(),
                keys == entry_keys(all),
                map_builder_pairs(&b).len() == i,
                forall|j: int|
                    0 <= j < i ==> #[trigger] map_builder_pairs(&b)[j] == (all[j].0, j as u64),
                payloads.len() == i,
                forall|j: int| 0 <= j < i ==> #[trigger] payloads.deep_view()[j] == all[j].1,
                strictly_sorted(keys.take(i as int)),
            decreases n - i,
        {
            let key = &records[i].0;
            assert(key@ == keys[i as int]);
            if i > 0 {
                let prev = &records[i - 1].0;
                assert(prev@ == keys[i as int - 1]);
                if !str_lt(prev.as_str(), key.as_str()) {
                    if str_lt(key.as_str(), prev.as_str()) {
                        proof {
                            assert(!lex_lt(keys[i - 1], keys[i - 1 + 1])) by {
                                lemma_lex_asym(key@, prev@);
                            }
                        }
                        return Err(BuildError::OutOfOrderKey);
                    } else {
                        proof {
                            lemma_lex_connected(prev@, key@);
                            assert(!lex_lt(keys[i - 1], keys[i - 1 + 1]));
                        }
                        return Err(BuildError::DuplicateKey);
                    }
                }
            }
            let ok = map_builder_insert(&mut b, key.as_str(), i as u64);
            assert(ok);
            let ghost dv0 = payloads.deep_view();
            payloads.push(records[i].1.clone());
            proof {
                assert forall|j: int| 0 <= j <= i implies #[trigger] payloads.deep_view()[j]
                    == all[j].1 by {
                    if j < i {
                        assert(payloads.deep_view()[j] == dv0[j]);
                    } else {
                        assert(payloads.deep_view()[j] == payloads@[j]@);
                    }
                }
                assert(strictly_sorted(keys.take(i as int + 1))) by {
                    assert(forall|j: int| 0 <= j <= i ==> keys.take(i as int + 1)[j] == keys[j]);
                }
            }
            i = i + 1;
        }
        let ix = SymbolIndex { map: map_builder_finish(b), payloads };
        proof {
            assert(ix@ =~= all);
            assert(keys.take(n as int) =~= keys);
            assert(entry_keys(ix@) =~= keys);
            assert(ix.wf());
        }
        Ok(ix)
    }

    /// All (shortcode, symbol-text) pairs whose shortcode has the given
    /// prefix, in ascending shortcode order, capped at `MAX_CANDIDATES`;
    /// each returned text is the one supplied for that shortcode when the
    /// index was built. On a well-formed index the query cannot fail.
    pub fn lookup_symbols(&self, prefix: &str) -> (r: Result<Vec<(String, String)>, QueryError>)
        ensures
            self.wf() ==> r is Ok,
            r matches Ok(v) ==> (self.wf() ==> v.deep_view() == capped(
                symbol_matches(self@, prefix@),
            )),
    {
        let ghost g = |kv: (Seq<char>, u64)| (kv.0, self.payloads.deep_view()[kv.1 as int]);
        match map_prefix_search(&self.map, prefix) {
            None => Err(QueryError::InvalidKeyText),
            Some(ps) => {
                let ghost fp = map_pairs(&self.map).filter(pair_prefix_pred(prefix@));
                let n = ps.len();
                let m = if n > MAX_CANDIDATES {
                    MAX_CANDIDATES
                } else {
                    n
                };
                let mut out: Vec<(String, String)> = Vec::new();
                let mut i: usize = 0;
                while i < m
                    invariant
                        m <= n,
                        n == ps.len(),
                        i <= m,
                        ps.deep_view() == fp,
                        fp == map_pairs(&self.map).filter(pair_prefix_pred(prefix@)),
                        g == (|kv: (Seq<char>, u64)|
                            (kv.0, self.payloads.deep_view()[kv.1 as int])),
                        out.len() == i,
                        forall|j: int| 0 <= j < i ==> #[trigger] out.deep_view()[j] == g(fp[j]),
                    decreases m - i,
                {
                    let id = ps[i].1;
                    proof {
                        if self.wf() {
                            lemma_filter_subset(
                                map_pairs(&self.map),
                                pair_prefix_pred(prefix@),
                                i as int,
                            );
                            let j = choose|j: int|
                                0 <= j < map_pairs(&self.map).len() && map_pairs(&self.map)[j]
                                    == fp[i as int];
                            assert(map_pairs(&self.map)[j].1 == j as u64);
                            assert(id < self.payloads.len() as u64);
                        }
                    }
                    if id >= self.payloads.len() as u64 {
                        // only a corrupt artifact reaches this: an id with
                        // no payload entry
                        return Err(QueryError::InvalidKeyText);
                    }
                    let idx = id as usize;
                    let text = self.payloads[idx].clone();
                    let code = ps[i].0.clone();
                    let ghost dv0 = out.deep_view();
                    out.push((code, text));
                    proof {
                        assert forall|j: int| 0 <= j <= i implies #[trigger] out.deep_view()[j]
                            == g(fp[j]) by {
                            if j < i {
                                assert(out.deep_view()[j] == dv0[j]);
                            } else {
                                assert(out.deep_view()[j] == (out@[j].0@, out@[j].1@));
                                assert(fp[j] == ps.deep_view()[j]);
                                assert(fp[j].0 == ps@[j].0@ && fp[j].1 == ps@[j].1);
                            }
                        }
                    }
                    i = i + 1;
                }
                proof {
                    if self.wf() {
                        assert(self@ =~= map_pairs(&self.map).map_values(g));
                        lemma_filter_map(
                            map_pairs(&self.map),
                            g,
                            pair_prefix_pred(prefix@),
                            entry_prefix_pred(prefix@),
                        );
                        assert(symbol_matches(self@, prefix@) == fp.map_values(g));
                        assert(out.deep_view() =~= capped(symbol_matches(self@, prefix@)));
                    }
                }
                Ok(out)
            },
        }
    }

    /// The on-disk artifact pair of the symbol index: the serialized
    /// automaton and the serialized payload table. Serializing into memory
    /// cannot fail.
    pub fn to_bytes(&self) -> (r: Result<(Vec<u8>, Vec<u8>), BuildError>)
        ensures
            r is Ok,
            r matches Ok(p) ==> p.0@ == self.map_artifact() && p.1@ == self.payload_artifact(),
    {
        let mb = map_to_bytes(&self.map);
        match encode_payloads(&self.payloads) {
            None => {
                proof {
                    assert(false);
                }
                Err(BuildError::Serialization)
            },
            Some(pb) => Ok((mb, pb)),
        }
    }

    /// Loads a symbol-index artifact pair. The artifacts of a well-formed
    /// index load to an index with the same contents; bytes that are not
    /// artifacts are rejected.
    pub fn from_bytes(map_data: Vec<u8>, payload_data: Vec<u8>) -> (r: Result<
        SymbolIndex,
        LoadError,
    >)
        ensures
            r matches Ok(ix) ==> forall|ix0: SymbolIndex|
                map_data@ == #[trigger] ix0.map_artifact() && payload_data@
                    == ix0.payload_artifact() && ix0.wf() ==> ix@ == ix0@ && ix.wf(),
            r is Err ==> forall|ix0: SymbolIndex|
                !(map_data@ == #[trigger] ix0.map_artifact() && payload_data@
                    == ix0.payload_artifact()),
    {
        let ghost mbs = map_data@;
        let ghost pbs = payload_data@;
        let map = match map_from_bytes(map_data) {
            None => {
                proof {
                    assert forall|ix0: SymbolIndex| mbs != #[trigger] ix0.map_artifact() by {
                        assert(ix0.map_artifact() == map_bytes(&ix0.map));
                    }
                }
                return Err(LoadError::BadArtifact);
            },
            Some(map) => map,
        };
        let payloads = match decode_payloads(&payload_data) {
            None => {
                proof {
                    assert forall|ix0: SymbolIndex| pbs != #[trigger] ix0.payload_artifact() by {
                        assert(ix0.payload_artifact() == payload_encoding(
                            ix0.payloads.deep_view(),
                        ));
                    }
                }
                return Err(LoadError::BadPayloads);
            },
            Some(payloads) => payloads,
        };
        let ix = SymbolIndex { map, payloads };
        proof {
            assert forall|ix0: SymbolIndex|
                mbs == #[trigger] ix0.map_artifact() && pbs == ix0.payload_artifact()
                    && ix0.wf() implies ix@ == ix0@ && ix.wf() by {
                assert(mbs == map_bytes(&ix0.map));
                assert(pbs == payload_encoding(ix0.payloads.deep_view()));
                assert(ix.payloads.deep_view() == ix0.payloads.deep_view());
                assert(ix.payloads.len() == ix0.payloads.len());
                assert(ix@ =~= ix0@);
            }
        }
        Ok(ix)
    }
}

/// An empty prefix matches every key: querying with it returns the leading
/// keys of the whole dictionary, still in ascending order.
pub proof fn lemma_empty_prefix_returns_all(keys: Seq<Seq<char>>)
    requires
        strictly_sorted(keys),
    ensures
        word_matches(keys, Seq::<char>::empty()) == keys,
        strictly_sorted(capped(word_matches(keys, Seq::<char>::empty()))),
{
    let p = prefix_pred(Seq::<char>::empty());
    assert forall|i: int| 0 <= i < keys.len() implies p(#[trigger] keys[i]) by {
        assert(keys[i].take(0) =~= Seq::<char>::empty());
    }
    lemma_filter_all(keys, p);
    let c = capped(word_matches(keys, Seq::<char>::empty()));
    assert forall|i: int| 0 <= i < c.len() - 1 implies lex_lt(c[i], #[trigger] c[i + 1]) by {
        assert(c[i] == keys[i]);
        assert(c[i + 1] == keys[i + 1]);
    }
}

/// Soundness of word lookup: every returned word carries the queried
/// prefix.
pub proof fn lemma_lookup_words_sound(keys: Seq<Seq<char>>, p: Seq<char>, i: int)
    requires
        0 <= i < capped(word_matches(keys, p)).len(),
    ensures
        is_prefix_of(p, capped(word_matches(keys, p))[i]),
{
    keys.lemma_filter_pred(prefix_pred(p), i);
    assert(capped(word_matches(keys, p))[i] == word_matches(keys, p)[i]);
}

/// Completeness of word lookup: while the cap is not reached, no key with
/// the prefix is omitted.
pub proof fn lemma_lookup_words_complete(keys: Seq<Seq<char>>, p: Seq<char>, i: int)
    requires
        0 <= i < keys.len(),
        is_prefix_of(p, keys[i]),
        capped(word_matches(keys, p)).len() < MAX_CANDIDATES,
    ensures
        capped(word_matches(keys, p)).contains(keys[i]),
{
    keys.lemma_filter_contains(prefix_pred(p), i);
    assert(capped(word_matches(keys, p)) == word_matches(keys, p));
}

/// Round-trip fidelity of symbol lookup: every returned pair carries the
/// queried prefix on its shortcode and is, shortcode and text both, one of
/// the entries the index holds.
pub proof fn lemma_lookup_symbols_round_trip(
    entries: Seq<(Seq<char>, Seq<char>)>,
    p: Seq<char>,
    i: int,
)
    requires
        0 <= i < capped(symbol_matches(entries, p)).len(),
    ensures
        is_prefix_of(p, capped(symbol_matches(entries, p))[i].0),
        entries.contains(capped(symbol_matches(entries, p))[i]),
{
    entries.lemma_filter_pred(entry_prefix_pred(p), i);
    lemma_filter_subset(entries, entry_prefix_pred(p), i);
    assert(capped(symbol_matches(entries, p))[i] == symbol_matches(entries, p)[i]);
    let j = choose|j: int|
        0 <= j < entries.len() && entries[j] == symbol_matches(entries, p)[i];
    assert(entries[j] == capped(symbol_matches(entries, p))[i]);
}

/// Round-trip fidelity through the session's label cache: after a symbol
/// re-query, the shortcode shown as row `i` and the symbol text cached as
/// its label are, together, one of the entries the index holds — the label
/// is exactly the text supplied for that shortcode at build time.
pub proof fn lemma_row_label_round_trip(
    entries: Seq<(Seq<char>, Seq<char>)>,
    p: Seq<char>,
    i: int,
)
    requires
        0 <= i < capped(symbol_matches(entries, p)).len(),
    ensures
        is_prefix_of(p, entry_keys(capped(symbol_matches(entries, p)))[i]),
        entries.contains(
            (
                entry_keys(capped(symbol_matches(entries, p)))[i],
                entry_texts(capped(symbol_matches(entries, p)))[i],
            ),
        ),
{
    lemma_lookup_symbols_round_trip(entries, p, i);
    let ms = capped(symbol_matches(entries, p));
    assert(entry_keys(ms)[i] == ms[i].0);
    assert(entry_texts(ms)[i] == ms[i].1);
    assert((entry_keys(ms)[i], entry_texts(ms)[i]) == ms[i]);
}

/// In a well-formed symbol index the shortcodes are distinct, so a matched
/// entry is the single entry supplied for that shortcode at build time.
pub proof fn lemma_symbol_keys_unique(entries: Seq<(Seq<char>, Seq<char>)>, i: int, j: int)
    requires
        strictly_sorted(entry_keys(entries)),
        0 <= i < j < entries.len(),
    ensures
        entries[i].0 != entries[j].0,
{
    lemma_sorted_pairwise(entry_keys(entries), i, j);
    lemma_lex_asym(entry_keys(entries)[i], entry_keys(entries)[j]);
}

} // verus!
