//! The interactive session state machine: it turns key events into queries,
//! candidate-list updates, commits and mode changes, and hands the host a
//! list of effects to perform.
use vstd::prelude::*;

use crate::index::{capped, entry_keys, entry_texts, symbol_matches, word_matches, DictionaryIndex, SymbolIndex};
use crate::text::{lemma_char_cast_injective, string_of};

verus! {

/// The keyvals the host delivers, as the X keysym values the input bus uses.
pub const KEYVAL_SPACE: u32 = 0x20;

pub const KEYVAL_TILDE: u32 = 0x7e;

pub const KEYVAL_E: u32 = 0x65;

pub const KEYVAL_W: u32 = 0x77;

pub const KEYVAL_RETURN: u32 = 0xff0d;

pub const KEYVAL_BACKSPACE: u32 = 0xff08;

pub const KEYVAL_ESCAPE: u32 = 0xff1b;

pub const KEYVAL_UP: u32 = 0xff52;

pub const KEYVAL_DOWN: u32 = 0xff54;

pub const KEYVAL_PAGE_UP: u32 = 0xff55;

pub const KEYVAL_PAGE_DOWN: u32 = 0xff56;

/// Modifier bits of the key event's modifier mask.
pub const MOD_SHIFT: u32 = 0x1;

pub const MOD_CONTROL: u32 = 0x4;

/// The session's mode.
#[derive(Debug, Clone, Copy, PartialEq, Eq, Structural)]
pub enum Mode {
    Normal,
    WordLookup,
    SymbolInput,
}

/// A key event after modifier gating and keyval decoding.
#[derive(Debug, Clone, Copy, PartialEq, Eq, Structural)]
pub enum KeyEvent {
    /// The designated combination that enables symbol input.
    EnableSymbolMode,
    /// The designated combination that enables word lookup.
    EnableWordMode,
    Space,
    Return,
    Backspace,
    Escape,
    Up,
    Down,
    PageUp,
    PageDown,
    /// A literal printable character.
    Char(char),
    /// Anything else, including unrecognized modifier combinations.
    Unrecognized,
}

/// How a key event decodes: a held control key gates the two mode-enabling
/// combinations; any other modifier besides shift leaves the event
/// unprocessed; printable characters pass through literally.
pub open spec fn spec_decode(keyval: u32, modifiers: u32) -> KeyEvent {
    if modifiers & MOD_CONTROL == MOD_CONTROL {
        if keyval == KEYVAL_E {
            KeyEvent::EnableSymbolMode
        } else if keyval == KEYVAL_W {
            KeyEvent::EnableWordMode
        } else {
            KeyEvent::Unrecognized
        }
    } else if modifiers & !MOD_SHIFT != 0 {
        KeyEvent::Unrecognized
    } else if keyval == KEYVAL_SPACE {
        KeyEvent::Space
    } else if keyval == KEYVAL_RETURN {
        KeyEvent::Return
    } else if keyval == KEYVAL_BACKSPACE {
        KeyEvent::Backspace
    } else if keyval == KEYVAL_ESCAPE {
        KeyEvent::Escape
    } else if keyval == KEYVAL_UP {
        KeyEvent::Up
    } else if keyval == KEYVAL_DOWN {
        KeyEvent::Down
    } else if keyval == KEYVAL_PAGE_UP {
        KeyEvent::PageUp
    } else if keyval == KEYVAL_PAGE_DOWN {
        KeyEvent::PageDown
    } else if KEYVAL_SPACE < keyval && keyval <= KEYVAL_TILDE {
        KeyEvent::Char(keyval as char)
    } else {
        KeyEvent::Unrecognized
    }
}

/// Decodes a raw key event.
pub fn decode_key(keyval: u32, modifiers: u32) -> (r: KeyEvent)
    ensures
        r == spec_decode(keyval, modifiers),
{
    if modifiers & MOD_CONTROL == MOD_CONTROL {
        if keyval == KEYVAL_E {
            KeyEvent::EnableSymbolMode
        } else if keyval == KEYVAL_W {
            KeyEvent::EnableWordMode
        } else {
            KeyEvent::Unrecognized
        }
    } else if modifiers & !MOD_SHIFT != 0 {
        KeyEvent::Unrecognized
    } else if keyval == KEYVAL_SPACE {
        KeyEvent::Space
    } else if keyval == KEYVAL_RETURN {
        KeyEvent::Return
    } else if keyval == KEYVAL_BACKSPACE {
        KeyEvent::Backspace
    } else if keyval == KEYVAL_ESCAPE {
        KeyEvent::Escape
    } else if keyval == KEYVAL_UP {
        KeyEvent::Up
    } else if keyval == KEYVAL_DOWN {
        KeyEvent::Down
    } else if keyval == KEYVAL_PAGE_UP {
        KeyEvent::PageUp
    } else if keyval == KEYVAL_PAGE_DOWN {
        KeyEvent::PageDown
    } else if KEYVAL_SPACE < keyval && keyval <= KEYVAL_TILDE {
        match char::from_u32(keyval) {
            Some(c) => {
                proof {
                    assert((keyval as char) as u32 == keyval);
                    lemma_char_cast_injective(c, keyval as char);
                }
                KeyEvent::Char(c)
            },
            None => KeyEvent::Unrecognized,  // unreachable: the range holds scalar values only
        }
    } else {
        KeyEvent::Unrecognized
    }
}

/// A call the session asks the host surface to perform.
#[derive(Debug, Clone, PartialEq, Eq)]
pub enum HostEffect {
    /// Insert this text at the host's cursor.
    CommitText(String),
    ShowCandidateList,
    HideCandidateList,
    /// Replace the candidate list with these rows.
    ReplaceCandidateList(Vec<String>),
    /// Put this label on the row at this index of the visible page.
    SetRowLabel(usize, String),
    ShowComposingText(String),
    HideComposingText,
    CursorUp,
    CursorDown,
    PageUp,
    PageDown,
}

/// The mathematical form of a host effect.
pub enum Eff {
    CommitText(Seq<char>),
    ShowCandidateList,
    HideCandidateList,
    ReplaceCandidateList(Seq<Seq<char>>),
    SetRowLabel(int, Seq<char>),
    ShowComposingText(Seq<char>),
    HideComposingText,
    CursorUp,
    CursorDown,
    PageUp,
    PageDown,
}

impl DeepView for HostEffect {
    type V = Eff;

    open spec fn deep_view(&self) -> Eff {
        match self {
            HostEffect::CommitText(t) => Eff::CommitText(t@),
            HostEffect::ShowCandidateList => Eff::ShowCandidateList,
            HostEffect::HideCandidateList => Eff::HideCandidateList,
            HostEffect::ReplaceCandidateList(rows) => Eff::ReplaceCandidateList(rows.deep_view()),
            HostEffect::SetRowLabel(i, l) => Eff::SetRowLabel(*i as int, l@),
            HostEffect::ShowComposingText(t) => Eff::ShowComposingText(t@),
            HostEffect::HideComposingText => Eff::HideComposingText,
            HostEffect::CursorUp => Eff::CursorUp,
            HostEffect::CursorDown => Eff::CursorDown,
            HostEffect::PageUp => Eff::PageUp,
            HostEffect::PageDown => Eff::PageDown,
        }
    }
}

/// What the session reads from the host about the candidate list: the
/// absolute cursor position and the page size.
#[derive(Debug, Clone, Copy)]
pub struct HostView {
    pub cursor_pos: usize,
    pub page_size: usize,
}

/// The label effects that redraw the page starting at row `start` from the
/// cached label texts.
pub open spec fn label_pass(labels: Seq<Seq<char>>, start: int, page_size: int) -> Seq<Eff> {
    let count = if start < labels.len() {
        if labels.len() - start < page_size {
            labels.len() - start
        } else {
            page_size
        }
    } else {
        0
    };
    Seq::new(count as nat, |i: int| Eff::SetRowLabel(i, labels[start + i]))
}

/// A session equal to `s` except for its mode.
pub open spec fn with_mode(s: Session, m: Mode) -> Session {
    Session { mode: m, ..s }
}

/// The per-context session state.
pub struct Session {
    pub mode: Mode,
    /// The literal characters echoed to the host since the last commit.
    pub word_buffer: Vec<char>,
    /// The shortcode query accumulated while in symbol input.
    pub symbol_buffer: Vec<char>,
    /// The rows of the current candidate list.
    pub candidates: Vec<String>,
    /// The symbol text for each candidate row of the last symbol query.
    pub labels: Vec<String>,
    /// The page index the visible labels were computed for.
    pub last_labeled_page: usize,
}

/// A single character as host text.
fn char_string(c: char) -> (r: String)
    ensures
        r@ == seq![c],
{
    let mut v: Vec<char> = Vec::new();
    v.push(c);
    proof {
        assert(v@ =~= seq![c]);
    }
    string_of(&v)
}

impl Session {
    /// A fresh session: normal mode, everything empty.
    pub fn new() -> (r: Session)
        ensures
            r.mode == Mode::Normal,
            r.word_buffer@ == Seq::<char>::empty(),
            r.symbol_buffer@ == Seq::<char>::empty(),
            r.candidates.deep_view() == Seq::<Seq<char>>::empty(),
            r.labels.deep_view() == Seq::<Seq<char>>::empty(),
            r.last_labeled_page == 0,
    {
        let r = Session {
            mode: Mode::Normal,
            word_buffer: Vec::new(),
            symbol_buffer: Vec::new(),
            candidates: Vec::new(),
            labels: Vec::new(),
            last_labeled_page: 0,
        };
        proof {
            assert(r.candidates.deep_view() =~= Seq::<Seq<char>>::empty());
            assert(r.labels.deep_view() =~= Seq::<Seq<char>>::empty());
        }
        r
    }

    /// Echoes a literal character: it joins the word buffer and is
    /// committed to the host as text.
    pub fn commit_char(&mut self, c: char, out: &mut Vec<HostEffect>) -> (r: bool)
        ensures
            r == true,
            final(self).mode == old(self).mode,
            final(self).word_buffer@ == old(self).word_buffer@.push(c),
            final(self).symbol_buffer@ == old(self).symbol_buffer@,
            final(self).candidates.deep_view() == old(self).candidates.deep_view(),
            final(self).labels.deep_view() == old(self).labels.deep_view(),
            final(self).last_labeled_page == old(self).last_labeled_page,
            final(out).deep_view() == old(out).deep_view() + seq![Eff::CommitText(seq![c])],
    {
        self.word_buffer.push(c);
        let ghost d0 = out.deep_view();
        let t = char_string(c);
        out.push(HostEffect::CommitText(t));
        proof {
            assert(out.deep_view() =~= d0 + seq![Eff::CommitText(seq![c])]);
        }
        true
    }

    /// Leaves word lookup: the candidate list is hidden. Reports whether
    /// anything was done.
    pub fn word_table_disable(&mut self, out: &mut Vec<HostEffect>) -> (r: bool)
        ensures
            r == (old(self).mode == Mode::WordLookup),
            old(self).mode != Mode::WordLookup ==> *final(self) == *old(self) && final(out).deep_view() == old(out).deep_view(),
            old(self).mode == Mode::WordLookup ==> *final(self) == with_mode(
                *old(self),
                Mode::Normal,
            ) && final(out).deep_view() == old(out).deep_view() + seq![Eff::HideCandidateList],
    {
        if self.mode == Mode::WordLookup {
            self.mode = Mode::Normal;
            let ghost d0 = out.deep_view();
            out.push(HostEffect::HideCandidateList);
            proof {
                assert(out.deep_view() =~= d0 + seq![Eff::HideCandidateList]);
            }
            true
        } else {
            false
        }
    }

    /// Re-queries the dictionary with the word buffer and replaces the
    /// candidate list; an emptied buffer leaves word lookup instead. A
    /// failed query (possible only on an index whose stored keys are not
    /// valid text) is local to this call: it reports false and changes
    /// nothing.
    pub fn word_table_update(&mut self, dict: &DictionaryIndex, out: &mut Vec<HostEffect>) -> (r:
        bool)
        ensures
            old(self).mode != Mode::WordLookup ==> r == false && *final(self) == *old(self)
                && final(out).deep_view() == old(out).deep_view(),
            old(self).mode == Mode::WordLookup && old(self).word_buffer@.len() == 0 ==> r == true
                && *final(self) == with_mode(*old(self), Mode::Normal) && final(out).deep_view() == old(out).deep_view() + seq![Eff::HideCandidateList],
            old(self).mode == Mode::WordLookup && old(self).word_buffer@.len() > 0 ==> {
                &&& (dict.wf() ==> r == true)
                &&& (r == false ==> *final(self) == *old(self) && final(out).deep_view() == old(
                    out,
                ).deep_view())
                &&& (r == true ==> {
                    &&& final(self).mode == Mode::WordLookup
                    &&& final(self).word_buffer@ == old(self).word_buffer@
                    &&& final(self).symbol_buffer@ == old(self).symbol_buffer@
                    &&& final(self).candidates.deep_view() == capped(
                        word_matches(dict@, old(self).word_buffer@),
                    )
                    &&& final(self).labels.deep_view() == old(self).labels.deep_view()
                    &&& final(self).last_labeled_page == old(self).last_labeled_page
                    &&& final(out).deep_view() == old(out).deep_view() + seq![
                        Eff::ReplaceCandidateList(
                            capped(word_matches(dict@, old(self).word_buffer@)),
                        ),
                    ]
                })
            },
    {
        if self.mode != Mode::WordLookup {
            return false;
        }
        if self.word_buffer.len() == 0 {
            return self.word_table_disable(out);
        }
        let query = string_of(&self.word_buffer);
        match dict.lookup_words(query.as_str()) {
            Err(_) => false,
            Ok(words) => {
                let ghost d0 = out.deep_view();
                let rows = words;
                self.candidates = rows.clone();
                out.push(HostEffect::ReplaceCandidateList(rows));
                proof {
                    assert(self.candidates.deep_view() == capped(
                        word_matches(dict@, old(self).word_buffer@),
                    ));
                    assert(out.deep_view() =~= d0 + seq![
                        Eff::ReplaceCandidateList(
                            capped(word_matches(dict@, old(self).word_buffer@)),
                        ),
                    ]);
                }
                true
            },
        }
    }

    /// Enters word lookup from normal mode, when literal text has been
    /// accumulated to search on: queries the dictionary, populates the
    /// candidate list and shows it. A failed query aborts the transition:
    /// the mode stays normal and the list stays hidden.
    pub fn word_table_enable(&mut self, dict: &DictionaryIndex, out: &mut Vec<HostEffect>) -> (r:
        bool)
        ensures
            r == false ==> *final(self) == *old(self) && final(out).deep_view() == old(
                out,
            ).deep_view(),
            old(self).mode == Mode::Normal && old(self).word_buffer@.len() > 0 && dict.wf() ==> r
                == true,
            r == true ==> {
                &&& old(self).mode == Mode::Normal && old(self).word_buffer@.len() > 0
                &&& final(self).mode == Mode::WordLookup
                &&& final(self).word_buffer@ == old(self).word_buffer@
                &&& final(self).symbol_buffer@ == old(self).symbol_buffer@
                &&& final(self).candidates.deep_view() == capped(
                    word_matches(dict@, old(self).word_buffer@),
                )
                &&& final(self).labels.deep_view() == old(self).labels.deep_view()
                &&& final(self).last_labeled_page == old(self).last_labeled_page
                &&& final(out).deep_view() == old(out).deep_view() + seq![
                    Eff::ReplaceCandidateList(capped(word_matches(dict@, old(self).word_buffer@))),
                    Eff::ShowCandidateList,
                ]
            },
    {
        if self.mode != Mode::Normal || self.word_buffer.len() == 0 {
            return false;
        }
        let ghost d0 = out.deep_view();
        self.mode = Mode::WordLookup;
        let updated = self.word_table_update(dict, out);
        if !updated {
            self.mode = Mode::Normal;
            proof {
                assert(*self == *old(self));
            }
            return false;
        }
        let ghost d1 = out.deep_view();
        out.push(HostEffect::ShowCandidateList);
        proof {
            assert(out.deep_view() =~= d1.push(Eff::ShowCandidateList));
            assert(out.deep_view() =~= d0 + seq![
                Eff::ReplaceCandidateList(capped(word_matches(dict@, old(self).word_buffer@))),
                Eff::ShowCandidateList,
            ]);
        }
        true
    }

    /// Enters symbol input from normal mode: an empty candidate list is
    /// shown and an empty composing-text indicator is surfaced; the word
    /// buffer is unaffected.
    pub fn symbol_input_enable(&mut self, out: &mut Vec<HostEffect>) -> (r: bool)
        ensures
            r == (old(self).mode == Mode::Normal),
            old(self).mode != Mode::Normal ==> *final(self) == *old(self) && final(out).deep_view() == old(out).deep_view(),
            old(self).mode == Mode::Normal ==> {
                &&& final(self).mode == Mode::SymbolInput
                &&& final(self).word_buffer@ == old(self).word_buffer@
                &&& final(self).symbol_buffer@ == old(self).symbol_buffer@
                &&& final(self).candidates.deep_view() == Seq::<Seq<char>>::empty()
                &&& final(self).labels.deep_view() == Seq::<Seq<char>>::empty()
                &&& final(self).last_labeled_page == 0
                &&& final(out).deep_view() == old(out).deep_view() + seq![
                    Eff::ReplaceCandidateList(Seq::<Seq<char>>::empty()),
                    Eff::ShowCandidateList,
                    Eff::ShowComposingText(Seq::<char>::empty()),
                ]
            },
    {
        if self.mode != Mode::Normal {
            return false;
        }
        self.mode = Mode::SymbolInput;
        self.candidates = Vec::new();
        self.labels = Vec::new();
        self.last_labeled_page = 0;
        let ghost d0 = out.deep_view();
        out.push(HostEffect::ReplaceCandidateList(Vec::new()));
        let ghost d1 = out.deep_view();
        out.push(HostEffect::ShowCandidateList);
        let ghost d2 = out.deep_view();
        out.push(HostEffect::ShowComposingText(String::new()));
        proof {
            assert(self.candidates.deep_view() =~= Seq::<Seq<char>>::empty());
            assert(self.labels.deep_view() =~= Seq::<Seq<char>>::empty());
            assert(d1 =~= d0.push(Eff::ReplaceCandidateList(Seq::<Seq<char>>::empty())));
            assert(d2 =~= d1.push(Eff::ShowCandidateList));
            assert(out.deep_view() =~= d2.push(Eff::ShowComposingText(Seq::<char>::empty())));
            assert(out.deep_view() =~= d0 + seq![
                Eff::ReplaceCandidateList(Seq::<Seq<char>>::empty()),
                Eff::ShowCandidateList,
                Eff::ShowComposingText(Seq::<char>::empty()),
            ]);
        }
        true
    }

    /// Leaves symbol input: the shortcode buffer is cleared, the list and
    /// the composing indicator are hidden, and the labels assigned to the
    /// visible page are cleared.
    pub fn symbol_input_disable(&mut self, page_size: usize, out: &mut Vec<HostEffect>) -> (r:
        bool)
        ensures
            r == (old(self).mode == Mode::SymbolInput),
            old(self).mode != Mode::SymbolInput ==> *final(self) == *old(self) && final(out).deep_view() == old(out).deep_view(),
            old(self).mode == Mode::SymbolInput ==> {
                &&& final(self).mode == Mode::Normal
                &&& final(self).word_buffer@ == old(self).word_buffer@
                &&& final(self).symbol_buffer@ == Seq::<char>::empty()
                &&& final(self).candidates.deep_view() == old(self).candidates.deep_view()
                &&& final(self).labels.deep_view() == Seq::<Seq<char>>::empty()
                &&& final(self).last_labeled_page == 0
                &&& final(out).deep_view() == old(out).deep_view() + seq![
                    Eff::HideCandidateList,
                    Eff::HideComposingText,
                ] + Seq::new(page_size as nat, |i: int| Eff::SetRowLabel(i, Seq::<char>::empty()))
            },
    {
        if self.mode != Mode::SymbolInput {
            return false;
        }
        self.mode = Mode::Normal;
        self.symbol_buffer = Vec::new();
        self.labels = Vec::new();
        self.last_labeled_page = 0;
        let ghost d0 = out.deep_view();
        out.push(HostEffect::HideCandidateList);
        let ghost d1 = out.deep_view();
        out.push(HostEffect::HideComposingText);
        proof {
            assert(self.labels.deep_view() =~= Seq::<Seq<char>>::empty());
            assert(d1 =~= d0.push(Eff::HideCandidateList));
            assert(out.deep_view() =~= d1.push(Eff::HideComposingText));
        }
        let ghost base = out.deep_view();
        let mut i: usize = 0;
        while i < page_size
            invariant
                i <= page_size,
                out.deep_view() == base + Seq::new(
                    i as nat,
                    |k: int| Eff::SetRowLabel(k, Seq::<char>::empty()),
                ),
            decreases page_size - i,
        {
            let ghost d = out.deep_view();
            out.push(HostEffect::SetRowLabel(i, String::new()));
            proof {
                assert(out.deep_view() =~= d.push(Eff::SetRowLabel(i as int, Seq::<char>::empty())));
                assert(out.deep_view() =~= base + Seq::new(
                    (i + 1) as nat,
                    |k: int| Eff::SetRowLabel(k, Seq::<char>::empty()),
                ));
            }
            i = i + 1;
        }
        proof {
            assert(out.deep_view() =~= d0 + seq![Eff::HideCandidateList, Eff::HideComposingText]
                + Seq::new(page_size as nat, |i: int| Eff::SetRowLabel(i, Seq::<char>::empty())));
        }
        true
    }

    /// Surfaces the shortcode buffer as composing text and, when the buffer
    /// is not empty, re-queries the symbol index: the candidate list shows
    /// the matching shortcodes, the label cache is rebuilt with their
    /// symbol texts, and the first page is labeled.
    pub fn symbol_input_update(
        &mut self,
        symbols: &SymbolIndex,
        page_size: usize,
        out: &mut Vec<HostEffect>,
    ) -> (r: bool)
        ensures
            old(self).mode != Mode::SymbolInput ==> r == false && *final(self) == *old(self)
                && final(out).deep_view() == old(out).deep_view(),
            old(self).mode == Mode::SymbolInput && old(self).symbol_buffer@.len() == 0 ==> r == true
                && *final(self) == *old(self) && final(out).deep_view() == old(out).deep_view()
                + seq![Eff::ShowComposingText(old(self).symbol_buffer@)],
            old(self).mode == Mode::SymbolInput && old(self).symbol_buffer@.len() > 0 ==> {
                let ms = capped(symbol_matches(symbols@, old(self).symbol_buffer@));
                &&& (symbols.wf() ==> r == true)
                &&& (r == false ==> *final(self) == *old(self) && final(out).deep_view() == old(
                    out,
                ).deep_view() + seq![Eff::ShowComposingText(old(self).symbol_buffer@)])
                &&& (r == true ==> {
                    &&& final(self).mode == Mode::SymbolInput
                    &&& final(self).word_buffer@ == old(self).word_buffer@
                    &&& final(self).symbol_buffer@ == old(self).symbol_buffer@
                    &&& final(self).last_labeled_page == 0
                    &&& (symbols.wf() ==> {
                        &&& final(self).candidates.deep_view() == entry_keys(ms)
                        &&& final(self).labels.deep_view() == entry_texts(ms)
                        &&& final(out).deep_view() == old(out).deep_view() + seq![
                            Eff::ShowComposingText(old(self).symbol_buffer@),
                            Eff::ReplaceCandidateList(entry_keys(ms)),
                        ] + label_pass(entry_texts(ms), 0, page_size as int)
                    })
                })
            },
    {
        if self.mode != Mode::SymbolInput {
            return false;
        }
        let ghost d0 = out.deep_view();
        let query = string_of(&self.symbol_buffer);
        let shown = string_of(&self.symbol_buffer);
        out.push(HostEffect::ShowComposingText(shown));
        proof {
            assert(out.deep_view() =~= d0.push(Eff::ShowComposingText(old(self).symbol_buffer@)));
            assert(out.deep_view() =~= d0 + seq![
                Eff::ShowComposingText(old(self).symbol_buffer@),
            ]);
        }
        if self.symbol_buffer.len() == 0 {
            return true;
        }
        match symbols.lookup_symbols(query.as_str()) {
            Err(_) => false,
            Ok(pairs) => {
                let ghost ms = capped(symbol_matches(symbols@, old(self).symbol_buffer@));
                let mut rows: Vec<String> = Vec::new();
                let mut texts: Vec<String> = Vec::new();
                let n = pairs.len();
                let mut i: usize = 0;
                while i < n
                    invariant
                        n == pairs.len(),
                        i <= n,
                        symbols.wf() ==> pairs.deep_view() == ms,
                        rows.len() == i,
                        texts.len() == i,
                        forall|j: int|
                            0 <= j < i ==> #[trigger] rows.deep_view()[j] == pairs.deep_view()[j].0,
                        forall|j: int|
                            0 <= j < i ==> #[trigger] texts.deep_view()[j] == pairs.deep_view()[j].1,
                    decreases n - i,
                {
                    let ghost r0 = rows.deep_view();
                    let ghost t0 = texts.deep_view();
                    rows.push(pairs[i].0.clone());
                    texts.push(pairs[i].1.clone());
                    proof {
                        assert forall|j: int| 0 <= j <= i implies #[trigger] rows.deep_view()[j]
                            == pairs.deep_view()[j].0 by {
                            if j < i {
                                assert(rows.deep_view()[j] == r0[j]);
                            } else {
                                assert(rows.deep_view()[j] == rows@[j]@);
                            }
                        }
                        assert forall|j: int| 0 <= j <= i implies #[trigger] texts.deep_view()[j]
                            == pairs.deep_view()[j].1 by {
                            if j < i {
                                assert(texts.deep_view()[j] == t0[j]);
                            } else {
                                assert(texts.deep_view()[j] == texts@[j]@);
                            }
                        }
                    }
                    i = i + 1;
                }
                let mut stored: Vec<String> = Vec::new();
                let mut k: usize = 0;
                while k < rows.len()
                    invariant
                        k <= rows.len(),
                        stored.len() == k,
                        forall|j: int| 0 <= j < k ==> #[trigger] stored.deep_view()[j]
                            == rows.deep_view()[j],
                    decreases rows.len() - k,
                {
                    let ghost s0 = stored.deep_view();
                    stored.push(rows[k].clone());
                    proof {
                        assert forall|j: int| 0 <= j <= k implies #[trigger] stored.deep_view()[j]
                            == rows.deep_view()[j] by {
                            if j < k {
                                assert(stored.deep_view()[j] == s0[j]);
                            } else {
                                assert(stored.deep_view()[j] == stored@[j]@);
                            }
                        }
                    }
                    k = k + 1;
                }
                proof {
                    if symbols.wf() {
                        assert(rows.deep_view() =~= entry_keys(ms));
                        assert(texts.deep_view() =~= entry_texts(ms));
                        assert(stored.deep_view() =~= entry_keys(ms));
                    }
                }
                self.candidates = stored;
                self.last_labeled_page = 0;
                let ghost d1 = out.deep_view();
                out.push(HostEffect::ReplaceCandidateList(rows));
                proof {
                    assert(out.deep_view() =~= d1.push(
                        Eff::ReplaceCandidateList(rows.deep_view()),
                    ));
                }
                let ghost base = out.deep_view();
                let count = if texts.len() < page_size {
                    texts.len()
                } else {
                    page_size
                };
                let mut i2: usize = 0;
                while i2 < count
                    invariant
                        count <= texts.len(),
                        i2 <= count,
                        out.deep_view() == base + Seq::new(
                            i2 as nat,
                            |j: int| Eff::SetRowLabel(j, texts.deep_view()[j]),
                        ),
                    decreases count - i2,
                {
                    let ghost d = out.deep_view();
                    out.push(HostEffect::SetRowLabel(i2, texts[i2].clone()));
                    proof {
                        assert(out.deep_view() =~= d.push(
                            Eff::SetRowLabel(i2 as int, texts.deep_view()[i2 as int]),
                        ));
                        assert(out.deep_view() =~= base + Seq::new(
                            (i2 + 1) as nat,
                            |j: int| Eff::SetRowLabel(j, texts.deep_view()[j]),
                        ));
                    }
                    i2 = i2 + 1;
                }
                self.labels = texts;
                proof {
                    if symbols.wf() {
                        assert(out.deep_view() =~= d0 + seq![
                            Eff::ShowComposingText(old(self).symbol_buffer@),
                            Eff::ReplaceCandidateList(entry_keys(ms)),
                        ] + label_pass(entry_texts(ms), 0, page_size as int));
                    }
                }
                true
            },
        }
    }

    /// Recomputes the visible labels lazily: only when the page the cursor
    /// sits on differs from the page the labels were last computed for does
    /// one label pass run, for exactly the rows of the newly visible page.
    pub fn refresh_labels(&mut self, page_size: usize, cursor_pos: usize, out: &mut Vec<
        HostEffect,
    >)
        requires
            page_size > 0,
        ensures
            old(self).mode != Mode::SymbolInput ==> *final(self) == *old(self) && final(out).deep_view() == old(out).deep_view(),
            old(self).mode == Mode::SymbolInput ==> {
                let page = cursor_pos as int / page_size as int;
                &&& (page == old(self).last_labeled_page as int ==> *final(self) == *old(self)
                    && final(out).deep_view() == old(out).deep_view())
                &&& (page != old(self).last_labeled_page as int ==> {
                    &&& final(self).last_labeled_page as int == page
                    &&& final(self).mode == old(self).mode
                    &&& final(self).word_buffer@ == old(self).word_buffer@
                    &&& final(self).symbol_buffer@ == old(self).symbol_buffer@
                    &&& final(self).candidates.deep_view() == old(self).candidates.deep_view()
                    &&& final(self).labels.deep_view() == old(self).labels.deep_view()
                    &&& final(out).deep_view() == old(out).deep_view() + label_pass(
                        old(self).labels.deep_view(),
                        page * page_size as int,
                        page_size as int,
                    )
                })
            },
    {
        if self.mode != Mode::SymbolInput {
            return ;
        }
        let page = cursor_pos / page_size;
        if page == self.last_labeled_page {
            return ;
        }
        self.last_labeled_page = page;
        proof {
            vstd::arithmetic::div_mod::lemma_fundamental_div_mod(
                cursor_pos as int,
                page_size as int,
            );
            assert(cursor_pos % page_size <= cursor_pos);
        }
        let start = cursor_pos - cursor_pos % page_size;
        proof {
            assert(start as int == page as int * page_size as int);
        }
        let count = if start < self.labels.len() {
            let rem = self.labels.len() - start;
            if rem < page_size {
                rem
            } else {
                page_size
            }
        } else {
            0
        };
        let ghost base = out.deep_view();
        let mut i: usize = 0;
        while i < count
            invariant
                start + count <= self.labels.len() || count == 0,
                count <= page_size,
                i <= count,
                self.labels.deep_view() == old(self).labels.deep_view(),
                out.deep_view() == base + Seq::new(
                    i as nat,
                    |j: int| Eff::SetRowLabel(j, self.labels.deep_view()[start + j]),
                ),
            decreases count - i,
        {
            let ghost d = out.deep_view();
            out.push(HostEffect::SetRowLabel(i, self.labels[start + i].clone()));
            proof {
                assert(out.deep_view() =~= d.push(
                    Eff::SetRowLabel(i as int, self.labels.deep_view()[start + i]),
                ));
                assert(out.deep_view() =~= base + Seq::new(
                    (i + 1) as nat,
                    |j: int| Eff::SetRowLabel(j, self.labels.deep_view()[start + j]),
                ));
            }
            i = i + 1;
        }
        proof {
            assert(out.deep_view() =~= base + label_pass(
                old(self).labels.deep_view(),
                start as int,
                page_size as int,
            ));
        }
    }

    /// Commits the selected word: only the suffix beyond the characters
    /// already echoed is inserted, the word buffer is cleared, and the
    /// session returns to normal mode with the list hidden. A selection
    /// that cannot be converted is skipped; the reset still happens.
    pub fn word_commit(&mut self, cursor_pos: usize, out: &mut Vec<HostEffect>) -> (r: bool)
        ensures
            r == (old(self).mode == Mode::WordLookup),
            old(self).mode != Mode::WordLookup ==> *final(self) == *old(self) && final(out).deep_view() == old(out).deep_view(),
            old(self).mode == Mode::WordLookup ==> {
                let cands = old(self).candidates.deep_view();
                let wb = old(self).word_buffer@;
                let commit_part = if cursor_pos < cands.len() && wb.len() <= cands[
                    cursor_pos as int
                ].len() {
                    seq![Eff::CommitText(cands[cursor_pos as int].skip(wb.len() as int))]
                } else {
                    Seq::<Eff>::empty()
                };
                &&& final(self).mode == Mode::Normal
                &&& final(self).word_buffer@ == Seq::<char>::empty()
                &&& final(self).symbol_buffer@ == old(self).symbol_buffer@
                &&& final(self).candidates.deep_view() == old(self).candidates.deep_view()
                &&& final(self).labels.deep_view() == old(self).labels.deep_view()
                &&& final(self).last_labeled_page == old(self).last_labeled_page
                &&& final(out).deep_view() == old(out).deep_view() + commit_part + seq![
                    Eff::HideCandidateList,
                ]
            },
    {
        if self.mode != Mode::WordLookup {
            return false;
        }
        let ghost d0 = out.deep_view();
        if cursor_pos < self.candidates.len() {
            let cand = &self.candidates[cursor_pos];
            let clen = cand.as_str().unicode_len();
            if self.word_buffer.len() <= clen {
                let suffix = cand.as_str().substring_char(self.word_buffer.len(), clen);
                let t = suffix.to_owned();
                proof {
                    assert(t@ =~= self.candidates.deep_view()[cursor_pos as int].skip(
                        self.word_buffer@.len() as int,
                    ));
                }
                out.push(HostEffect::CommitText(t));
            }
        }
        let ghost d1 = out.deep_view();
        self.word_buffer = Vec::new();
        self.mode = Mode::Normal;
        out.push(HostEffect::HideCandidateList);
        proof {
            assert(out.deep_view() =~= d1.push(Eff::HideCandidateList));
        }
        true
    }

    /// Commits the selected symbol: the text inserted is the symbol text
    /// cached for the selected row, not the shortcode shown as the row;
    /// then symbol input is left. A selection with no cached text is
    /// skipped; the reset still happens.
    pub fn symbol_input_commit(
        &mut self,
        page_size: usize,
        cursor_pos: usize,
        out: &mut Vec<HostEffect>,
    ) -> (r: bool)
        ensures
            r == (old(self).mode == Mode::SymbolInput),
            old(self).mode != Mode::SymbolInput ==> *final(self) == *old(self) && final(out).deep_view() == old(out).deep_view(),
            old(self).mode == Mode::SymbolInput ==> {
                let labs = old(self).labels.deep_view();
                let commit_part = if cursor_pos < labs.len() {
                    seq![Eff::CommitText(labs[cursor_pos as int])]
                } else {
                    Seq::<Eff>::empty()
                };
                &&& final(self).mode == Mode::Normal
                &&& final(self).word_buffer@ == old(self).word_buffer@
                &&& final(self).symbol_buffer@ == Seq::<char>::empty()
                &&& final(self).candidates.deep_view() == old(self).candidates.deep_view()
                &&& final(self).labels.deep_view() == Seq::<Seq<char>>::empty()
                &&& final(self).last_labeled_page == 0
                &&& final(out).deep_view() == old(out).deep_view() + commit_part + seq![
                    Eff::HideCandidateList,
                    Eff::HideComposingText,
                ] + Seq::new(page_size as nat, |i: int| Eff::SetRowLabel(i, Seq::<char>::empty()))
            },
    {
        if self.mode != Mode::SymbolInput {
            return false;
        }
        let ghost d0 = out.deep_view();
        if cursor_pos < self.labels.len() {
            let t = self.labels[cursor_pos].clone();
            out.push(HostEffect::CommitText(t));
            proof {
                assert(out.deep_view() =~= d0.push(
                    Eff::CommitText(old(self).labels.deep_view()[cursor_pos as int]),
                ));
            }
        }
        let disabled = self.symbol_input_disable(page_size, out);
        assert(disabled);
        true
    }
}


/// Where the cursor lands after a single move up: one row, stopping at the
/// first row.
pub open spec fn up_pos(host: HostView) -> int {
    if host.cursor_pos > 0 {
        host.cursor_pos - 1
    } else {
        0
    }
}

/// After a single move down: one row, stopping at the last candidate.
pub open spec fn down_pos(host: HostView, n: int) -> int {
    if host.cursor_pos + 1 < n {
        host.cursor_pos + 1
    } else {
        host.cursor_pos as int
    }
}

/// After a page up: a full page, or staying put on the first page.
pub open spec fn page_up_pos(host: HostView) -> int {
    if host.cursor_pos >= host.page_size {
        host.cursor_pos - host.page_size
    } else {
        host.cursor_pos as int
    }
}

/// After a page down: a full page, or staying put on the last page.
pub open spec fn page_down_pos(host: HostView, n: int) -> int {
    if host.cursor_pos + host.page_size < n {
        host.cursor_pos + host.page_size
    } else {
        host.cursor_pos as int
    }
}

/// What a cursor move leaves behind: the move effect is issued, the state
/// is otherwise untouched, and in symbol input a page change triggers
/// exactly one label pass for the newly visible page and none otherwise.
pub open spec fn cursor_move_post(
    s0: Session,
    s1: Session,
    d0: Seq<Eff>,
    d1: Seq<Eff>,
    eff: Eff,
    new_pos: int,
    page_size: int,
) -> bool {
    let page = new_pos / page_size;
    &&& s1.mode == s0.mode
    &&& s1.word_buffer@ == s0.word_buffer@
    &&& s1.symbol_buffer@ == s0.symbol_buffer@
    &&& s1.candidates.deep_view() == s0.candidates.deep_view()
    &&& s1.labels.deep_view() == s0.labels.deep_view()
    &&& (s0.mode != Mode::SymbolInput ==> s1.last_labeled_page == s0.last_labeled_page && d1 == d0
        + seq![eff])
    &&& (s0.mode == Mode::SymbolInput ==> {
        &&& (page == s0.last_labeled_page as int ==> s1.last_labeled_page == s0.last_labeled_page
            && d1 == d0 + seq![eff])
        &&& (page != s0.last_labeled_page as int ==> s1.last_labeled_page as int == page && d1
            == d0 + seq![eff] + label_pass(s0.labels.deep_view(), page * page_size, page_size))
    })
}

impl Session {
    /// The single entry point: maps one key event, in the current mode, to
    /// a query, a presentation update, a commit, or a no-op, and reports
    /// whether the event was consumed.
    pub fn handle_key_event(
        &mut self,
        dict: &DictionaryIndex,
        symbols: &SymbolIndex,
        host: HostView,
        keyval: u32,
        _keycode: u32,
        modifiers: u32,
        out: &mut Vec<HostEffect>,
    ) -> (r: bool)
        requires
            host.page_size > 0,
            host.cursor_pos + host.page_size <= usize::MAX,
        ensures
            ({
                let ev = spec_decode(keyval, modifiers);
                let m0 = old(self).mode;
                let wb = old(self).word_buffer@;
                let sb = old(self).symbol_buffer@;
                let cands = old(self).candidates.deep_view();
                let labs = old(self).labels.deep_view();
                let d0 = old(out).deep_view();
                let ps = host.page_size as int;
                match ev {
                    KeyEvent::Unrecognized => r == false && *final(self) == *old(self) && final(out).deep_view() == d0,
                    KeyEvent::EnableSymbolMode => {
                        &&& r == (m0 == Mode::Normal)
                        &&& (m0 != Mode::Normal ==> *final(self) == *old(self) && final(out).deep_view() == d0)
                        &&& (m0 == Mode::Normal ==> {
                            &&& final(self).mode == Mode::SymbolInput
                            &&& final(self).word_buffer@ == wb
                            &&& final(self).symbol_buffer@ == sb
                            &&& final(self).candidates.deep_view() == Seq::<Seq<char>>::empty()
                            &&& final(self).labels.deep_view() == Seq::<Seq<char>>::empty()
                            &&& final(self).last_labeled_page == 0
                            &&& final(out).deep_view() == d0 + seq![
                                Eff::ReplaceCandidateList(Seq::<Seq<char>>::empty()),
                                Eff::ShowCandidateList,
                                Eff::ShowComposingText(Seq::<char>::empty()),
                            ]
                        })
                    },
                    KeyEvent::EnableWordMode => {
                        &&& (r == false ==> *final(self) == *old(self) && final(out).deep_view()
                            == d0)
                        &&& (m0 == Mode::Normal && wb.len() > 0 && dict.wf() ==> r == true)
                        &&& (r == true ==> {
                            &&& m0 == Mode::Normal && wb.len() > 0
                            &&& final(self).mode == Mode::WordLookup
                            &&& final(self).word_buffer@ == wb
                            &&& final(self).symbol_buffer@ == sb
                            &&& final(self).candidates.deep_view() == capped(word_matches(dict@, wb))
                            &&& final(self).labels.deep_view() == labs
                            &&& final(self).last_labeled_page == old(self).last_labeled_page
                            &&& final(out).deep_view() == d0 + seq![
                                Eff::ReplaceCandidateList(capped(word_matches(dict@, wb))),
                                Eff::ShowCandidateList,
                            ]
                        })
                    },
                    KeyEvent::Space => {
                        &&& r == true
                        &&& final(self).mode == Mode::Normal
                        &&& final(self).word_buffer@ == Seq::<char>::empty()
                        &&& (m0 == Mode::Normal ==> final(self).symbol_buffer@ == sb && final(self).candidates.deep_view() == cands && final(self).labels.deep_view() == labs
                            && final(out).deep_view() == d0 + seq![Eff::CommitText(seq![' '])])
                        &&& (m0 == Mode::WordLookup ==> {
                            let commit_part = if host.cursor_pos < cands.len() && wb.len() <= cands[
                                host.cursor_pos as int
                            ].len() {
                                seq![
                                    Eff::CommitText(
                                        cands[host.cursor_pos as int].skip(wb.len() as int),
                                    ),
                                ]
                            } else {
                                Seq::<Eff>::empty()
                            };
                            &&& final(self).symbol_buffer@ == sb
                            &&& final(self).candidates.deep_view() == cands
                            &&& final(self).labels.deep_view() == labs
                            &&& final(out).deep_view() == d0 + commit_part + seq![
                                Eff::HideCandidateList,
                                Eff::CommitText(seq![' ']),
                            ]
                        })
                        &&& (m0 == Mode::SymbolInput ==> {
                            let commit_part = if host.cursor_pos < labs.len() {
                                seq![Eff::CommitText(labs[host.cursor_pos as int])]
                            } else {
                                Seq::<Eff>::empty()
                            };
                            &&& final(self).symbol_buffer@ == Seq::<char>::empty()
                            &&& final(self).candidates.deep_view() == cands
                            &&& final(self).labels.deep_view() == Seq::<Seq<char>>::empty()
                            &&& final(self).last_labeled_page == 0
                            &&& final(out).deep_view() == d0 + commit_part + seq![
                                Eff::HideCandidateList,
                                Eff::HideComposingText,
                            ] + Seq::new(
                                host.page_size as nat,
                                |i: int| Eff::SetRowLabel(i, Seq::<char>::empty()),
                            ) + seq![Eff::CommitText(seq![' '])]
                        })
                    },
                    KeyEvent::Return => {
                        &&& r == true
                        &&& final(self).mode == Mode::Normal
                        &&& final(self).word_buffer@ == Seq::<char>::empty()
                        &&& (m0 == Mode::Normal ==> final(self).symbol_buffer@ == sb && final(self).candidates.deep_view() == cands && final(self).labels.deep_view() == labs
                            && final(out).deep_view() == d0 + seq![Eff::CommitText(seq!['\r'])])
                        &&& (m0 == Mode::WordLookup ==> {
                            let commit_part = if host.cursor_pos < cands.len() && wb.len() <= cands[
                                host.cursor_pos as int
                            ].len() {
                                seq![
                                    Eff::CommitText(
                                        cands[host.cursor_pos as int].skip(wb.len() as int),
                                    ),
                                ]
                            } else {
                                Seq::<Eff>::empty()
                            };
                            &&& final(self).symbol_buffer@ == sb
                            &&& final(self).candidates.deep_view() == cands
                            &&& final(self).labels.deep_view() == labs
                            &&& final(out).deep_view() == d0 + commit_part + seq![
                                Eff::HideCandidateList,
                                Eff::CommitText(seq!['\r']),
                            ]
                        })
                        &&& (m0 == Mode::SymbolInput ==> {
                            let commit_part = if host.cursor_pos < labs.len() {
                                seq![Eff::CommitText(labs[host.cursor_pos as int])]
                            } else {
                                Seq::<Eff>::empty()
                            };
                            &&& final(self).symbol_buffer@ == Seq::<char>::empty()
                            &&& final(self).candidates.deep_view() == cands
                            &&& final(self).labels.deep_view() == Seq::<Seq<char>>::empty()
                            &&& final(self).last_labeled_page == 0
                            &&& final(out).deep_view() == d0 + commit_part + seq![
                                Eff::HideCandidateList,
                                Eff::HideComposingText,
                            ] + Seq::new(
                                host.page_size as nat,
                                |i: int| Eff::SetRowLabel(i, Seq::<char>::empty()),
                            )
                        })
                    },
                    KeyEvent::Backspace => {
                        &&& (m0 == Mode::Normal ==> r == false && *final(self) == *old(self)
                            && final(out).deep_view() == d0)
                        &&& (m0 == Mode::SymbolInput ==> {
                            let sb1 = if sb.len() > 0 {
                                sb.drop_last()
                            } else {
                                sb
                            };
                            &&& final(self).mode == Mode::SymbolInput
                            &&& final(self).word_buffer@ == wb
                            &&& final(self).symbol_buffer@ == sb1
                            &&& (symbols.wf() ==> r == true)
                            &&& (sb1.len() == 0 ==> r == true && final(self).candidates.deep_view()
                                == cands && final(self).labels.deep_view() == labs && final(self).last_labeled_page == old(self).last_labeled_page && final(out).deep_view() == d0 + seq![Eff::ShowComposingText(sb1)])
                            &&& (sb1.len() > 0 ==> {
                                let ms = capped(symbol_matches(symbols@, sb1));
                                &&& (r == false ==> final(self).candidates.deep_view() == cands
                                    && final(self).labels.deep_view() == labs && final(self).last_labeled_page == old(self).last_labeled_page && final(out).deep_view() == d0 + seq![Eff::ShowComposingText(sb1)])
                                &&& (r == true ==> {
                                    &&& final(self).last_labeled_page == 0
                                    &&& (symbols.wf() ==> {
                                        &&& final(self).candidates.deep_view() == entry_keys(ms)
                                        &&& final(self).labels.deep_view() == entry_texts(ms)
                                        &&& final(out).deep_view() == d0 + seq![
                                            Eff::ShowComposingText(sb1),
                                            Eff::ReplaceCandidateList(entry_keys(ms)),
                                        ] + label_pass(entry_texts(ms), 0, ps)
                                    })
                                })
                            })
                        })
                        &&& (m0 == Mode::WordLookup ==> {
                            let wb1 = if wb.len() > 0 {
                                wb.drop_last()
                            } else {
                                wb
                            };
                            &&& r == false
                            &&& final(self).word_buffer@ == wb1
                            &&& final(self).symbol_buffer@ == sb
                            &&& final(self).labels.deep_view() == labs
                            &&& final(self).last_labeled_page == old(self).last_labeled_page
                            &&& (wb1.len() == 0 ==> final(self).mode == Mode::Normal && final(self).candidates.deep_view() == cands && final(out).deep_view() == d0
                                + seq![Eff::HideCandidateList])
                            &&& (wb1.len() > 0 ==> {
                                &&& final(self).mode == Mode::WordLookup
                                &&& (dict.wf() ==> final(self).candidates.deep_view() == capped(
                                    word_matches(dict@, wb1),
                                ) && final(out).deep_view() == d0 + seq![
                                    Eff::ReplaceCandidateList(capped(word_matches(dict@, wb1))),
                                ])
                                &&& ((final(self).candidates.deep_view() == cands && final(out).deep_view() == d0)
                                    || (final(self).candidates.deep_view() == capped(
                                    word_matches(dict@, wb1),
                                ) && final(out).deep_view() == d0 + seq![
                                    Eff::ReplaceCandidateList(capped(word_matches(dict@, wb1))),
                                ]))
                            })
                        })
                    },
                    KeyEvent::Escape => {
                        &&& r == (m0 == Mode::SymbolInput)
                        &&& (m0 != Mode::SymbolInput ==> *final(self) == *old(self) && final(out).deep_view() == d0)
                        &&& (m0 == Mode::SymbolInput ==> {
                            &&& final(self).mode == Mode::Normal
                            &&& final(self).word_buffer@ == wb
                            &&& final(self).symbol_buffer@ == Seq::<char>::empty()
                            &&& final(self).candidates.deep_view() == cands
                            &&& final(self).labels.deep_view() == Seq::<Seq<char>>::empty()
                            &&& final(self).last_labeled_page == 0
                            &&& final(out).deep_view() == d0 + seq![
                                Eff::HideCandidateList,
                                Eff::HideComposingText,
                            ] + Seq::new(
                                host.page_size as nat,
                                |i: int| Eff::SetRowLabel(i, Seq::<char>::empty()),
                            )
                        })
                    },
                    KeyEvent::Up => {
                        &&& r == (m0 != Mode::Normal)
                        &&& (m0 == Mode::Normal ==> *final(self) == *old(self) && final(out).deep_view() == d0)
                        &&& (m0 != Mode::Normal ==> cursor_move_post(
                            *old(self),
                            *final(self),
                            d0,
                            final(out).deep_view(),
                            Eff::CursorUp,
                            up_pos(host),
                            ps,
                        ))
                    },
                    KeyEvent::Down => {
                        &&& r == (m0 != Mode::Normal)
                        &&& (m0 == Mode::Normal ==> *final(self) == *old(self) && final(out).deep_view() == d0)
                        &&& (m0 != Mode::Normal ==> cursor_move_post(
                            *old(self),
                            *final(self),
                            d0,
                            final(out).deep_view(),
                            Eff::CursorDown,
                            down_pos(host, cands.len() as int),
                            ps,
                        ))
                    },
                    KeyEvent::PageUp => {
                        &&& r == (m0 != Mode::Normal)
                        &&& (m0 == Mode::Normal ==> *final(self) == *old(self) && final(out).deep_view() == d0)
                        &&& (m0 != Mode::Normal ==> cursor_move_post(
                            *old(self),
                            *final(self),
                            d0,
                            final(out).deep_view(),
                            Eff::PageUp,
                            page_up_pos(host),
                            ps,
                        ))
                    },
                    KeyEvent::PageDown => {
                        &&& r == (m0 != Mode::Normal)
                        &&& (m0 == Mode::Normal ==> *final(self) == *old(self) && final(out).deep_view() == d0)
                        &&& (m0 != Mode::Normal ==> cursor_move_post(
                            *old(self),
                            *final(self),
                            d0,
                            final(out).deep_view(),
                            Eff::PageDown,
                            page_down_pos(host, cands.len() as int),
                            ps,
                        ))
                    },
                    KeyEvent::Char(c) => {
                        &&& (m0 == Mode::Normal ==> r == true && final(self).mode == Mode::Normal && final(self).word_buffer@ == wb.push(c) && final(self).symbol_buffer@ == sb && final(self).candidates.deep_view() == cands && final(self).labels.deep_view() == labs
                            && final(out).deep_view() == d0 + seq![Eff::CommitText(seq![c])])
                        &&& (m0 == Mode::WordLookup ==> {
                            &&& r == true
                            &&& final(self).mode == Mode::WordLookup
                            &&& final(self).word_buffer@ == wb.push(c)
                            &&& final(self).symbol_buffer@ == sb
                            &&& final(self).labels.deep_view() == labs
                            &&& final(self).last_labeled_page == old(self).last_labeled_page
                            &&& (dict.wf() ==> final(self).candidates.deep_view() == capped(
                                word_matches(dict@, wb.push(c)),
                            ) && final(out).deep_view() == d0 + seq![
                                Eff::CommitText(seq![c]),
                                Eff::ReplaceCandidateList(capped(word_matches(dict@, wb.push(c)))),
                            ])
                            &&& ((final(self).candidates.deep_view() == cands && final(out).deep_view() == d0 + seq![Eff::CommitText(seq![c])])
                                || (final(self).candidates.deep_view() == capped(
                                word_matches(dict@, wb.push(c)),
                            ) && final(out).deep_view() == d0 + seq![
                                Eff::CommitText(seq![c]),
                                Eff::ReplaceCandidateList(capped(word_matches(dict@, wb.push(c)))),
                            ]))
                        })
                        &&& (m0 == Mode::SymbolInput ==> {
                            let ms = capped(symbol_matches(symbols@, sb.push(c)));
                            &&& final(self).mode == Mode::SymbolInput
                            &&& final(self).word_buffer@ == wb
                            &&& final(self).symbol_buffer@ == sb.push(c)
                            &&& (symbols.wf() ==> r == true)
                            &&& (r == false ==> final(self).candidates.deep_view() == cands
                                && final(self).labels.deep_view() == labs && final(self).last_labeled_page == old(self).last_labeled_page && final(out).deep_view() == d0 + seq![Eff::ShowComposingText(sb.push(c))])
                            &&& (r == true ==> {
                                &&& final(self).last_labeled_page == 0
                                &&& (symbols.wf() ==> {
                                    &&& final(self).candidates.deep_view() == entry_keys(ms)
                                    &&& final(self).labels.deep_view() == entry_texts(ms)
                                    &&& final(out).deep_view() == d0 + seq![
                                        Eff::ShowComposingText(sb.push(c)),
                                        Eff::ReplaceCandidateList(entry_keys(ms)),
                                    ] + label_pass(entry_texts(ms), 0, ps)
                                })
                            })
                        })
                    },
                }
            }),
    {
        let ev = decode_key(keyval, modifiers);
        let ghost d0 = out.deep_view();
        match ev {
            KeyEvent::Unrecognized => false,
            KeyEvent::EnableSymbolMode => self.symbol_input_enable(out),
            KeyEvent::EnableWordMode => self.word_table_enable(dict, out),
            KeyEvent::Space => {
                if self.mode == Mode::SymbolInput {
                    self.symbol_input_commit(host.page_size, host.cursor_pos, out);
                } else if self.mode == Mode::WordLookup {
                    self.word_commit(host.cursor_pos, out);
                }
                let ret = self.commit_char(' ', out);
                self.word_buffer = Vec::new();
                ret
            },
            KeyEvent::Return => {
                if self.mode == Mode::SymbolInput {
                    let ret = self.symbol_input_commit(host.page_size, host.cursor_pos, out);
                    self.word_buffer = Vec::new();
                    ret
                } else if self.mode == Mode::WordLookup {
                    self.word_commit(host.cursor_pos, out);
                    let ret = self.commit_char('\r', out);
                    self.word_buffer = Vec::new();
                    ret
                } else {
                    let ret = self.commit_char('\r', out);
                    self.word_buffer = Vec::new();
                    ret
                }
            },
            KeyEvent::Up => {
                if self.mode != Mode::Normal {
                    let new_pos = if host.cursor_pos > 0 {
                        host.cursor_pos - 1
                    } else {
                        0
                    };
                    out.push(HostEffect::CursorUp);
                    proof {
                        assert(out.deep_view() =~= d0 + seq![Eff::CursorUp]);
                    }
                    self.refresh_labels(host.page_size, new_pos, out);
                    true
                } else {
                    false
                }
            },
            KeyEvent::Down => {
                if self.mode != Mode::Normal {
                    let new_pos = if host.cursor_pos + 1 < self.candidates.len() {
                        host.cursor_pos + 1
                    } else {
                        host.cursor_pos
                    };
                    out.push(HostEffect::CursorDown);
                    proof {
                        assert(out.deep_view() =~= d0 + seq![Eff::CursorDown]);
                    }
                    self.refresh_labels(host.page_size, new_pos, out);
                    true
                } else {
                    false
                }
            },
            KeyEvent::PageUp => {
                if self.mode != Mode::Normal {
                    let new_pos = if host.cursor_pos >= host.page_size {
                        host.cursor_pos - host.page_size
                    } else {
                        host.cursor_pos
                    };
                    out.push(HostEffect::PageUp);
                    proof {
                        assert(out.deep_view() =~= d0 + seq![Eff::PageUp]);
                    }
                    self.refresh_labels(host.page_size, new_pos, out);
                    true
                } else {
                    false
                }
            },
            KeyEvent::PageDown => {
                if self.mode != Mode::Normal {
                    let new_pos = if host.cursor_pos + host.page_size < self.candidates.len() {
                        host.cursor_pos + host.page_size
                    } else {
                        host.cursor_pos
                    };
                    out.push(HostEffect::PageDown);
                    proof {
                        assert(out.deep_view() =~= d0 + seq![Eff::PageDown]);
                    }
                    self.refresh_labels(host.page_size, new_pos, out);
                    true
                } else {
                    false
                }
            },
            KeyEvent::Backspace => {
                if self.mode == Mode::SymbolInput {
                    self.symbol_buffer.pop();
                    self.symbol_input_update(symbols, host.page_size, out)
                } else if self.mode == Mode::WordLookup {
                    self.word_buffer.pop();
                    self.word_table_update(dict, out);
                    false
                } else {
                    false
                }
            },
            KeyEvent::Escape => {
                if self.mode == Mode::SymbolInput {
                    self.symbol_input_disable(host.page_size, out)
                } else {
                    false
                }
            },
            KeyEvent::Char(c) => {
                if self.mode == Mode::SymbolInput {
                    self.symbol_buffer.push(c);
                    self.symbol_input_update(symbols, host.page_size, out)
                } else {
                    let ret = self.commit_char(c, out);
                    if self.mode == Mode::WordLookup {
                        self.word_table_update(dict, out);
                    }
                    ret
                }
            },
        }
    }
}


} // verus!
