use predict::index::{DictionaryIndex, SymbolIndex};

use predict::session::{
    HostEffect, HostView, Mode, Session, KEYVAL_BACKSPACE, KEYVAL_DOWN, KEYVAL_ESCAPE,
    KEYVAL_RETURN, KEYVAL_SPACE, KEYVAL_UP, MOD_CONTROL, MOD_SHIFT,
};

const KEYVAL_CTRL_E: u32 = 0x65;
const KEYVAL_CTRL_W: u32 = 0x77;

fn dict() -> DictionaryIndex {
    let words: Vec<String> = ["car", "case", "cat"].iter().map(|w| w.to_string()).collect();
    DictionaryIndex::build(&words).unwrap()
}

fn symbols() -> SymbolIndex {
    let recs: Vec<(String, String)> = [
        ("smile", "\u{1F604}"),
        ("smiley", "\u{1F603}"),
        ("smirk", "\u{1F60F}"),
        ("star", "\u{2B50}"),
    ]
    .iter()
    .map(|(k, v)| (k.to_string(), v.to_string()))
    .collect();
    SymbolIndex::build(&recs).unwrap()
}

fn host(cursor_pos: usize) -> HostView {
    HostView { cursor_pos, page_size: 10 }
}

fn press(
    s: &mut Session,
    d: &DictionaryIndex,
    sy: &SymbolIndex,
    h: HostView,
    keyval: u32,
    modifiers: u32,
) -> (bool, Vec<HostEffect>) {
    let mut out: Vec<HostEffect> = Vec::new();
    let handled = s.handle_key_event(d, sy, h, keyval, 0, modifiers, &mut out);
    (handled, out)
}

#[test]
fn word_lookup_scenario() {
    let d = dict();
    let sy = symbols();
    let mut s = Session::new();
    assert_eq!(s.mode, Mode::Normal);

    let (h1, e1) = press(&mut s, &d, &sy, host(0), 'c' as u32, 0);
    assert!(h1);
    assert_eq!(e1, vec![HostEffect::CommitText("c".to_string())]);
    let (h2, e2) = press(&mut s, &d, &sy, host(0), 'a' as u32, 0);
    assert!(h2);
    assert_eq!(e2, vec![HostEffect::CommitText("a".to_string())]);
    assert_eq!(s.word_buffer, vec!['c', 'a']);

    let (h3, e3) = press(&mut s, &d, &sy, host(0), KEYVAL_CTRL_W, MOD_CONTROL);
    assert!(h3);
    assert_eq!(s.mode, Mode::WordLookup);
    let rows: Vec<String> = ["car", "case", "cat"].iter().map(|w| w.to_string()).collect();
    assert_eq!(
        e3,
        vec![
            HostEffect::ReplaceCandidateList(rows),
            HostEffect::ShowCandidateList,
        ]
    );

    // committing row 0 ("car") inserts only the suffix beyond "ca"
    let (h4, e4) = press(&mut s, &d, &sy, host(0), KEYVAL_RETURN, 0);
    assert!(h4);
    assert_eq!(s.mode, Mode::Normal);
    assert!(s.word_buffer.is_empty());
    assert_eq!(e4[0], HostEffect::CommitText("r".to_string()));
    assert_eq!(e4[1], HostEffect::HideCandidateList);
}

#[test]
fn word_lookup_requeries_as_typing_continues() {
    let d = dict();
    let sy = symbols();
    let mut s = Session::new();
    press(&mut s, &d, &sy, host(0), 'c' as u32, 0);
    press(&mut s, &d, &sy, host(0), 'a' as u32, 0);
    press(&mut s, &d, &sy, host(0), KEYVAL_CTRL_W, MOD_CONTROL);
    let (h, e) = press(&mut s, &d, &sy, host(0), 't' as u32, 0);
    assert!(h);
    assert_eq!(
        e,
        vec![
            HostEffect::CommitText("t".to_string()),
            HostEffect::ReplaceCandidateList(vec!["cat".to_string()]),
        ]
    );
}

#[test]
fn word_mode_needs_accumulated_text() {
    let d = dict();
    let sy = symbols();
    let mut s = Session::new();
    let (h, e) = press(&mut s, &d, &sy, host(0), KEYVAL_CTRL_W, MOD_CONTROL);
    assert!(!h);
    assert!(e.is_empty());
    assert_eq!(s.mode, Mode::Normal);
}

#[test]
fn backspace_to_empty_reverts_to_normal() {
    let d = dict();
    let sy = symbols();
    let mut s = Session::new();
    press(&mut s, &d, &sy, host(0), 'c' as u32, 0);
    press(&mut s, &d, &sy, host(0), KEYVAL_CTRL_W, MOD_CONTROL);
    assert_eq!(s.mode, Mode::WordLookup);
    let (h, e) = press(&mut s, &d, &sy, host(0), KEYVAL_BACKSPACE, 0);
    // backspace passes through so the host also deletes the echoed char
    assert!(!h);
    assert_eq!(s.mode, Mode::Normal);
    assert!(s.word_buffer.is_empty());
    assert_eq!(e, vec![HostEffect::HideCandidateList]);
}

#[test]
fn symbol_input_scenario() {
    let d = dict();
    let sy = symbols();
    let mut s = Session::new();

    let (h1, e1) = press(&mut s, &d, &sy, host(0), KEYVAL_CTRL_E, MOD_CONTROL);
    assert!(h1);
    assert_eq!(s.mode, Mode::SymbolInput);
    assert_eq!(
        e1,
        vec![
            HostEffect::ReplaceCandidateList(Vec::new()),
            HostEffect::ShowCandidateList,
            HostEffect::ShowComposingText(String::new()),
        ]
    );

    for (i, c) in ['s', 'm', 'i'].iter().enumerate() {
        let (h, e) = press(&mut s, &d, &sy, host(0), *c as u32, 0);
        assert!(h);
        assert_eq!(s.symbol_buffer.len(), i + 1);
        // the typed character is never committed to the host as text
        assert!(e.iter().all(|eff| !matches!(eff, HostEffect::CommitText(_))));
    }
    assert_eq!(s.symbol_buffer, vec!['s', 'm', 'i']);
    assert_eq!(
        s.candidates,
        vec!["smile".to_string(), "smiley".to_string(), "smirk".to_string()]
    );

    // Return commits the cached symbol text of the selected row, not its
    // shortcode
    let (h2, e2) = press(&mut s, &d, &sy, host(1), KEYVAL_RETURN, 0);
    assert!(h2);
    assert_eq!(s.mode, Mode::Normal);
    assert_eq!(e2[0], HostEffect::CommitText("\u{1F603}".to_string()));
    assert_eq!(e2[1], HostEffect::HideCandidateList);
    assert_eq!(e2[2], HostEffect::HideComposingText);
}

#[test]
fn escape_cancels_symbol_input() {
    let d = dict();
    let sy = symbols();
    let mut s = Session::new();
    press(&mut s, &d, &sy, host(0), KEYVAL_CTRL_E, MOD_CONTROL);
    press(&mut s, &d, &sy, host(0), 's' as u32, 0);
    let (h, e) = press(&mut s, &d, &sy, host(0), KEYVAL_ESCAPE, 0);
    assert!(h);
    assert_eq!(s.mode, Mode::Normal);
    assert!(s.symbol_buffer.is_empty());
    assert_eq!(e[0], HostEffect::HideCandidateList);
    assert_eq!(e[1], HostEffect::HideComposingText);
    // the labels previously assigned to the visible page are cleared
    assert!(e[2..].iter().all(|eff| matches!(eff, HostEffect::SetRowLabel(_, l) if l.is_empty())));
    assert_eq!(e.len(), 2 + 10);
}

#[test]
fn page_change_relabels_new_page_exactly_once() {
    let d = dict();
    let sy = symbols();
    let mut s = Session::new();
    let small = HostView { cursor_pos: 0, page_size: 2 };
    press(&mut s, &d, &sy, small, KEYVAL_CTRL_E, MOD_CONTROL);
    press(&mut s, &d, &sy, small, 's' as u32, 0);
    // four matches: smile, smiley, smirk, star over two pages of two rows

    // moving within the labeled page recomputes nothing
    let (h1, e1) = press(&mut s, &d, &sy, HostView { cursor_pos: 0, page_size: 2 }, KEYVAL_DOWN, 0);
    assert!(h1);
    assert_eq!(e1, vec![HostEffect::CursorDown]);

    // crossing onto the second page triggers exactly one label pass for it
    let (h2, e2) = press(&mut s, &d, &sy, HostView { cursor_pos: 1, page_size: 2 }, KEYVAL_DOWN, 0);
    assert!(h2);
    assert_eq!(
        e2,
        vec![
            HostEffect::CursorDown,
            HostEffect::SetRowLabel(0, "\u{1F60F}".to_string()),
            HostEffect::SetRowLabel(1, "\u{2B50}".to_string()),
        ]
    );
}

#[test]
fn space_commits_selection_then_literal_space() {
    let d = dict();
    let sy = symbols();
    let mut s = Session::new();
    press(&mut s, &d, &sy, host(0), 'c' as u32, 0);
    press(&mut s, &d, &sy, host(0), 'a' as u32, 0);
    press(&mut s, &d, &sy, host(0), KEYVAL_CTRL_W, MOD_CONTROL);
    let (h, e) = press(&mut s, &d, &sy, host(2), KEYVAL_SPACE, 0);
    assert!(h);
    assert_eq!(s.mode, Mode::Normal);
    assert!(s.word_buffer.is_empty());
    assert_eq!(
        e,
        vec![
            HostEffect::CommitText("t".to_string()),
            HostEffect::HideCandidateList,
            HostEffect::CommitText(" ".to_string()),
        ]
    );
}

#[test]
fn unrecognized_modifiers_are_rejected_unprocessed() {
    let d = dict();
    let sy = symbols();
    let mut s = Session::new();
    let (h, e) = press(&mut s, &d, &sy, host(0), 'c' as u32, 0x8);
    assert!(!h);
    assert!(e.is_empty());
    assert_eq!(s.mode, Mode::Normal);
    assert!(s.word_buffer.is_empty());
}

#[test]
fn unknown_control_combination_is_ignored() {
    let d = dict();
    let sy = symbols();
    let mut s = Session::new();
    let (h, e) = press(&mut s, &d, &sy, host(0), 'x' as u32, MOD_CONTROL);
    assert!(!h);
    assert!(e.is_empty());
}

#[test]
fn shift_modified_characters_pass_through() {
    let d = dict();
    let sy = symbols();
    let mut s = Session::new();
    let (h, e) = press(&mut s, &d, &sy, host(0), 'C' as u32, MOD_SHIFT);
    assert!(h);
    assert_eq!(e, vec![HostEffect::CommitText("C".to_string())]);
    assert_eq!(s.word_buffer, vec!['C']);
}

#[test]
fn cursor_keys_do_nothing_in_normal_mode() {
    let d = dict();
    let sy = symbols();
    let mut s = Session::new();
    let (h1, e1) = press(&mut s, &d, &sy, host(0), KEYVAL_UP, 0);
    let (h2, e2) = press(&mut s, &d, &sy, host(0), KEYVAL_DOWN, 0);
    assert!(!h1 && !h2);
    assert!(e1.is_empty() && e2.is_empty());
}

#[test]
fn failed_word_query_is_tolerated_locally() {
    // an index whose stored key is not valid text: the query fails, the
    // transition is aborted, and the session state is untouched
    let mut b = fst::SetBuilder::memory();
    b.insert([0x73u8, 0xFF]).unwrap();
    let set = b.into_set();
    let bad = DictionaryIndex::from_bytes(set.as_fst().as_bytes().to_vec()).unwrap();
    let sy = symbols();
    let mut s = Session::new();
    press(&mut s, &bad, &sy, host(0), 's' as u32, 0);
    assert_eq!(s.mode, Mode::Normal);
    let (h, e) = press(&mut s, &bad, &sy, host(0), KEYVAL_CTRL_W, MOD_CONTROL);
    assert!(!h);
    assert!(e.is_empty());
    assert_eq!(s.mode, Mode::Normal);
    assert_eq!(s.word_buffer, vec!['s']);
}

#[test]
fn failed_symbol_query_is_tolerated_locally() {
    let mut b = fst::MapBuilder::memory();
    b.insert([0x73u8, 0xFF], 0).unwrap();
    let map = b.into_map();
    let payloads = bincode::serialize(&vec!["x".to_string()]).unwrap();
    let bad = SymbolIndex::from_bytes(map.as_fst().as_bytes().to_vec(), payloads).unwrap();
    let d = dict();
    let mut s = Session::new();
    press(&mut s, &d, &bad, host(0), KEYVAL_CTRL_E, MOD_CONTROL);
    let (h, e) = press(&mut s, &d, &bad, host(0), 's' as u32, 0);
    assert!(!h);
    // the composing text still updates; the list, labels and mode do not
    assert_eq!(e, vec![HostEffect::ShowComposingText("s".to_string())]);
    assert_eq!(s.mode, Mode::SymbolInput);
    assert_eq!(s.symbol_buffer, vec!['s']);
    assert!(s.candidates.is_empty());
}
