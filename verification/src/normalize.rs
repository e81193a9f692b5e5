//! The raw-source normalizer: it turns shortcode-to-asset-reference records
//! into (shortcode, symbol-text) pairs by decoding the hexadecimal
//! codepoint sequence embedded in the reference's final path segment.
use vstd::prelude::*;

use crate::text::{is_scalar_value, lemma_char_u32_int, string_of};

verus! {

/// Why a raw record was rejected.
#[derive(Debug, Clone, Copy, PartialEq, Eq, Structural)]
pub enum ParseError {
    /// The reference has no usable segment to decode.
    MalformedReference,
    /// A piece of the segment is not valid hexadecimal (or does not fit).
    InvalidHex,
    /// A hexadecimal value with no Unicode scalar mapping.
    InvalidCodepoint(u32),
}

/// Whether `c` is a hexadecimal digit.
pub open spec fn is_hex_digit(c: char) -> bool {
    (0x30 <= c as u32 && c as u32 <= 0x39) || (0x61 <= c as u32 && c as u32 <= 0x66) || (0x41
        <= c as u32 && c as u32 <= 0x46)
}

/// The value of a hexadecimal digit.
pub open spec fn hex_digit_val(c: char) -> int {
    if 0x30 <= c as u32 && c as u32 <= 0x39 {
        c as int - 0x30
    } else if 0x61 <= c as u32 && c as u32 <= 0x66 {
        c as int - 0x57
    } else {
        c as int - 0x37
    }
}

/// Whether every character is a hexadecimal digit.
pub open spec fn all_hex(s: Seq<char>) -> bool {
    forall|i: int| 0 <= i < s.len() ==> is_hex_digit(#[trigger] s[i])
}

/// The value of a hexadecimal numeral, most significant digit first.
pub open spec fn hex_value(s: Seq<char>) -> int
    decreases s.len(),
{
    if s.len() == 0 {
        0
    } else {
        hex_value(s.drop_last()) * 16 + hex_digit_val(s.last())
    }
}

/// A hexadecimal digit's value lies between 0 and 15.
proof fn lemma_hex_digit_val_bounds(c: char)
    requires
        is_hex_digit(c),
    ensures
        0 <= hex_digit_val(c) <= 15,
{
    lemma_char_u32_int(c);
}

/// A numeral of hexadecimal digits has a nonnegative value.
proof fn lemma_hex_value_nonneg(s: Seq<char>)
    requires
        all_hex(s),
    ensures
        hex_value(s) >= 0,
    decreases s.len(),
{
    if s.len() > 0 {
        assert(forall|i: int|
            0 <= i < s.drop_last().len() ==> #[trigger] s.drop_last()[i] == s[i]);
        lemma_hex_value_nonneg(s.drop_last());
        assert(is_hex_digit(s[s.len() - 1]));
        lemma_hex_digit_val_bounds(s.last());
    }
}

/// Leading digits of a numeral never exceed its value.
proof fn lemma_hex_value_mono(s: Seq<char>, j: int)
    requires
        all_hex(s),
        0 <= j <= s.len(),
    ensures
        hex_value(s.take(j)) <= hex_value(s),
    decreases s.len() - j,
{
    if j == s.len() {
        assert(s.take(j) =~= s);
    } else {
        lemma_hex_value_mono(s, j + 1);
        assert(s.take(j + 1).drop_last() =~= s.take(j));
        assert(s.take(j + 1).last() == s[j]);
        assert(hex_value(s.take(j + 1)) == hex_value(s.take(j)) * 16 + hex_digit_val(s[j]));
        assert(forall|i: int| 0 <= i < j ==> #[trigger] s.take(j)[i] == s[i]);
        lemma_hex_value_nonneg(s.take(j));
        assert(is_hex_digit(s[j]));
        lemma_hex_digit_val_bounds(s[j]);
    }
}

/// Parses a hexadecimal numeral into the Unicode character with that scalar
/// value. Succeeds exactly on nonempty all-hexadecimal input whose value is
/// a scalar value; an empty, non-hexadecimal or too-large numeral is
/// invalid hex, and a non-scalar value is an invalid codepoint.
pub fn parse_unicode(input: &str) -> (r: Result<char, ParseError>)
    ensures
        r is Ok <==> (input@.len() > 0 && all_hex(input@) && is_scalar_value(hex_value(input@))),
        r matches Ok(c) ==> c as int == hex_value(input@),
        r matches Err(e) ==> if (input@.len() == 0 || !all_hex(input@) || hex_value(input@)
            > u32::MAX) {
            e == ParseError::InvalidHex
        } else {
            e matches ParseError::InvalidCodepoint(v) && v as int == hex_value(input@)
        },
{
    let n = input.unicode_len();
    if n == 0 {
        return Err(ParseError::InvalidHex);
    }
    let mut value: u32 = 0;
    let mut i: usize = 0;
    while i < n
        invariant
            i <= n,
            n == input@.len(),
            all_hex(input@.take(i as int)),
            value as int == hex_value(input@.take(i as int)),
        decreases n - i,
    {
        let c = input.get_char(i);
        let u = c as u32;
        let d: u32 = if 0x30 <= u && u <= 0x39 {
            u - 0x30
        } else if 0x61 <= u && u <= 0x66 {
            u - 0x57
        } else if 0x41 <= u && u <= 0x46 {
            u - 0x37
        } else {
            proof {
                assert(!is_hex_digit(input@[i as int]));
                assert(!all_hex(input@));
            }
            return Err(ParseError::InvalidHex);
        };
        assert(d as int == hex_digit_val(input@[i as int]));
        if value > (u32::MAX - d) / 16 {
            proof {
                assert(input@.take(i as int + 1).drop_last() =~= input@.take(i as int));
                assert(input@.take(i as int + 1).last() == input@[i as int]);
                assert(hex_value(input@.take(i as int + 1)) == value as int * 16 + d as int);
                assert(value as int * 16 + d as int > u32::MAX);
                if all_hex(input@) {
                    lemma_hex_value_mono(input@, i as int + 1);
                    assert(hex_value(input@) > u32::MAX);
                }
            }
            return Err(ParseError::InvalidHex);
        }
        proof {
            assert(input@.take(i as int + 1).drop_last() =~= input@.take(i as int));
            assert(input@.take(i as int + 1).last() == input@[i as int]);
            assert(forall|j: int|
                0 <= j <= i ==> #[trigger] input@.take(i as int + 1)[j] == input@[j]);
            assert(forall|j: int| 0 <= j < i ==> #[trigger] input@.take(i as int)[j] == input@[j]);
        }
        value = value * 16 + d;
        i = i + 1;
    }
    proof {
        assert(input@.take(n as int) =~= input@);
    }
    match char::from_u32(value) {
        Some(c) => {
            proof {
                lemma_char_u32_int(c);
            }
            Ok(c)
        },
        None => Err(ParseError::InvalidCodepoint(value)),
    }
}

/// The final segment of `s` after the last occurrence of `sep` (all of `s`
/// when `sep` does not occur).
pub open spec fn final_segment(s: Seq<char>, sep: char) -> Seq<char>
    decreases s.len(),
{
    if s.len() == 0 {
        s
    } else if s.last() == sep {
        Seq::<char>::empty()
    } else {
        final_segment(s.drop_last(), sep).push(s.last())
    }
}

/// The leading part of `s` before the first occurrence of `sep` (all of `s`
/// when `sep` does not occur).
pub open spec fn before_first(s: Seq<char>, sep: char) -> Seq<char>
    decreases s.len(),
{
    if s.len() == 0 {
        s
    } else if s[0] == sep {
        Seq::<char>::empty()
    } else {
        seq![s[0]] + before_first(s.skip(1), sep)
    }
}

/// `before_first` never grows its input.
pub proof fn lemma_before_first_len(s: Seq<char>, sep: char)
    ensures
        before_first(s, sep).len() <= s.len(),
    decreases s.len(),
{
    if s.len() == 0 {
    } else if s[0] == sep {
    } else {
        lemma_before_first_len(s.skip(1), sep);
    }
}

/// `s` split on `sep` into its (possibly empty) pieces, in order.
pub open spec fn split_on(s: Seq<char>, sep: char) -> Seq<Seq<char>>
    decreases s.len(),
    via split_on_decreases
{
    let first = before_first(s, sep);
    if first.len() == s.len() {
        seq![s]
    } else {
        seq![first] + split_on(s.skip(first.len() as int + 1), sep)
    }
}

#[via_fn]
proof fn split_on_decreases(s: Seq<char>, sep: char) {
    lemma_before_first_len(s, sep);
}

/// When the first `k` characters avoid `sep` and position `k` is the end or
/// holds `sep`, the part before the first `sep` is exactly those characters.
proof fn lemma_before_first_prefix(s: Seq<char>, sep: char, k: int)
    requires
        0 <= k <= s.len(),
        forall|m: int| 0 <= m < k ==> s[m] != sep,
        k < s.len() ==> s[k] == sep,
    ensures
        before_first(s, sep) == s.take(k),
    decreases k,
{
    if k == 0 {
        if s.len() == 0 {
            assert(before_first(s, sep) =~= s.take(0));
        } else {
            assert(s[0] == sep);
            assert(before_first(s, sep) =~= s.take(0));
        }
    } else {
        assert(s[0] != sep);
        assert(forall|m: int| 0 <= m < k - 1 ==> #[trigger] s.skip(1)[m] == s[m + 1]);
        lemma_before_first_prefix(s.skip(1), sep, k - 1);
        assert(before_first(s, sep) =~= s.take(k)) by {
            assert(before_first(s, sep) == seq![s[0]] + s.skip(1).take(k - 1));
            assert(forall|m: int|
                0 <= m < k - 1 ==> #[trigger] s.skip(1).take(k - 1)[m] == s[m + 1]);
        }
    }
}

/// A piece that decodes: nonempty hexadecimal naming a scalar value.
pub open spec fn piece_ok(p: Seq<char>) -> bool {
    p.len() > 0 && all_hex(p) && is_scalar_value(hex_value(p))
}

/// Whether every piece decodes.
pub open spec fn all_pieces_ok(ps: Seq<Seq<char>>) -> bool {
    forall|i: int| 0 <= i < ps.len() ==> piece_ok(#[trigger] ps[i])
}

/// The pieces of an asset reference: the final path segment, stripped of
/// everything from its first dot on, split on the codepoint delimiter.
pub open spec fn url_pieces(u: Seq<char>) -> Seq<Seq<char>> {
    split_on(before_first(final_segment(u, '/'), '.'), '-')
}

/// Whether an asset reference decodes to symbol text.
pub open spec fn url_decodes(u: Seq<char>) -> bool {
    before_first(final_segment(u, '/'), '.').len() > 0 && all_pieces_ok(url_pieces(u))
}

/// The symbol text an asset reference decodes to: the scalar named by each
/// piece, concatenated in order.
pub open spec fn url_decoded(u: Seq<char>) -> Seq<char> {
    Seq::new(url_pieces(u).len(), |i: int| hex_value(url_pieces(u)[i]) as char)
}


/// Decodes an asset reference: the final path segment is taken, everything
/// from its first dot on is stripped, the remainder is split on the
/// codepoint delimiter, and each piece is parsed as a hexadecimal
/// codepoint; the decoded characters, concatenated in order, are the
/// symbol text. A reference with no usable segment is malformed; a piece
/// that does not parse rejects the record with that piece's error.
pub fn parse_github_emoji_url(url: &String) -> (r: Result<String, ParseError>)
    ensures
        r is Ok <==> url_decodes(url@),
        r matches Ok(t) ==> t@ == url_decoded(url@),
        r matches Err(e) ==> !url_decodes(url@) && (if before_first(
            final_segment(url@, '/'),
            '.',
        ).len() == 0 {
            e == ParseError::MalformedReference
        } else {
            e != ParseError::MalformedReference
        }),
{
    let s = url.as_str();
    let n = s.unicode_len();
    let mut start: usize = 0;
    let mut i: usize = 0;
    while i < n
        invariant
            i <= n,
            n == s@.len(),
            s@ == url@,
            start <= i,
            final_segment(s@.take(i as int), '/') == s@.subrange(start as int, i as int),
        decreases n - i,
    {
        let c = s.get_char(i);
        proof {
            assert(s@.take(i as int + 1).drop_last() =~= s@.take(i as int));
            assert(s@.take(i as int + 1).last() == s@[i as int]);
        }
        if c == '/' {
            start = i + 1;
            proof {
                assert(final_segment(s@.take(i as int + 1), '/') =~= s@.subrange(
                    start as int,
                    i as int + 1,
                ));
            }
        } else {
            proof {
                assert(final_segment(s@.take(i as int + 1), '/') =~= s@.subrange(
                    start as int,
                    i as int + 1,
                ));
            }
        }
        i = i + 1;
    }
    proof {
        assert(s@.take(n as int) =~= s@);
    }
    let ghost seg = final_segment(s@, '/');
    assert(seg == s@.subrange(start as int, n as int));
    let mut end: usize = start;
    loop
        invariant
            start <= end <= n,
            n == s@.len(),
            s@ == url@,
            forall|m: int| start <= m < end ==> s@[m] != '.',
        ensures
            start <= end <= n,
            forall|m: int| start <= m < end ==> s@[m] != '.',
            end < n ==> s@[end as int] == '.',
        decreases n - end,
    {
        if end == n {
            break ;
        }
        if s.get_char(end) == '.' {
            break ;
        }
        end = end + 1;
    }
    proof {
        assert(forall|m: int| 0 <= m < end - start ==> seg[m] == #[trigger] s@[start + m]);
        lemma_before_first_prefix(seg, '.', end as int - start as int);
        assert(before_first(seg, '.') =~= s@.subrange(start as int, end as int));
    }
    let ghost tok = before_first(seg, '.');
    if end == start {
        proof {
            assert(tok.len() == 0);
        }
        return Err(ParseError::MalformedReference);
    }
    let ghost pieces = split_on(tok, '-');
    let mut out_chars: Vec<char> = Vec::new();
    let ghost mut count: int = 0;
    let mut p: usize = start;
    proof {
        assert(s@.subrange(p as int, end as int) == tok);
        assert(pieces.skip(0) =~= pieces);
    }
    loop
        invariant_except_break
            split_on(s@.subrange(p as int, end as int), '-') == pieces.skip(count),
        invariant
            start <= p <= end <= n,
            n == s@.len(),
            s@ == url@,
            tok == before_first(final_segment(s@, '/'), '.'),
            tok.len() > 0,
            pieces == split_on(tok, '-'),
            0 <= count <= pieces.len(),
            out_chars@.len() == count,
            forall|m: int|
                0 <= m < count ==> piece_ok(#[trigger] pieces[m]) && out_chars@[m] as int
                    == hex_value(pieces[m]),
        ensures
            count == pieces.len(),
            out_chars@.len() == count,
            forall|m: int|
                0 <= m < count ==> piece_ok(#[trigger] pieces[m]) && out_chars@[m] as int
                    == hex_value(pieces[m]),
        decreases end - p,
    {
        let mut q: usize = p;
        loop
            invariant
                p <= q <= end <= n,
                n == s@.len(),
                forall|m: int| p <= m < q ==> s@[m] != '-',
            ensures
                p <= q <= end,
                forall|m: int| p <= m < q ==> s@[m] != '-',
                q < end ==> s@[q as int] == '-',
            decreases end - q,
        {
            if q == end {
                break ;
            }
            if s.get_char(q) == '-' {
                break ;
            }
            q = q + 1;
        }
        let ghost rem = s@.subrange(p as int, end as int);
        proof {
            assert(forall|m: int| 0 <= m < end - p ==> rem[m] == #[trigger] s@[p + m]);
            lemma_before_first_prefix(rem, '-', q as int - p as int);
            assert(before_first(rem, '-') =~= s@.subrange(p as int, q as int));
        }
        let piece = s.substring_char(p, q);
        proof {
            assert(piece@ =~= before_first(rem, '-'));
            if q == end {
                assert(before_first(rem, '-').len() == rem.len());
                assert(split_on(rem, '-') == seq![rem]);
                assert(pieces.skip(count).len() == 1);
                assert(count < pieces.len());
                assert(pieces.skip(count)[0] == rem);
                assert(pieces[count] == rem);
                assert(piece@ =~= rem);
            } else {
                assert(before_first(rem, '-').len() != rem.len());
                assert(split_on(rem, '-') == seq![before_first(rem, '-')] + split_on(
                    rem.skip(q as int - p as int + 1),
                    '-',
                ));
                assert(pieces.skip(count).len() >= 1);
                assert(count < pieces.len());
                assert(pieces.skip(count)[0] == before_first(rem, '-'));
                assert(pieces[count] == piece@);
                assert(rem.skip(q as int - p as int + 1) =~= s@.subrange(
                    q as int + 1,
                    end as int,
                ));
                assert(pieces.skip(count).skip(1) =~= pieces.skip(count as int + 1));
            }
        }
        match parse_unicode(piece) {
            Err(e) => {
                proof {
                    assert(pieces[count] == piece@);
                    assert(!piece_ok(pieces[count]));
                    assert(!all_pieces_ok(pieces));
                    assert(!url_decodes(url@));
                }
                return Err(e);
            },
            Ok(c) => {
                let ghost oc0 = out_chars@;
                out_chars.push(c);
                proof {
                    assert(pieces[count] == piece@);
                    assert(piece_ok(pieces[count]));
                    assert(out_chars@[count] as int == hex_value(pieces[count]));
                    assert(forall|m: int|
                        0 <= m < count ==> #[trigger] out_chars@[m] == oc0[m]);
                }
                proof {
                    count = count + 1;
                }
            },
        }
        if q == end {
            proof {
                assert(pieces.skip(count - 1) == seq![rem]);
                assert(pieces.len() - (count - 1) == 1);
            }
            break ;
        }
        p = q + 1;
    }
    proof {
        assert(all_pieces_ok(pieces));
        assert(url_decodes(url@));
        assert(out_chars@ =~= url_decoded(url@)) by {
            assert forall|m: int| 0 <= m < count implies out_chars@[m] == url_decoded(url@)[m] by {
                let v = hex_value(pieces[m]);
                assert(is_scalar_value(v));
                assert((v as char) as int == v);
                assert(out_chars@[m] as int == v);
            }
        }
    }
    Ok(string_of(&out_chars))
}

/// The records that decode, in order, with each asset reference replaced by
/// its symbol text; records that do not decode are dropped.
pub open spec fn normalized(rs: Seq<(Seq<char>, Seq<char>)>) -> Seq<(Seq<char>, Seq<char>)>
    decreases rs.len(),
{
    if rs.len() == 0 {
        rs
    } else {
        let rest = normalized(rs.drop_last());
        let last = rs.last();
        if url_decodes(last.1) {
            rest.push((last.0, url_decoded(last.1)))
        } else {
            rest
        }
    }
}

/// Turns raw (shortcode, asset-reference) records into the (shortcode,
/// symbol-text) pairs of those that decode; malformed records are dropped
/// one by one, never failing the whole batch.
pub fn normalize_records(raw: &Vec<(String, String)>) -> (r: Vec<(String, String)>)
    ensures
        r.deep_view() == normalized(raw.deep_view()),
{
    let ghost all = raw.deep_view();
    let mut out: Vec<(String, String)> = Vec::new();
    let n = raw.len();
    let mut i: usize = 0;
    while i < n
        invariant
            i <= n,
            n == raw.len(),
            all == raw.deep_view(),
            out.deep_view() == normalized(all.take(i as int)),
        decreases n - i,
    {
        proof {
            assert(all.take(i as int + 1).drop_last() =~= all.take(i as int));
            assert(all.take(i as int + 1).last() == all[i as int]);
        }
        match parse_github_emoji_url(&raw[i].1) {
            Ok(text) => {
                let ghost d0 = out.deep_view();
                out.push((raw[i].0.clone(), text));
                proof {
                    assert(out.deep_view() =~= d0.push((all[i as int].0, url_decoded(all[i as int].1))));
                    assert(out.deep_view() =~= normalized(all.take(i as int + 1)));
                }
            },
            Err(_) => {
                proof {
                    assert(out.deep_view() =~= normalized(all.take(i as int + 1)));
                }
            },
        }
        i = i + 1;
    }
    proof {
        assert(all.take(n as int) =~= all);
    }
    out
}

} // verus!
