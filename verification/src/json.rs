//! The JSON persisted form of a submission history: an array of scored
//! words, each an array of `{"letter":"R","matches":"+"}` objects, in the
//! compact notation without whitespace.

use vstd::prelude::*;
use vstd::string::StringSliceAdditionalSpecFns;

use crate::ascii::ascii_bytes_to_string;
use crate::matching::Matches;
use crate::submit_history::{spec_history_wf, SubmitHistory};
use crate::submit_letter::SubmitLetter;
use crate::submit_word::{spec_word_wf, SubmitWord};
use crate::text::{spec_is_upper_byte, spec_symbol_byte, spec_symbol_of_byte, symbol_byte};
use crate::PUZZLE_LETTERS_COUNT;

verus! {

/// The bytes before the letter character: `{"letter":"`.
pub open spec fn json_letter_prefix() -> Seq<u8> {
    seq![
        '{' as u8,
        '"' as u8,
        'l' as u8,
        'e' as u8,
        't' as u8,
        't' as u8,
        'e' as u8,
        'r' as u8,
        '"' as u8,
        ':' as u8,
        '"' as u8,
    ]
}

/// The bytes between the letter and its symbol: `","matches":"`.
pub open spec fn json_letter_infix() -> Seq<u8> {
    seq![
        '"' as u8,
        ',' as u8,
        '"' as u8,
        'm' as u8,
        'a' as u8,
        't' as u8,
        'c' as u8,
        'h' as u8,
        'e' as u8,
        's' as u8,
        '"' as u8,
        ':' as u8,
        '"' as u8,
    ]
}

/// The bytes after the symbol: `"}`.
pub open spec fn json_letter_suffix() -> Seq<u8> {
    seq!['"' as u8, '}' as u8]
}

/// The 28-byte JSON object of one scored letter.
pub open spec fn enc_letter_json(l: SubmitLetter) -> Seq<u8> {
    json_letter_prefix() + seq![l.letter as u8] + json_letter_infix() + seq![
        spec_symbol_byte(l.matches),
    ] + json_letter_suffix()
}

/// The comma-joined letter objects of one word.
pub open spec fn enc_letters_json(w: Seq<SubmitLetter>) -> Seq<u8>
    decreases w.len(),
{
    if w.len() == 0 {
        Seq::empty()
    } else if w.len() == 1 {
        enc_letter_json(w[0])
    } else {
        enc_letter_json(w[0]) + seq![',' as u8] + enc_letters_json(w.drop_first())
    }
}

/// The JSON array of one scored word.
pub open spec fn enc_word_json(w: Seq<SubmitLetter>) -> Seq<u8> {
    seq!['[' as u8] + enc_letters_json(w) + seq![']' as u8]
}

/// The comma-joined word arrays of a history.
pub open spec fn enc_words_json(h: Seq<Seq<SubmitLetter>>) -> Seq<u8>
    decreases h.len(),
{
    if h.len() == 0 {
        Seq::empty()
    } else if h.len() == 1 {
        enc_word_json(h[0])
    } else {
        enc_word_json(h[0]) + seq![',' as u8] + enc_words_json(h.drop_first())
    }
}

/// The JSON array of a whole history.
pub open spec fn enc_history_json(h: Seq<Seq<SubmitLetter>>) -> Seq<u8> {
    seq!['[' as u8] + enc_words_json(h) + seq![']' as u8]
}

/// Whether the fixed bytes of a letter object stand at position `i`: the
/// prefix, infix and suffix around the letter and symbol positions.
pub open spec fn spec_letter_frame_json(b: Seq<u8>, i: int) -> bool {
    &&& b[i] == '{' as u8
    &&& b[i + 1] == '"' as u8
    &&& b[i + 2] == 'l' as u8
    &&& b[i + 3] == 'e' as u8
    &&& b[i + 4] == 't' as u8
    &&& b[i + 5] == 't' as u8
    &&& b[i + 6] == 'e' as u8
    &&& b[i + 7] == 'r' as u8
    &&& b[i + 8] == '"' as u8
    &&& b[i + 9] == ':' as u8
    &&& b[i + 10] == '"' as u8
    &&& b[i + 12] == '"' as u8
    &&& b[i + 13] == ',' as u8
    &&& b[i + 14] == '"' as u8
    &&& b[i + 15] == 'm' as u8
    &&& b[i + 16] == 'a' as u8
    &&& b[i + 17] == 't' as u8
    &&& b[i + 18] == 'c' as u8
    &&& b[i + 19] == 'h' as u8
    &&& b[i + 20] == 'e' as u8
    &&& b[i + 21] == 's' as u8
    &&& b[i + 22] == '"' as u8
    &&& b[i + 23] == ':' as u8
    &&& b[i + 24] == '"' as u8
    &&& b[i + 26] == '"' as u8
    &&& b[i + 27] == '}' as u8
}

/// Reads one letter object at position `i`.
pub open spec fn p_letter_json(b: Seq<u8>, i: int) -> Option<SubmitLetter> {
    if 0 <= i && i + 28 <= b.len() && spec_letter_frame_json(b, i) && spec_is_upper_byte(
        b[i + 11],
    ) {
        match spec_symbol_of_byte(b[i + 25]) {
            Some(m) => Some(SubmitLetter { letter: b[i + 11] as char, matches: m }),
            None => None,
        }
    } else {
        None
    }
}

/// Reads `n` comma-separated letter objects starting at position `i`.
pub open spec fn p_letters_json(b: Seq<u8>, i: int, n: int) -> Option<(Seq<SubmitLetter>, int)>
    decreases n,
{
    if n < 1 {
        None
    } else {
        match p_letter_json(b, i) {
            None => None,
            Some(l) => if n == 1 {
                Some((seq![l], i + 28))
            } else if i + 29 <= b.len() && b[i + 28] == ',' as u8 {
                match p_letters_json(b, i + 29, n - 1) {
                    None => None,
                    Some((rest, j)) => Some((seq![l] + rest, j)),
                }
            } else {
                None
            },
        }
    }
}

/// Reads one word array at position `i`.
pub open spec fn p_word_json(b: Seq<u8>, i: int) -> Option<(Seq<SubmitLetter>, int)> {
    if 0 <= i && i + 1 <= b.len() && b[i] == '[' as u8 {
        match p_letters_json(b, i + 1, PUZZLE_LETTERS_COUNT as int) {
            None => None,
            Some((w, j)) => if j + 1 <= b.len() && b[j] == ']' as u8 {
                Some((w, j + 1))
            } else {
                None
            },
        }
    } else {
        None
    }
}

/// Reads the comma-separated word arrays of a non-empty history together
/// with the closing `]` of the outer array. `fuel` bounds the recursion
/// and any value at least the word count behaves the same.
pub open spec fn p_words_json(b: Seq<u8>, i: int, fuel: int) -> Option<
    (Seq<Seq<SubmitLetter>>, int),
>
    decreases fuel,
{
    if fuel < 1 {
        None
    } else {
        match p_word_json(b, i) {
            None => None,
            Some((w, j)) => if j + 1 <= b.len() && b[j] == ']' as u8 {
                Some((seq![w], j + 1))
            } else if j + 1 <= b.len() && b[j] == ',' as u8 {
                match p_words_json(b, j + 1, fuel - 1) {
                    None => None,
                    Some((ws, k)) => Some((seq![w] + ws, k)),
                }
            } else {
                None
            },
        }
    }
}

/// Parses a whole buffer as the JSON form of a history.
pub open spec fn p_history_json(b: Seq<u8>) -> Option<Seq<Seq<SubmitLetter>>> {
    if b.len() >= 2 && b[0] == '[' as u8 {
        if b.len() == 2 && b[1] == ']' as u8 {
            Some(Seq::empty())
        } else {
            match p_words_json(b, 1, b.len() as int) {
                Some((ws, k)) => if k == b.len() {
                    Some(ws)
                } else {
                    None
                },
                None => None,
            }
        }
    } else {
        None
    }
}

proof fn lemma_enc_letter_json_index(l: SubmitLetter)
    ensures
        enc_letter_json(l).len() == 28,
        forall|k: int| 0 <= k < 11 ==> #[trigger] enc_letter_json(l)[k] == json_letter_prefix()[k],
        enc_letter_json(l)[11] == l.letter as u8,
        forall|k: int|
            12 <= k < 25 ==> #[trigger] enc_letter_json(l)[k] == json_letter_infix()[k - 12],
        enc_letter_json(l)[25] == spec_symbol_byte(l.matches),
        enc_letter_json(l)[26] == '"' as u8,
        enc_letter_json(l)[27] == '}' as u8,
{
}

proof fn lemma_p_letter_json_enc(b: Seq<u8>, i: int, l: SubmitLetter)
    requires
        l.wf(),
        0 <= i,
        i + 28 <= b.len(),
        b.subrange(i, i + 28) == enc_letter_json(l),
    ensures
        p_letter_json(b, i) == Some(l),
{
    let e = enc_letter_json(l);
    lemma_enc_letter_json_index(l);
    assert(forall|k: int| 0 <= k < 28 ==> b[i + k] == #[trigger] e[k]) by {
        assert(forall|k: int| 0 <= k < 28 ==> #[trigger] e[k] == b.subrange(i, i + 28)[k]);
    }
    assert(spec_letter_frame_json(b, i)) by {
        assert(b[i + 0] == e[0]);
        assert(b[i + 1] == e[1]);
        assert(b[i + 2] == e[2]);
        assert(b[i + 3] == e[3]);
        assert(b[i + 4] == e[4]);
        assert(b[i + 5] == e[5]);
        assert(b[i + 6] == e[6]);
        assert(b[i + 7] == e[7]);
        assert(b[i + 8] == e[8]);
        assert(b[i + 9] == e[9]);
        assert(b[i + 10] == e[10]);
        assert(b[i + 12] == e[12]);
        assert(b[i + 13] == e[13]);
        assert(b[i + 14] == e[14]);
        assert(b[i + 15] == e[15]);
        assert(b[i + 16] == e[16]);
        assert(b[i + 17] == e[17]);
        assert(b[i + 18] == e[18]);
        assert(b[i + 19] == e[19]);
        assert(b[i + 20] == e[20]);
        assert(b[i + 21] == e[21]);
        assert(b[i + 22] == e[22]);
        assert(b[i + 23] == e[23]);
        assert(b[i + 24] == e[24]);
        assert(b[i + 26] == e[26]);
        assert(b[i + 27] == e[27]);
    }
    assert(b[i + 11] == l.letter as u8);
    assert(b[i + 25] == spec_symbol_byte(l.matches));
    assert(spec_is_upper_byte(b[i + 11]));
    assert(spec_symbol_of_byte(b[i + 25]) == Some(l.matches));
    assert((b[i + 11] as char) == l.letter);
    assert(p_letter_json(b, i) == Some(
        SubmitLetter { letter: b[i + 11] as char, matches: l.matches },
    ));
    assert((SubmitLetter { letter: b[i + 11] as char, matches: l.matches }) =~= l);
}

proof fn lemma_enc_letters_json_len(w: Seq<SubmitLetter>)
    requires
        w.len() >= 1,
    ensures
        enc_letters_json(w).len() == 29 * w.len() - 1,
    decreases w.len(),
{
    if w.len() > 1 {
        lemma_enc_letters_json_len(w.drop_first());
    }
}

proof fn lemma_p_letters_json_enc(b: Seq<u8>, i: int, w: Seq<SubmitLetter>)
    requires
        1 <= w.len(),
        forall|k: int| 0 <= k < w.len() ==> (#[trigger] w[k]).wf(),
        0 <= i,
        i + 29 * w.len() - 1 <= b.len(),
        b.subrange(i, i + 29 * w.len() - 1) == enc_letters_json(w),
    ensures
        p_letters_json(b, i, w.len() as int) == Some((w, i + 29 * w.len() - 1)),
    decreases w.len(),
{
    lemma_enc_letters_json_len(w);
    let e = enc_letters_json(w);
    assert(forall|k: int| 0 <= k < e.len() ==> b[i + k] == #[trigger] e[k]) by {
        assert(forall|k: int| 0 <= k < e.len() ==> #[trigger] e[k] == b.subrange(
            i,
            i + 29 * w.len() - 1,
        )[k]);
    }
    if w.len() == 1 {
        assert(b.subrange(i, i + 28) =~= enc_letter_json(w[0])) by {
            assert(forall|k: int| 0 <= k < 28 ==> b[i + k] == #[trigger] e[k]);
        }
        lemma_p_letter_json_enc(b, i, w[0]);
        assert(seq![w[0]] =~= w);
    } else {
        let rest = w.drop_first();
        lemma_enc_letters_json_len(rest);
        assert(e == enc_letter_json(w[0]) + seq![',' as u8] + enc_letters_json(rest));
        assert(b.subrange(i, i + 28) =~= enc_letter_json(w[0])) by {
            assert(forall|k: int| 0 <= k < 28 ==> #[trigger] enc_letter_json(w[0])[k] == e[k]);
        }
        lemma_p_letter_json_enc(b, i, w[0]);
        assert(b[i + 28] == e[28]);
        assert(e[28] == ',' as u8);
        assert(b.subrange(i + 29, i + 29 + 29 * rest.len() - 1) =~= enc_letters_json(rest)) by {
            assert forall|k: int| 0 <= k < 29 * rest.len() - 1 implies b.subrange(
                i + 29,
                i + 29 + 29 * rest.len() - 1,
            )[k] == enc_letters_json(rest)[k] by {
                assert(b[i + 29 + k] == e[29 + k]);
                assert(e[29 + k] == enc_letters_json(rest)[k]);
            }
        }
        assert(forall|k: int| 0 <= k < rest.len() ==> (#[trigger] rest[k]).wf());
        lemma_p_letters_json_enc(b, i + 29, rest);
        assert(seq![w[0]] + rest =~= w);
    }
}

proof fn lemma_p_word_json_enc(b: Seq<u8>, i: int, w: Seq<SubmitLetter>)
    requires
        spec_word_wf(w),
        0 <= i,
        i + 146 <= b.len(),
        b.subrange(i, i + 146) == enc_word_json(w),
    ensures
        p_word_json(b, i) == Some((w, i + 146)),
{
    let e = enc_word_json(w);
    lemma_enc_letters_json_len(w);
    assert(forall|k: int| 0 <= k < 146 ==> b[i + k] == #[trigger] e[k]) by {
        assert(forall|k: int| 0 <= k < 146 ==> #[trigger] e[k] == b.subrange(i, i + 146)[k]);
    }
    assert(e[0] == '[' as u8);
    assert(b[i + 0] == e[0]);
    assert(b[i] == '[' as u8);
    assert(b.subrange(i + 1, i + 145) =~= enc_letters_json(w)) by {
        assert forall|k: int| 0 <= k < 144 implies b.subrange(i + 1, i + 145)[k]
            == enc_letters_json(w)[k] by {
            assert(b[i + 1 + k] == e[1 + k]);
            assert(e[1 + k] == enc_letters_json(w)[k]);
        }
    }
    lemma_p_letters_json_enc(b, i + 1, w);
    assert(b[i + 145] == e[145]);
    assert(e[145] == ']' as u8);
}

proof fn lemma_enc_words_json_len(h: Seq<Seq<SubmitLetter>>)
    requires
        h.len() >= 1,
        forall|k: int| 0 <= k < h.len() ==> (#[trigger] h[k]).len() == PUZZLE_LETTERS_COUNT,
    ensures
        enc_words_json(h).len() == 147 * h.len() - 1,
    decreases h.len(),
{
    lemma_enc_letters_json_len(h[0]);
    if h.len() > 1 {
        let rest = h.drop_first();
        assert(forall|k: int|
            0 <= k < rest.len() ==> (#[trigger] rest[k]).len() == PUZZLE_LETTERS_COUNT);
        lemma_enc_words_json_len(rest);
    }
}

proof fn lemma_p_words_json_enc(b: Seq<u8>, i: int, h: Seq<Seq<SubmitLetter>>, fuel: int)
    requires
        1 <= h.len() <= fuel,
        spec_history_wf(h),
        0 <= i,
        i + 147 * h.len() <= b.len(),
        b.subrange(i, i + 147 * h.len() - 1) == enc_words_json(h),
        b[i + 147 * h.len() - 1] == ']' as u8,
    ensures
        p_words_json(b, i, fuel) == Some((h, i + 147 * h.len())),
    decreases h.len(),
{
    assert(forall|k: int| 0 <= k < h.len() ==> (#[trigger] h[k]).len() == PUZZLE_LETTERS_COUNT) by {
        assert(forall|k: int| 0 <= k < h.len() ==> spec_word_wf(#[trigger] h[k]));
    }
    lemma_enc_words_json_len(h);
    let e = enc_words_json(h);
    assert(forall|k: int| 0 <= k < e.len() ==> b[i + k] == #[trigger] e[k]) by {
        assert(forall|k: int| 0 <= k < e.len() ==> #[trigger] e[k] == b.subrange(
            i,
            i + 147 * h.len() - 1,
        )[k]);
    }
    if h.len() == 1 {
        assert(b.subrange(i, i + 146) =~= enc_word_json(h[0])) by {
            assert(forall|k: int| 0 <= k < 146 ==> b[i + k] == #[trigger] e[k]);
        }
        lemma_p_word_json_enc(b, i, h[0]);
        assert(b[i + 146] == ']' as u8);
        assert(seq![h[0]] =~= h);
    } else {
        let rest = h.drop_first();
        assert(forall|k: int|
            0 <= k < rest.len() ==> (#[trigger] rest[k]).len() == PUZZLE_LETTERS_COUNT);
        lemma_enc_words_json_len(rest);
        assert(e == enc_word_json(h[0]) + seq![',' as u8] + enc_words_json(rest));
        assert(b.subrange(i, i + 146) =~= enc_word_json(h[0])) by {
            assert(forall|k: int| 0 <= k < 146 ==> #[trigger] enc_word_json(h[0])[k] == e[k]);
        }
        lemma_p_word_json_enc(b, i, h[0]);
        assert(b[i + 146] == e[146]);
        assert(e[146] == ',' as u8);
        assert(b[i + 146] != ']' as u8);
        assert(b.subrange(i + 147, i + 147 + 147 * rest.len() - 1) =~= enc_words_json(rest)) by {
            assert forall|k: int| 0 <= k < 147 * rest.len() - 1 implies b.subrange(
                i + 147,
                i + 147 + 147 * rest.len() - 1,
            )[k] == enc_words_json(rest)[k] by {
                assert(b[i + 147 + k] == e[147 + k]);
                assert(e[147 + k] == enc_words_json(rest)[k]);
            }
        }
        assert(spec_history_wf(rest));
        assert(b[i + 147 + 147 * rest.len() - 1] == ']' as u8);
        lemma_p_words_json_enc(b, i + 147, rest, fuel - 1);
        assert(seq![h[0]] + rest =~= h);
    }
}

/// Parses a whole buffer as the JSON form of one scored word.
pub open spec fn spec_word_from_json(b: Seq<u8>) -> Option<Seq<SubmitLetter>> {
    match p_word_json(b, 0) {
        Some((w, j)) => if j == b.len() {
            Some(w)
        } else {
            None
        },
        None => None,
    }
}

/// Round-trip: parsing the JSON form of a valid scored word yields the
/// word back.
pub proof fn lemma_word_json_round_trip(w: Seq<SubmitLetter>)
    requires
        spec_word_wf(w),
    ensures
        spec_word_from_json(enc_word_json(w)) == Some(w),
{
    let b = enc_word_json(w);
    lemma_enc_letters_json_len(w);
    assert(b.subrange(0, 146) =~= b);
    lemma_p_word_json_enc(b, 0, w);
}

/// Round-trip: parsing the JSON form of a valid history yields an equal
/// sequence of scored guesses in the same order.
pub proof fn lemma_json_round_trip(h: Seq<Seq<SubmitLetter>>)
    requires
        spec_history_wf(h),
    ensures
        p_history_json(enc_history_json(h)) == Some(h),
{
    let b = enc_history_json(h);
    if h.len() == 0 {
        assert(b =~= seq!['[' as u8, ']' as u8]);
        assert(p_history_json(b) == Some(Seq::<Seq<SubmitLetter>>::empty()));
        assert(Seq::<Seq<SubmitLetter>>::empty() =~= h);
    } else {
        assert(forall|k: int|
            0 <= k < h.len() ==> (#[trigger] h[k]).len() == PUZZLE_LETTERS_COUNT) by {
            assert(forall|k: int| 0 <= k < h.len() ==> spec_word_wf(#[trigger] h[k]));
        }
        lemma_enc_words_json_len(h);
        let m = h.len() as int;
        assert(b.len() == 147 * m + 1);
        assert(b[0] == '[' as u8);
        assert(b.subrange(1, 147 * m) =~= enc_words_json(h)) by {
            assert forall|k: int| 0 <= k < 147 * m - 1 implies b.subrange(1, 147 * m)[k]
                == enc_words_json(h)[k] by {
                assert(b[1 + k] == enc_words_json(h)[k]);
            }
        }
        assert(b[147 * m] == ']' as u8);
        lemma_p_words_json_enc(b, 1, h, b.len() as int);
        assert(p_words_json(b, 1, b.len() as int) == Some((h, 147 * m + 1)));
        assert(b.len() != 2);
    }
}

/// Round-trip at the string boundary: the text [`SubmitHistory::to_json`]
/// returns decodes, through the specification of
/// [`SubmitHistory::from_json`], to the same history view.
pub proof fn lemma_json_text_round_trip(h: Seq<Seq<SubmitLetter>>, s: Seq<char>)
    requires
        spec_history_wf(h),
        s =~= enc_history_json(h).map_values(|x: u8| x as char),
    ensures
        p_history_json(vstd::utf8::encode_utf8(s)) == Some(h),
{
    lemma_enc_history_json_ascii(h);
    crate::ascii::lemma_ascii_chars_bytes(enc_history_json(h));
    lemma_json_round_trip(h);
}

proof fn lemma_p_letter_json_sound(b: Seq<u8>, i: int, l: SubmitLetter)
    requires
        p_letter_json(b, i) == Some(l),
    ensures
        0 <= i,
        i + 28 <= b.len(),
        l.wf(),
        b.subrange(i, i + 28) == enc_letter_json(l),
{
    assert(spec_letter_frame_json(b, i));
    assert(spec_is_upper_byte(b[i + 11]));
    let m = spec_symbol_of_byte(b[i + 25])->Some_0;
    assert(l == (SubmitLetter { letter: b[i + 11] as char, matches: m }));
    assert(l.wf());
    let e = enc_letter_json(l);
    lemma_enc_letter_json_index(l);
    assert(e[11] == l.letter as u8);
    assert((b[i + 11] as char) as u8 == b[i + 11]);
    assert(e[25] == spec_symbol_byte(m));
    assert(b[i + 25] == spec_symbol_byte(m));
    assert(b.subrange(i, i + 28) =~= e) by {
        assert(forall|k: int| 0 <= k < 11 ==> #[trigger] e[k] == json_letter_prefix()[k]);
        assert(forall|k: int| 12 <= k < 25 ==> #[trigger] e[k] == json_letter_infix()[k - 12]);
        assert(b[i + 0] == e[0]);
        assert(b[i + 1] == e[1]);
        assert(b[i + 2] == e[2]);
        assert(b[i + 3] == e[3]);
        assert(b[i + 4] == e[4]);
        assert(b[i + 5] == e[5]);
        assert(b[i + 6] == e[6]);
        assert(b[i + 7] == e[7]);
        assert(b[i + 8] == e[8]);
        assert(b[i + 9] == e[9]);
        assert(b[i + 10] == e[10]);
        assert(b[i + 12] == e[12]);
        assert(b[i + 13] == e[13]);
        assert(b[i + 14] == e[14]);
        assert(b[i + 15] == e[15]);
        assert(b[i + 16] == e[16]);
        assert(b[i + 17] == e[17]);
        assert(b[i + 18] == e[18]);
        assert(b[i + 19] == e[19]);
        assert(b[i + 20] == e[20]);
        assert(b[i + 21] == e[21]);
        assert(b[i + 22] == e[22]);
        assert(b[i + 23] == e[23]);
        assert(b[i + 24] == e[24]);
        assert(b[i + 26] == e[26]);
        assert(b[i + 27] == e[27]);
    }
}

proof fn lemma_p_letters_json_sound(b: Seq<u8>, i: int, n: int, w: Seq<SubmitLetter>, j: int)
    requires
        p_letters_json(b, i, n) == Some((w, j)),
    ensures
        w.len() == n,
        j == i + 29 * n - 1,
        j <= b.len(),
        forall|k: int| 0 <= k < w.len() ==> (#[trigger] w[k]).wf(),
        b.subrange(i, j) == enc_letters_json(w),
    decreases n,
{
    let l = p_letter_json(b, i)->Some_0;
    lemma_p_letter_json_sound(b, i, l);
    if n == 1 {
        assert(w == seq![l]);
        assert(w[0] == l);
        assert(enc_letters_json(w) == enc_letter_json(w[0]));
        assert(b.subrange(i, j) == enc_letters_json(w));
    } else {
        assert(b[i + 28] == ',' as u8);
        let (rest, j2) = p_letters_json(b, i + 29, n - 1)->Some_0;
        lemma_p_letters_json_sound(b, i + 29, n - 1, rest, j2);
        assert(w == seq![l] + rest);
        assert(w[0] == l);
        assert(w.drop_first() =~= rest);
        assert(enc_letters_json(w) == enc_letter_json(l) + seq![',' as u8] + enc_letters_json(
            rest,
        ));
        lemma_enc_letters_json_len(rest);
        assert(b.subrange(i, j) =~= enc_letters_json(w)) by {
            assert forall|k: int| 0 <= k < j - i implies b.subrange(i, j)[k] == enc_letters_json(
                w,
            )[k] by {
                if k < 28 {
                    assert(b[i + k] == b.subrange(i, i + 28)[k]);
                    assert(enc_letters_json(w)[k] == enc_letter_json(l)[k]);
                } else if k == 28 {
                    assert(enc_letters_json(w)[k] == ',' as u8);
                } else {
                    assert(b[i + k] == b.subrange(i + 29, j2)[k - 29]);
                    assert(b.subrange(i + 29, j2)[k - 29] == enc_letters_json(rest)[k - 29]);
                    assert(enc_letters_json(w)[k] == enc_letters_json(rest)[k - 29]);
                }
            }
        }
    }
}

proof fn lemma_p_word_json_sound(b: Seq<u8>, i: int, w: Seq<SubmitLetter>, j: int)
    requires
        p_word_json(b, i) == Some((w, j)),
    ensures
        spec_word_wf(w),
        j == i + 146,
        j <= b.len(),
        b.subrange(i, j) == enc_word_json(w),
{
    assert(b[i] == '[' as u8);
    let (letters, j2) = p_letters_json(b, i + 1, PUZZLE_LETTERS_COUNT as int)->Some_0;
    lemma_p_letters_json_sound(b, i + 1, PUZZLE_LETTERS_COUNT as int, letters, j2);
    assert(letters == w);
    assert(j2 == i + 145);
    assert(b[i + 145] == ']' as u8);
    assert(j == i + 146);
    lemma_enc_letters_json_len(w);
    assert(b.subrange(i, j) =~= enc_word_json(w)) by {
        assert forall|k: int| 0 <= k < 146 implies b.subrange(i, j)[k] == enc_word_json(w)[k] by {
            if k == 0 {
                assert(enc_word_json(w)[k] == '[' as u8);
            } else if k < 145 {
                assert(b[i + k] == b.subrange(i + 1, i + 145)[k - 1]);
                assert(b.subrange(i + 1, i + 145)[k - 1] == enc_letters_json(w)[k - 1]);
                assert(enc_word_json(w)[k] == enc_letters_json(w)[k - 1]);
            } else {
                assert(enc_word_json(w)[k] == ']' as u8);
            }
        }
    }
}

proof fn lemma_p_words_json_sound(
    b: Seq<u8>,
    i: int,
    fuel: int,
    ws: Seq<Seq<SubmitLetter>>,
    k: int,
)
    requires
        p_words_json(b, i, fuel) == Some((ws, k)),
    ensures
        1 <= ws.len(),
        spec_history_wf(ws),
        k == i + 147 * ws.len(),
        k <= b.len(),
        b.subrange(i, k - 1) == enc_words_json(ws),
        b[k - 1] == ']' as u8,
    decreases fuel,
{
    let (w, j) = p_word_json(b, i)->Some_0;
    lemma_p_word_json_sound(b, i, w, j);
    if j + 1 <= b.len() && b[j] == ']' as u8 {
        assert(ws == seq![w]);
        assert(ws[0] == w);
        assert(spec_history_wf(ws));
        assert(enc_words_json(ws) == enc_word_json(ws[0]));
        assert(k == i + 147);
        assert(b.subrange(i, k - 1) == enc_words_json(ws));
    } else {
        assert(b[j] == ',' as u8);
        let (rest, k2) = p_words_json(b, j + 1, fuel - 1)->Some_0;
        lemma_p_words_json_sound(b, j + 1, fuel - 1, rest, k2);
        assert(ws == seq![w] + rest);
        assert(ws[0] == w);
        assert(ws.drop_first() =~= rest);
        assert(spec_history_wf(ws)) by {
            assert forall|t: int| 0 <= t < ws.len() implies spec_word_wf(#[trigger] ws[t]) by {
                if t > 0 {
                    assert(ws[t] == rest[t - 1]);
                }
            }
        }
        assert(enc_words_json(ws) == enc_word_json(w) + seq![',' as u8] + enc_words_json(rest));
        assert(forall|t: int|
            0 <= t < rest.len() ==> (#[trigger] rest[t]).len() == PUZZLE_LETTERS_COUNT);
        lemma_enc_words_json_len(rest);
        assert(k == i + 147 * ws.len());
        assert(b.subrange(i, k - 1) =~= enc_words_json(ws)) by {
            assert forall|t: int| 0 <= t < k - 1 - i implies b.subrange(i, k - 1)[t]
                == enc_words_json(ws)[t] by {
                if t < 146 {
                    assert(b[i + t] == b.subrange(i, i + 146)[t]);
                    assert(enc_words_json(ws)[t] == enc_word_json(w)[t]);
                } else if t == 146 {
                    assert(b[i + t] == b[j]);
                    assert(enc_words_json(ws)[t] == ',' as u8);
                } else {
                    assert(b[i + t] == b.subrange(i + 147, k2 - 1)[t - 147]);
                    assert(b.subrange(i + 147, k2 - 1)[t - 147] == enc_words_json(rest)[t - 147]);
                    assert(enc_words_json(ws)[t] == enc_words_json(rest)[t - 147]);
                }
            }
        }
    }
}

/// Soundness of the parser: it accepts nothing but the exact JSON
/// encoding of a valid history, so each history has one stored form.
pub proof fn lemma_json_parse_sound(b: Seq<u8>, h: Seq<Seq<SubmitLetter>>)
    requires
        p_history_json(b) == Some(h),
    ensures
        spec_history_wf(h),
        b == enc_history_json(h),
{
    assert(b[0] == '[' as u8);
    if b.len() == 2 && b[1] == ']' as u8 {
        assert(h =~= Seq::<Seq<SubmitLetter>>::empty());
        assert(enc_history_json(h) =~= seq!['[' as u8, ']' as u8]);
        assert(b =~= enc_history_json(h));
    } else {
        let (ws, k) = p_words_json(b, 1, b.len() as int)->Some_0;
        lemma_p_words_json_sound(b, 1, b.len() as int, ws, k);
        assert(ws == h);
        assert(k == b.len());
        assert(b =~= enc_history_json(h)) by {
            assert forall|t: int| 0 <= t < b.len() implies b[t] == enc_history_json(h)[t] by {
                assert(forall|u: int|
                    0 <= u < h.len() ==> (#[trigger] h[u]).len() == PUZZLE_LETTERS_COUNT);
                lemma_enc_words_json_len(h);
                if t == 0 {
                    assert(enc_history_json(h)[t] == '[' as u8);
                } else if t < k - 1 {
                    assert(b[t] == b.subrange(1, k - 1)[t - 1]);
                    assert(b.subrange(1, k - 1)[t - 1] == enc_words_json(h)[t - 1]);
                    assert(enc_history_json(h)[t] == enc_words_json(h)[t - 1]);
                } else {
                    assert(b[t] == ']' as u8);
                    assert(enc_history_json(h)[t] == ']' as u8);
                }
            }
        }
    }
}

proof fn lemma_enc_letter_json_ascii(l: SubmitLetter)
    requires
        l.wf(),
    ensures
        forall|k: int| 0 <= k < enc_letter_json(l).len() ==> #[trigger] enc_letter_json(l)[k]
            < 128,
{
    lemma_enc_letter_json_index(l);
    let e = enc_letter_json(l);
    assert forall|k: int| 0 <= k < e.len() implies #[trigger] e[k] < 128 by {
        if k < 11 {
            assert(e[k] == json_letter_prefix()[k]);
        } else if k == 11 {
            assert(e[k] == l.letter as u8);
        } else if k < 25 {
            assert(e[k] == json_letter_infix()[k - 12]);
        } else if k == 25 {
            assert(e[k] == spec_symbol_byte(l.matches));
        }
    }
}

proof fn lemma_enc_letters_json_ascii(w: Seq<SubmitLetter>)
    requires
        forall|k: int| 0 <= k < w.len() ==> (#[trigger] w[k]).wf(),
    ensures
        forall|k: int| 0 <= k < enc_letters_json(w).len() ==> #[trigger] enc_letters_json(w)[k]
            < 128,
    decreases w.len(),
{
    let e = enc_letters_json(w);
    if w.len() == 1 {
        lemma_enc_letter_json_ascii(w[0]);
    } else if w.len() > 1 {
        let rest = w.drop_first();
        assert(forall|k: int| 0 <= k < rest.len() ==> (#[trigger] rest[k]).wf());
        lemma_enc_letters_json_ascii(rest);
        lemma_enc_letter_json_ascii(w[0]);
        assert(e == enc_letter_json(w[0]) + seq![',' as u8] + enc_letters_json(rest));
        assert forall|k: int| 0 <= k < e.len() implies #[trigger] e[k] < 128 by {
            if k < 28 {
                assert(e[k] == enc_letter_json(w[0])[k]);
            } else if k == 28 {
                assert(e[k] == ',' as u8);
            } else {
                assert(e[k] == enc_letters_json(rest)[k - 29]);
            }
        }
    }
}

proof fn lemma_enc_word_json_ascii(w: Seq<SubmitLetter>)
    requires
        forall|k: int| 0 <= k < w.len() ==> (#[trigger] w[k]).wf(),
    ensures
        forall|k: int| 0 <= k < enc_word_json(w).len() ==> #[trigger] enc_word_json(w)[k] < 128,
{
    lemma_enc_letters_json_ascii(w);
    let e = enc_word_json(w);
    let inner = enc_letters_json(w);
    assert forall|k: int| 0 <= k < e.len() implies #[trigger] e[k] < 128 by {
        if k == 0 {
            assert(e[k] == '[' as u8);
        } else if k < 1 + inner.len() {
            assert(e[k] == inner[k - 1]);
        } else {
            assert(e[k] == ']' as u8);
        }
    }
}

proof fn lemma_enc_words_json_ascii(h: Seq<Seq<SubmitLetter>>)
    requires
        spec_history_wf(h),
    ensures
        forall|k: int| 0 <= k < enc_words_json(h).len() ==> #[trigger] enc_words_json(h)[k]
            < 128,
    decreases h.len(),
{
    let e = enc_words_json(h);
    if h.len() == 1 {
        assert(spec_word_wf(h[0]));
        lemma_enc_word_json_ascii(h[0]);
    } else if h.len() > 1 {
        let rest = h.drop_first();
        assert(spec_history_wf(rest));
        lemma_enc_words_json_ascii(rest);
        assert(spec_word_wf(h[0]));
        lemma_enc_word_json_ascii(h[0]);
        assert(e == enc_word_json(h[0]) + seq![',' as u8] + enc_words_json(rest));
        let first = enc_word_json(h[0]);
        assert forall|k: int| 0 <= k < e.len() implies #[trigger] e[k] < 128 by {
            if k < first.len() {
                assert(e[k] == first[k]);
            } else if k == first.len() {
                assert(e[k] == ',' as u8);
            } else {
                assert(e[k] == enc_words_json(rest)[k - first.len() - 1]);
            }
        }
    }
}

proof fn lemma_enc_history_json_ascii(h: Seq<Seq<SubmitLetter>>)
    requires
        spec_history_wf(h),
    ensures
        forall|k: int| 0 <= k < enc_history_json(h).len() ==> #[trigger] enc_history_json(h)[k]
            < 128,
{
    lemma_enc_words_json_ascii(h);
    let e = enc_history_json(h);
    let inner = enc_words_json(h);
    assert forall|k: int| 0 <= k < e.len() implies #[trigger] e[k] < 128 by {
        if k == 0 {
            assert(e[k] == '[' as u8);
        } else if k < 1 + inner.len() {
            assert(e[k] == inner[k - 1]);
        } else {
            assert(e[k] == ']' as u8);
        }
    }
}

fn push_letter_prefix(out: &mut Vec<u8>)
    ensures
        final(out)@ == old(out)@ + json_letter_prefix(),
{
    out.push('{' as u8);
    out.push('"' as u8);
    out.push('l' as u8);
    out.push('e' as u8);
    out.push('t' as u8);
    out.push('t' as u8);
    out.push('e' as u8);
    out.push('r' as u8);
    out.push('"' as u8);
    out.push(':' as u8);
    out.push('"' as u8);
    proof {
        assert(out@ =~= old(out)@ + json_letter_prefix());
    }
}

fn push_letter_infix(out: &mut Vec<u8>)
    ensures
        final(out)@ == old(out)@ + json_letter_infix(),
{
    out.push('"' as u8);
    out.push(',' as u8);
    out.push('"' as u8);
    out.push('m' as u8);
    out.push('a' as u8);
    out.push('t' as u8);
    out.push('c' as u8);
    out.push('h' as u8);
    out.push('e' as u8);
    out.push('s' as u8);
    out.push('"' as u8);
    out.push(':' as u8);
    out.push('"' as u8);
    proof {
        assert(out@ =~= old(out)@ + json_letter_infix());
    }
}

fn write_letter_json(out: &mut Vec<u8>, l: SubmitLetter)
    requires
        l.wf(),
    ensures
        final(out)@ == old(out)@ + enc_letter_json(l),
{
    push_letter_prefix(out);
    out.push(l.letter as u8);
    push_letter_infix(out);
    out.push(symbol_byte(l.matches));
    out.push('"' as u8);
    out.push('}' as u8);
    proof {
        assert(out@ =~= old(out)@ + enc_letter_json(l));
    }
}

fn write_letters_json(out: &mut Vec<u8>, w: &Vec<SubmitLetter>, i: usize)
    requires
        i < w@.len(),
        forall|k: int| 0 <= k < w@.len() ==> (#[trigger] w@[k]).wf(),
    ensures
        final(out)@ == old(out)@ + enc_letters_json(w@.skip(i as int)),
    decreases w@.len() - i,
{
    let l = w[i];
    let ghost suffix = w@.skip(i as int);
    proof {
        assert(suffix[0] == w@[i as int]);
        assert(w@[i as int].wf());
    }
    write_letter_json(out, l);
    let n = w.len();
    if n - i > 1 {
        out.push(',' as u8);
        write_letters_json(out, w, i + 1);
        proof {
            assert(suffix.drop_first() =~= w@.skip(i as int + 1));
            assert(enc_letters_json(suffix) == enc_letter_json(suffix[0]) + seq![',' as u8]
                + enc_letters_json(suffix.drop_first()));
            assert(out@ =~= old(out)@ + enc_letters_json(suffix));
        }
    } else {
        proof {
            assert(suffix.len() == 1);
            assert(enc_letters_json(suffix) == enc_letter_json(suffix[0]));
            assert(out@ =~= old(out)@ + enc_letters_json(suffix));
        }
    }
}

fn write_word_json(out: &mut Vec<u8>, w: &SubmitWord)
    requires
        w.wf(),
    ensures
        final(out)@ == old(out)@ + enc_word_json(w@),
{
    out.push('[' as u8);
    write_letters_json(out, w.letters_ref(), 0);
    out.push(']' as u8);
    proof {
        assert(w@.skip(0) =~= w@);
        assert(out@ =~= old(out)@ + enc_word_json(w@));
    }
}

fn write_words_json(out: &mut Vec<u8>, h: &Vec<SubmitWord>, i: usize)
    requires
        i < h@.len(),
        forall|k: int| 0 <= k < h@.len() ==> spec_word_wf(#[trigger] h@[k]@),
    ensures
        final(out)@ == old(out)@ + enc_words_json(
            h@.map_values(|w: SubmitWord| w@).skip(i as int),
        ),
    decreases h@.len() - i,
{
    let ghost suffix = h@.map_values(|w: SubmitWord| w@).skip(i as int);
    proof {
        assert(suffix[0] == h@[i as int]@);
    }
    write_word_json(out, &h[i]);
    let n = h.len();
    if n - i > 1 {
        out.push(',' as u8);
        write_words_json(out, h, i + 1);
        proof {
            assert(suffix.drop_first() =~= h@.map_values(|w: SubmitWord| w@).skip(i as int + 1));
            assert(enc_words_json(suffix) == enc_word_json(suffix[0]) + seq![',' as u8]
                + enc_words_json(suffix.drop_first()));
            assert(out@ =~= old(out)@ + enc_words_json(suffix));
        }
    } else {
        proof {
            assert(suffix.len() == 1);
            assert(enc_words_json(suffix) == enc_word_json(suffix[0]));
            assert(out@ =~= old(out)@ + enc_words_json(suffix));
        }
    }
}

fn parse_letter_json(b: &Vec<u8>, i: usize) -> (r: Option<SubmitLetter>)
    ensures
        r == p_letter_json(b@, i as int),
        r matches Some(l) ==> l.wf(),
{
    let blen = b.len();
    if !(i < blen && blen - i >= 28) {
        return None;
    }
    let frame_ok = b[i] == 123 && b[i + 1] == 34 && b[i + 2] == 108 && b[i + 3] == 101 && b[i
        + 4] == 116 && b[i + 5] == 116 && b[i + 6] == 101 && b[i + 7] == 114 && b[i + 8] == 34
        && b[i + 9] == 58 && b[i + 10] == 34 && b[i + 12] == 34 && b[i + 13] == 44 && b[i + 14]
        == 34 && b[i + 15] == 109 && b[i + 16] == 97 && b[i + 17] == 116 && b[i + 18] == 99 && b[i
        + 19] == 104 && b[i + 20] == 101 && b[i + 21] == 115 && b[i + 22] == 34 && b[i + 23] == 58
        && b[i + 24] == 34 && b[i + 26] == 34 && b[i + 27] == 125;
    if !frame_ok {
        return None;
    }
    let x = b[i + 11];
    if !(65 <= x && x <= 90) {
        return None;
    }
    let y = b[i + 25];
    if y == 43 {
        Some(SubmitLetter { letter: x as char, matches: Matches::Yes })
    } else if y == 63 {
        Some(SubmitLetter { letter: x as char, matches: Matches::Partially })
    } else if y == 45 {
        Some(SubmitLetter { letter: x as char, matches: Matches::No })
    } else {
        None
    }
}

fn parse_letters_json(b: &Vec<u8>, i: usize, n: usize) -> (r: Option<(Vec<SubmitLetter>, usize)>)
    ensures
        r matches Some(p) ==> (p_letters_json(b@, i as int, n as int) == Some(
            (p.0@, p.1 as int),
        ) && p.0@.len() == n && (forall|k: int| 0 <= k < p.0@.len() ==> (#[trigger] p.0@[k]).wf())
            && p.1 <= b@.len()),
        r is None ==> p_letters_json(b@, i as int, n as int) is None,
    decreases n,
{
    if n < 1 {
        return None;
    }
    match parse_letter_json(b, i) {
        None => None,
        Some(l) => {
            let blen = b.len();
            proof {
                assert(i + 28 <= blen);
            }
            if n == 1 {
                let mut w: Vec<SubmitLetter> = Vec::new();
                w.push(l);
                proof {
                    assert(w@ =~= seq![l]);
                }
                Some((w, i + 28))
            } else if blen - i >= 29 && b[i + 28] == 44 {
                match parse_letters_json(b, i + 29, n - 1) {
                    None => None,
                    Some((rest, j)) => {
                        let mut w = rest;
                        w.insert(0, l);
                        proof {
                            assert(w@ =~= seq![l] + w@.subrange(1, w@.len() as int));
                            assert(w@.subrange(1, w@.len() as int) =~= w@.drop_first());
                        }
                        Some((w, j))
                    },
                }
            } else {
                None
            }
        },
    }
}

fn parse_word_json(b: &Vec<u8>, i: usize) -> (r: Option<(SubmitWord, usize)>)
    ensures
        r matches Some(p) ==> (p_word_json(b@, i as int) == Some((p.0@, p.1 as int)) && p.0.wf()
            && p.1 <= b@.len()),
        r is None ==> p_word_json(b@, i as int) is None,
{
    let blen = b.len();
    if !(i < blen) {
        return None;
    }
    if b[i] != 91 {
        return None;
    }
    match parse_letters_json(b, i + 1, PUZZLE_LETTERS_COUNT) {
        None => None,
        Some((letters, j)) => {
            if j < blen && b[j] == 93 {
                let w = SubmitWord::new(letters);
                Some((w, j + 1))
            } else {
                None
            }
        },
    }
}

fn parse_words_json(b: &Vec<u8>, i: usize, fuel: usize) -> (r: Option<(Vec<SubmitWord>, usize)>)
    ensures
        r matches Some(p) ==> (p_words_json(b@, i as int, fuel as int) == Some(
            (p.0@.map_values(|w: SubmitWord| w@), p.1 as int),
        ) && (forall|k: int| 0 <= k < p.0@.len() ==> (#[trigger] p.0@[k]).wf()) && p.1
            <= b@.len()),
        r is None ==> p_words_json(b@, i as int, fuel as int) is None,
    decreases fuel,
{
    if fuel < 1 {
        return None;
    }
    match parse_word_json(b, i) {
        None => None,
        Some((w, j)) => {
            let blen = b.len();
            if j < blen && b[j] == 93 {
                let mut ws: Vec<SubmitWord> = Vec::new();
                let ghost wv = w@;
                ws.push(w);
                proof {
                    assert(ws@.map_values(|x: SubmitWord| x@) =~= seq![wv]);
                }
                Some((ws, j + 1))
            } else if j < blen && b[j] == 44 {
                match parse_words_json(b, j + 1, fuel - 1) {
                    None => None,
                    Some((rest, k)) => {
                        let ghost rest_map = rest@.map_values(|x: SubmitWord| x@);
                        let ghost wv = w@;
                        let mut ws = rest;
                        ws.insert(0, w);
                        proof {
                            assert(ws@.map_values(|x: SubmitWord| x@) =~= seq![wv] + rest_map);
                        }
                        Some((ws, k))
                    },
                }
            } else {
                None
            }
        },
    }
}

impl SubmitWord {
    /// The JSON array of this scored word, as bytes.
    pub fn to_json_bytes(&self) -> (r: Vec<u8>)
        requires
            self.wf(),
        ensures
            r@ == enc_word_json(self@),
    {
        let mut out: Vec<u8> = Vec::new();
        write_word_json(&mut out, self);
        proof {
            assert(out@ =~= enc_word_json(self@));
        }
        out
    }

    /// The JSON array of this scored word, e.g.
    /// `[{"letter":"R","matches":"+"},...]`.
    pub fn to_json(&self) -> (r: String)
        requires
            self.wf(),
        ensures
            r@ =~= enc_word_json(self@).map_values(|x: u8| x as char),
    {
        let bytes = self.to_json_bytes();
        proof {
            lemma_enc_word_json_ascii(self@);
        }
        let s = ascii_bytes_to_string(bytes);
        proof {
            assert(s@ =~= enc_word_json(self@).map_values(|x: u8| x as char));
        }
        s
    }

    /// Parses a JSON array back into a scored word; `None` if the buffer
    /// is not exactly the encoding of one valid word.
    pub fn from_json_bytes(b: &Vec<u8>) -> (r: Option<SubmitWord>)
        ensures
            r matches Some(w) ==> spec_word_from_json(b@) == Some(w@) && w.wf(),
            r is None ==> spec_word_from_json(b@) is None,
    {
        match parse_word_json(b, 0) {
            Some((w, j)) => {
                if j == b.len() {
                    Some(w)
                } else {
                    None
                }
            },
            None => None,
        }
    }

    /// Parses the JSON textual form back into a scored word.
    pub fn from_json(s: &str) -> (r: Option<SubmitWord>)
        ensures
            r matches Some(w) ==> spec_word_from_json(s.spec_bytes()) == Some(w@) && w.wf(),
            r is None ==> spec_word_from_json(s.spec_bytes()) is None,
    {
        let b = s.as_bytes_vec();
        SubmitWord::from_json_bytes(&b)
    }
}

impl SubmitHistory {
    /// The JSON array of this history, as bytes.
    pub fn to_json_bytes(&self) -> (r: Vec<u8>)
        requires
            self.wf(),
        ensures
            r@ == enc_history_json(self@),
    {
        let mut out: Vec<u8> = Vec::new();
        out.push('[' as u8);
        let words = self.words_ref();
        if words.len() > 0 {
            proof {
                assert forall|k: int| 0 <= k < words@.len() implies spec_word_wf(
                    #[trigger] words@[k]@,
                ) by {
                    assert(words@[k]@ == self@[k]);
                    assert(spec_word_wf(self@[k]));
                }
            }
            write_words_json(&mut out, words, 0);
            proof {
                assert(words@.map_values(|w: SubmitWord| w@).skip(0) =~= self@);
            }
        } else {
            proof {
                assert(self@ =~= Seq::<Seq<SubmitLetter>>::empty());
                assert(enc_words_json(self@) == Seq::<u8>::empty());
            }
        }
        out.push(']' as u8);
        proof {
            assert(out@ =~= enc_history_json(self@));
        }
        out
    }

    /// The JSON persisted form of this history: an array of scored words,
    /// each an array of letter objects.
    pub fn to_json(&self) -> (r: String)
        requires
            self.wf(),
        ensures
            r@ =~= enc_history_json(self@).map_values(|x: u8| x as char),
    {
        let bytes = self.to_json_bytes();
        proof {
            lemma_enc_history_json_ascii(self@);
        }
        let s = ascii_bytes_to_string(bytes);
        proof {
            assert(s@ =~= enc_history_json(self@).map_values(|x: u8| x as char));
        }
        s
    }

    /// Parses the JSON persisted form back into a history; `None` if the
    /// buffer is not exactly the encoding of one valid history.
    pub fn from_json_bytes(b: &Vec<u8>) -> (r: Option<SubmitHistory>)
        ensures
            r matches Some(h) ==> p_history_json(b@) == Some(h@) && h.wf(),
            r is None ==> p_history_json(b@) is None,
    {
        let blen = b.len();
        if !(blen >= 2 && b[0] == 91) {
            return None;
        }
        if blen == 2 && b[1] == 93 {
            let h = SubmitHistory::new();
            proof {
                assert(p_history_json(b@) == Some(Seq::<Seq<SubmitLetter>>::empty()));
            }
            return Some(h);
        }
        match parse_words_json(b, 1, blen) {
            Some((ws, k)) => {
                if k == blen {
                    let ghost ws_map = ws@.map_values(|w: SubmitWord| w@);
                    let h = SubmitHistory::from_words(ws);
                    proof {
                        assert(h@ =~= ws_map);
                    }
                    Some(h)
                } else {
                    None
                }
            },
            None => None,
        }
    }

    /// Parses the JSON textual form back into a history.
    pub fn from_json(s: &str) -> (r: Option<SubmitHistory>)
        ensures
            r matches Some(h) ==> p_history_json(s.spec_bytes()) == Some(h@) && h.wf(),
            r is None ==> p_history_json(s.spec_bytes()) is None,
    {
        let b = s.as_bytes_vec();
        SubmitHistory::from_json_bytes(&b)
    }
}

} // verus!
