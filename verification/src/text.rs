//! The compact textual wire form of a scored word: each letter followed by
//! its match symbol, comma-joined, e.g. `R+,U-,S?,T+,Y?`.

use vstd::prelude::*;
use vstd::string::StringSliceAdditionalSpecFns;

use crate::ascii::ascii_bytes_to_string;
use crate::matching::{spec_symbol, Matches};
use crate::submit_letter::SubmitLetter;
use crate::submit_word::{spec_word_wf, SubmitWord};
use crate::PUZZLE_LETTERS_COUNT;

verus! {

/// The symbol byte of a classification: `+`, `?` or `-`.
pub open spec fn spec_symbol_byte(m: Matches) -> u8 {
    spec_symbol(m) as u8
}

/// The classification a symbol byte stands for, if any.
pub open spec fn spec_symbol_of_byte(x: u8) -> Option<Matches> {
    if x == '+' as u8 {
        Some(Matches::Yes)
    } else if x == '?' as u8 {
        Some(Matches::Partially)
    } else if x == '-' as u8 {
        Some(Matches::No)
    } else {
        None
    }
}

/// Whether a byte is an ASCII uppercase letter.
pub open spec fn spec_is_upper_byte(x: u8) -> bool {
    'A' as u8 <= x && x <= 'Z' as u8
}

/// The two bytes of one scored letter: the letter then its symbol.
pub open spec fn enc_letter_text(l: SubmitLetter) -> Seq<u8> {
    seq![l.letter as u8, spec_symbol_byte(l.matches)]
}

/// The compact text of a scored word: letter encodings joined by commas.
pub open spec fn enc_word_text(w: Seq<SubmitLetter>) -> Seq<u8>
    decreases w.len(),
{
    if w.len() == 0 {
        Seq::empty()
    } else if w.len() == 1 {
        enc_letter_text(w[0])
    } else {
        enc_letter_text(w[0]) + seq![',' as u8] + enc_word_text(w.drop_first())
    }
}

/// Reads one scored letter at position `i`: an uppercase letter byte
/// followed by a symbol byte.
pub open spec fn p_letter_text(b: Seq<u8>, i: int) -> Option<SubmitLetter> {
    if 0 <= i && i + 2 <= b.len() && spec_is_upper_byte(b[i]) {
        match spec_symbol_of_byte(b[i + 1]) {
            Some(m) => Some(SubmitLetter { letter: b[i] as char, matches: m }),
            None => None,
        }
    } else {
        None
    }
}

/// Reads `n` comma-separated scored letters starting at position `i`,
/// returning them with the position past the last one.
pub open spec fn p_letters_text(b: Seq<u8>, i: int, n: int) -> Option<(Seq<SubmitLetter>, int)>
    decreases n,
{
    if n < 1 {
        None
    } else {
        match p_letter_text(b, i) {
            None => None,
            Some(l) => if n == 1 {
                Some((seq![l], i + 2))
            } else if i + 3 <= b.len() && b[i + 2] == ',' as u8 {
                match p_letters_text(b, i + 3, n - 1) {
                    None => None,
                    Some((rest, j)) => Some((seq![l] + rest, j)),
                }
            } else {
                None
            },
        }
    }
}

/// Parses a whole buffer as the compact text of a scored word.
pub open spec fn spec_word_from_text(b: Seq<u8>) -> Option<Seq<SubmitLetter>> {
    match p_letters_text(b, 0, PUZZLE_LETTERS_COUNT as int) {
        Some((w, j)) => if j == b.len() {
            Some(w)
        } else {
            None
        },
        None => None,
    }
}

/// The compact text of `n` letters takes `3n - 1` bytes.
pub proof fn lemma_enc_word_text_len(w: Seq<SubmitLetter>)
    requires
        w.len() >= 1,
    ensures
        enc_word_text(w).len() == 3 * w.len() - 1,
    decreases w.len(),
{
    if w.len() > 1 {
        lemma_enc_word_text_len(w.drop_first());
    }
}

proof fn lemma_enc_letter_text_ascii(l: SubmitLetter)
    requires
        l.wf(),
    ensures
        forall|k: int| 0 <= k < 2 ==> #[trigger] enc_letter_text(l)[k] < 128,
{
    assert(enc_letter_text(l)[0] == l.letter as u8);
    assert(enc_letter_text(l)[1] == spec_symbol_byte(l.matches));
}

proof fn lemma_enc_word_text_ascii(w: Seq<SubmitLetter>)
    requires
        forall|k: int| 0 <= k < w.len() ==> (#[trigger] w[k]).wf(),
    ensures
        forall|k: int| 0 <= k < enc_word_text(w).len() ==> #[trigger] enc_word_text(w)[k] < 128,
    decreases w.len(),
{
    let e = enc_word_text(w);
    if w.len() == 1 {
        lemma_enc_letter_text_ascii(w[0]);
    } else if w.len() > 1 {
        let rest = w.drop_first();
        assert(forall|k: int| 0 <= k < rest.len() ==> (#[trigger] rest[k]).wf());
        lemma_enc_word_text_ascii(rest);
        lemma_enc_letter_text_ascii(w[0]);
        assert(e == enc_letter_text(w[0]) + seq![',' as u8] + enc_word_text(rest));
        assert forall|k: int| 0 <= k < e.len() implies #[trigger] e[k] < 128 by {
            if k < 2 {
                assert(e[k] == enc_letter_text(w[0])[k]);
            } else if k == 2 {
                assert(e[k] == ',' as u8);
            } else {
                assert(e[k] == enc_word_text(rest)[k - 3]);
            }
        }
    }
}

proof fn lemma_p_letters_enc(b: Seq<u8>, i: int, w: Seq<SubmitLetter>)
    requires
        1 <= w.len(),
        forall|k: int| 0 <= k < w.len() ==> (#[trigger] w[k]).wf(),
        0 <= i,
        i + 3 * w.len() - 1 <= b.len(),
        b.subrange(i, i + 3 * w.len() - 1) == enc_word_text(w),
    ensures
        p_letters_text(b, i, w.len() as int) == Some((w, i + 3 * w.len() - 1)),
    decreases w.len(),
{
    lemma_enc_word_text_len(w);
    let e = enc_word_text(w);
    assert(b[i] == e[0]);
    assert(b[i + 1] == e[1]);
    assert(w[0].wf());
    assert(e[0] == w[0].letter as u8);
    assert(e[1] == spec_symbol_byte(w[0].matches));
    assert(spec_is_upper_byte(b[i]));
    assert(spec_symbol_of_byte(b[i + 1]) == Some(w[0].matches));
    assert((b[i] as char) == w[0].letter);
    assert(p_letter_text(b, i) == Some(w[0]));
    if w.len() == 1 {
        assert(p_letters_text(b, i, 1) == Some((seq![w[0]], i + 2)));
        assert(seq![w[0]] =~= w);
    } else {
        let rest = w.drop_first();
        lemma_enc_word_text_len(rest);
        assert(e == enc_letter_text(w[0]) + seq![',' as u8] + enc_word_text(rest));
        assert(b[i + 2] == e[2]);
        assert(e[2] == ',' as u8);
        assert(b.subrange(i + 3, i + 3 + 3 * rest.len() - 1) =~= enc_word_text(rest)) by {
            assert forall|k: int| 0 <= k < 3 * rest.len() - 1 implies b.subrange(
                i + 3,
                i + 3 + 3 * rest.len() - 1,
            )[k] == enc_word_text(rest)[k] by {
                assert(b[i + 3 + k] == e[3 + k]);
                assert(e[3 + k] == enc_word_text(rest)[k]);
            }
        }
        lemma_p_letters_enc(b, i + 3, rest);
        assert(seq![w[0]] + rest =~= w);
    }
}

/// Round-trip: parsing the compact text of a valid scored word yields the
/// word back.
pub proof fn lemma_text_round_trip(w: Seq<SubmitLetter>)
    requires
        spec_word_wf(w),
    ensures
        spec_word_from_text(enc_word_text(w)) == Some(w),
{
    let b = enc_word_text(w);
    lemma_enc_word_text_len(w);
    assert(b.subrange(0, 3 * w.len() - 1) =~= b);
    lemma_p_letters_enc(b, 0, w);
}

/// Round-trip at the string boundary: the text [`SubmitWord::to_text`]
/// returns decodes, through the specification of
/// [`SubmitWord::from_text`], to the same word view.
pub proof fn lemma_text_string_round_trip(w: Seq<SubmitLetter>, s: Seq<char>)
    requires
        spec_word_wf(w),
        s =~= enc_word_text(w).map_values(|x: u8| x as char),
    ensures
        spec_word_from_text(vstd::utf8::encode_utf8(s)) == Some(w),
{
    lemma_enc_word_text_ascii(w);
    crate::ascii::lemma_ascii_chars_bytes(enc_word_text(w));
    lemma_text_round_trip(w);
}

proof fn lemma_p_letters_text_sound(b: Seq<u8>, i: int, n: int, w: Seq<SubmitLetter>, j: int)
    requires
        p_letters_text(b, i, n) == Some((w, j)),
    ensures
        w.len() == n,
        j == i + 3 * n - 1,
        j <= b.len(),
        forall|k: int| 0 <= k < w.len() ==> (#[trigger] w[k]).wf(),
        b.subrange(i, j) == enc_word_text(w),
    decreases n,
{
    let l = p_letter_text(b, i)->Some_0;
    assert(spec_is_upper_byte(b[i]));
    assert(l.wf());
    assert(b[i] == l.letter as u8);
    assert(b[i + 1] == spec_symbol_byte(l.matches));
    if n == 1 {
        assert(w == seq![l]);
        assert(w[0] == l);
        assert(enc_word_text(w) == enc_letter_text(w[0]));
        assert(b.subrange(i, j) =~= enc_word_text(w));
    } else {
        assert(b[i + 2] == ',' as u8);
        let (rest, j2) = p_letters_text(b, i + 3, n - 1)->Some_0;
        lemma_p_letters_text_sound(b, i + 3, n - 1, rest, j2);
        assert(w == seq![l] + rest);
        assert(w[0] == l);
        assert(w.drop_first() =~= rest);
        assert(enc_word_text(w) == enc_letter_text(l) + seq![',' as u8] + enc_word_text(rest));
        lemma_enc_word_text_len(rest);
        assert(b.subrange(i, j) =~= enc_word_text(w)) by {
            assert forall|k: int| 0 <= k < j - i implies b.subrange(i, j)[k] == enc_word_text(
                w,
            )[k] by {
                if k < 2 {
                    assert(enc_word_text(w)[k] == enc_letter_text(l)[k]);
                } else if k == 2 {
                    assert(enc_word_text(w)[k] == ',' as u8);
                } else {
                    assert(b[i + k] == b.subrange(i + 3, j2)[k - 3]);
                    assert(b.subrange(i + 3, j2)[k - 3] == enc_word_text(rest)[k - 3]);
                    assert(enc_word_text(w)[k] == enc_word_text(rest)[k - 3]);
                }
            }
        }
    }
}

/// Soundness of the parser: it accepts nothing but the exact compact
/// text of a valid scored word, so each word has one textual form.
pub proof fn lemma_text_parse_sound(b: Seq<u8>, w: Seq<SubmitLetter>)
    requires
        spec_word_from_text(b) == Some(w),
    ensures
        spec_word_wf(w),
        b == enc_word_text(w),
{
    let (parsed, j) = p_letters_text(b, 0, PUZZLE_LETTERS_COUNT as int)->Some_0;
    lemma_p_letters_text_sound(b, 0, PUZZLE_LETTERS_COUNT as int, parsed, j);
    assert(b.subrange(0, j) =~= b);
}

pub(crate) fn symbol_byte(m: Matches) -> (r: u8)
    ensures
        r == spec_symbol_byte(m),
{
    match m {
        Matches::Yes => 43,
        Matches::Partially => 63,
        Matches::No => 45,
    }
}

fn write_letters_text(out: &mut Vec<u8>, w: &Vec<SubmitLetter>, i: usize)
    requires
        i < w@.len(),
        forall|k: int| 0 <= k < w@.len() ==> (#[trigger] w@[k]).wf(),
    ensures
        final(out)@ == old(out)@ + enc_word_text(w@.skip(i as int)),
    decreases w@.len() - i,
{
    let l = w[i];
    let ghost suffix = w@.skip(i as int);
    proof {
        assert(suffix[0] == w@[i as int]);
        assert(w@[i as int].wf());
    }
    out.push(l.letter as u8);
    out.push(symbol_byte(l.matches));
    let n = w.len();
    if n - i > 1 {
        out.push(44);
        write_letters_text(out, w, i + 1);
        proof {
            assert(suffix.drop_first() =~= w@.skip(i as int + 1));
            assert(enc_word_text(suffix) == enc_letter_text(suffix[0]) + seq![',' as u8]
                + enc_word_text(suffix.drop_first()));
            assert(out@ =~= old(out)@ + enc_word_text(suffix));
        }
    } else {
        proof {
            assert(suffix.len() == 1);
            assert(enc_word_text(suffix) == enc_letter_text(suffix[0]));
            assert(out@ =~= old(out)@ + enc_word_text(suffix));
        }
    }
}

fn parse_letter_text(b: &Vec<u8>, i: usize) -> (r: Option<SubmitLetter>)
    ensures
        r == p_letter_text(b@, i as int),
{
    if i < b.len() && b.len() - i >= 2 {
        let x = b[i];
        let y = b[i + 1];
        if 65 <= x && x <= 90 {
            if y == 43 {
                Some(SubmitLetter { letter: x as char, matches: Matches::Yes })
            } else if y == 63 {
                Some(SubmitLetter { letter: x as char, matches: Matches::Partially })
            } else if y == 45 {
                Some(SubmitLetter { letter: x as char, matches: Matches::No })
            } else {
                None
            }
        } else {
            None
        }
    } else {
        None
    }
}

fn parse_letters_text(b: &Vec<u8>, i: usize, n: usize) -> (r: Option<(Vec<SubmitLetter>, usize)>)
    ensures
        r matches Some(p) ==> p_letters_text(b@, i as int, n as int) == Some(
            (p.0@, p.1 as int),
        ),
        r is None ==> p_letters_text(b@, i as int, n as int) is None,
    decreases n,
{
    if n < 1 {
        return None;
    }
    match parse_letter_text(b, i) {
        None => None,
        Some(l) => {
            if n == 1 {
                let blen = b.len();
                proof {
                    assert(i + 2 <= blen);
                }
                let mut w: Vec<SubmitLetter> = Vec::new();
                w.push(l);
                proof {
                    assert(w@ =~= seq![l]);
                }
                Some((w, i + 2))
            } else if b.len() - i >= 3 && b[i + 2] == 44 {
                match parse_letters_text(b, i + 3, n - 1) {
                    None => None,
                    Some((rest, j)) => {
                        let mut w: Vec<SubmitLetter> = Vec::new();
                        w.push(l);
                        let mut k: usize = 0;
                        let rest_len = rest.len();
                        while k < rest_len
                            invariant
                                rest_len == rest@.len(),
                                0 <= k <= rest_len,
                                w@ =~= seq![l] + rest@.take(k as int),
                            decreases rest_len - k,
                        {
                            w.push(rest[k]);
                            k += 1;
                        }
                        proof {
                            assert(w@ =~= seq![l] + rest@);
                        }
                        Some((w, j))
                    },
                }
            } else {
                None
            }
        },
    }
}

impl SubmitWord {
    /// The compact textual form of this scored word, e.g. `R+,U-,S?,T+,Y?`.
    pub fn to_text(&self) -> (r: String)
        requires
            self.wf(),
        ensures
            r@ =~= enc_word_text(self@).map_values(|x: u8| x as char),
    {
        let mut out: Vec<u8> = Vec::new();
        write_letters_text(&mut out, self.letters_ref(), 0);
        proof {
            assert(self@.skip(0) =~= self@);
            lemma_enc_word_text_ascii(self@);
        }
        let s = ascii_bytes_to_string(out);
        proof {
            assert(s@ =~= enc_word_text(self@).map_values(|x: u8| x as char));
        }
        s
    }

    /// Parses the compact textual form back into a scored word; `None` if
    /// the text is not exactly the encoding of one valid word.
    pub fn from_text(s: &str) -> (r: Option<SubmitWord>)
        ensures
            r matches Some(w) ==> spec_word_from_text(s.spec_bytes()) == Some(w@) && w.wf(),
            r is None ==> spec_word_from_text(s.spec_bytes()) is None,
    {
        let b = s.as_bytes_vec();
        match parse_letters_text(&b, 0, PUZZLE_LETTERS_COUNT) {
            Some((w, j)) => {
                if j == b.len() {
                    proof {
                        lemma_p_letters_text_sound(
                            b@,
                            0,
                            PUZZLE_LETTERS_COUNT as int,
                            w@,
                            j as int,
                        );
                    }
                    Some(SubmitWord::new(w))
                } else {
                    None
                }
            },
            None => None,
        }
    }
}

} // verus!
