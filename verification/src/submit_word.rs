//! A scored guess: the two-pass letter matcher and the word of scored
//! letters it produces.

use vstd::multiset::Multiset;
use vstd::prelude::*;

use crate::ascii::{spec_is_lower, spec_to_upper, to_upper};
use crate::matching::Matches;
use crate::puzzle_solution::PuzzleSolution;
use crate::submit_letter::SubmitLetter;
use crate::PUZZLE_LETTERS_COUNT;

verus! {

broadcast use vstd::multiset::group_multiset_axioms;

/// The ASCII lowercase letter with alphabet position `k` (0 is `'a'`).
pub open spec fn spec_lower_letter(k: int) -> char {
    ((k + 97) as u8) as char
}

/// The multiset of solution letters at positions `i..` that the exact pass
/// leaves unclaimed: those whose guess letter differs. These letters are
/// the budget the partial pass may consume.
pub open spec fn spec_leftover(g: Seq<char>, s: Seq<char>, i: int) -> Multiset<char>
    decreases s.len() - i,
{
    if i < 0 || i >= s.len() {
        Multiset::empty()
    } else {
        let rest = spec_leftover(g, s, i + 1);
        if g[i] == s[i] {
            rest
        } else {
            rest.insert(s[i])
        }
    }
}

/// The classifications of guess positions `i..`, walking left to right:
/// an exact match is always `Yes`; otherwise the position is `Partially`
/// exactly when the budget `rem` still carries the guessed letter, and the
/// budget loses one copy of it.
pub open spec fn spec_marks(g: Seq<char>, s: Seq<char>, i: int, rem: Multiset<char>) -> Seq<
    Matches,
>
    decreases g.len() - i,
{
    if i < 0 || i >= g.len() {
        Seq::empty()
    } else if g[i] == s[i] {
        seq![Matches::Yes] + spec_marks(g, s, i + 1, rem)
    } else if rem.count(g[i]) > 0 {
        seq![Matches::Partially] + spec_marks(g, s, i + 1, rem.remove(g[i]))
    } else {
        seq![Matches::No] + spec_marks(g, s, i + 1, rem)
    }
}

/// The two-pass classification of guess `g` against solution `s`: exact
/// matches claim their solution letters first, then partial matches are
/// fed left to right from the unclaimed letters.
pub open spec fn spec_match(g: Seq<char>, s: Seq<char>) -> Seq<Matches> {
    spec_marks(g, s, 0, spec_leftover(g, s, 0))
}

/// The scored guess the matcher returns: each guess letter uppercased for
/// display and paired with its classification.
pub open spec fn spec_tint(g: Seq<char>, s: Seq<char>) -> Seq<SubmitLetter> {
    Seq::new(
        g.len(),
        |i: int|
            SubmitLetter { letter: spec_to_upper(g[i]), matches: spec_match(g, s)[i] },
    )
}

/// Number of positions where the guess letter is `c` and the
/// classification credits it with a match, exact or partial.
pub open spec fn spec_credited(g: Seq<char>, m: Seq<Matches>, c: char) -> int
    decreases g.len(),
{
    if g.len() == 0 || m.len() == 0 {
        0
    } else {
        (if g[0] == c && m[0] != Matches::No {
            1int
        } else {
            0int
        }) + spec_credited(g.drop_first(), m.drop_first(), c)
    }
}

/// Number of occurrences of `c` in `s`.
pub open spec fn spec_occurrences(s: Seq<char>, c: char) -> int
    decreases s.len(),
{
    if s.len() == 0 {
        0
    } else {
        (if s[0] == c {
            1int
        } else {
            0int
        }) + spec_occurrences(s.drop_first(), c)
    }
}

/// Number of exact matches on letter `c` at positions `i..`.
spec fn spec_exact_credits(g: Seq<char>, s: Seq<char>, c: char, i: int) -> int
    decreases g.len() - i,
{
    if i < 0 || i >= g.len() {
        0
    } else {
        (if g[i] == c && g[i] == s[i] {
            1int
        } else {
            0int
        }) + spec_exact_credits(g, s, c, i + 1)
    }
}

proof fn lemma_marks_len(g: Seq<char>, s: Seq<char>, i: int, rem: Multiset<char>)
    requires
        0 <= i <= g.len(),
    ensures
        spec_marks(g, s, i, rem).len() == g.len() - i,
    decreases g.len() - i,
{
    if i < g.len() {
        if g[i] == s[i] {
            lemma_marks_len(g, s, i + 1, rem);
        } else if rem.count(g[i]) > 0 {
            lemma_marks_len(g, s, i + 1, rem.remove(g[i]));
        } else {
            lemma_marks_len(g, s, i + 1, rem);
        }
    }
}

/// The classification sequence has exactly one entry per guess letter.
pub proof fn lemma_match_len(g: Seq<char>, s: Seq<char>)
    ensures
        spec_match(g, s).len() == g.len(),
{
    lemma_marks_len(g, s, 0, spec_leftover(g, s, 0));
}

proof fn lemma_marks_identical(s: Seq<char>, i: int, rem: Multiset<char>)
    requires
        0 <= i <= s.len(),
    ensures
        spec_marks(s, s, i, rem).len() == s.len() - i,
        forall|j: int| 0 <= j < s.len() - i ==> spec_marks(s, s, i, rem)[j] == Matches::Yes,
    decreases s.len() - i,
{
    if i < s.len() {
        lemma_marks_identical(s, i + 1, rem);
        assert(spec_marks(s, s, i, rem) == seq![Matches::Yes] + spec_marks(s, s, i + 1, rem));
    }
}

/// Idempotent full match: a guess identical to the solution is classified
/// `Yes` at every position.
pub proof fn lemma_identical_guess_all_exact(s: Seq<char>)
    ensures
        spec_match(s, s).len() == s.len(),
        forall|i: int| 0 <= i < s.len() ==> spec_match(s, s)[i] == Matches::Yes,
{
    lemma_marks_identical(s, 0, spec_leftover(s, s, 0));
}

proof fn lemma_leftover_support(g: Seq<char>, s: Seq<char>, i: int, c: char)
    requires
        spec_leftover(g, s, i).count(c) > 0,
    ensures
        exists|j: int| i <= j < s.len() && s[j] == c,
    decreases s.len() - i,
{
    if 0 <= i < s.len() {
        if g[i] != s[i] && s[i] == c {
            assert(i <= i < s.len() && s[i] == c);
        } else {
            lemma_leftover_support(g, s, i + 1, c);
        }
    }
}

proof fn lemma_marks_absent(g: Seq<char>, s: Seq<char>, i: int, rem: Multiset<char>)
    requires
        0 <= i <= g.len(),
        g.len() == s.len(),
        forall|j: int| i <= j < g.len() ==> g[j] != s[j],
        forall|j: int| i <= j < g.len() ==> rem.count(#[trigger] g[j]) == 0,
    ensures
        spec_marks(g, s, i, rem).len() == g.len() - i,
        forall|j: int| 0 <= j < g.len() - i ==> spec_marks(g, s, i, rem)[j] == Matches::No,
    decreases g.len() - i,
{
    if i < g.len() {
        lemma_marks_absent(g, s, i + 1, rem);
        assert(spec_marks(g, s, i, rem) == seq![Matches::No] + spec_marks(g, s, i + 1, rem));
    }
}

/// Disjoint-alphabet absence: when the guess and the solution share no
/// letter, every position is classified `No`.
pub proof fn lemma_disjoint_letters_all_absent(g: Seq<char>, s: Seq<char>)
    requires
        g.len() == s.len(),
        forall|i: int, j: int| 0 <= i < g.len() && 0 <= j < s.len() ==> g[i] != s[j],
    ensures
        spec_match(g, s).len() == g.len(),
        forall|i: int| 0 <= i < g.len() ==> spec_match(g, s)[i] == Matches::No,
{
    let rem = spec_leftover(g, s, 0);
    assert forall|j: int| 0 <= j < g.len() implies rem.count(#[trigger] g[j]) == 0 by {
        if rem.count(g[j]) > 0 {
            lemma_leftover_support(g, s, 0, g[j]);
        }
    }
    lemma_marks_absent(g, s, 0, rem);
}

proof fn lemma_marks_credited(g: Seq<char>, s: Seq<char>, i: int, rem: Multiset<char>, c: char)
    requires
        0 <= i <= g.len(),
        g.len() == s.len(),
    ensures
        spec_credited(g.skip(i), spec_marks(g, s, i, rem), c) <= spec_exact_credits(g, s, c, i)
            + rem.count(c),
    decreases g.len() - i,
{
    lemma_marks_len(g, s, i, rem);
    if i < g.len() {
        let suffix = g.skip(i);
        let m = spec_marks(g, s, i, rem);
        assert(suffix.drop_first() =~= g.skip(i + 1));
        assert(suffix[0] == g[i]);
        if g[i] == s[i] {
            lemma_marks_credited(g, s, i + 1, rem, c);
            assert(m == seq![Matches::Yes] + spec_marks(g, s, i + 1, rem));
            assert(m.drop_first() =~= spec_marks(g, s, i + 1, rem));
        } else if rem.count(g[i]) > 0 {
            lemma_marks_credited(g, s, i + 1, rem.remove(g[i]), c);
            assert(m == seq![Matches::Partially] + spec_marks(g, s, i + 1, rem.remove(g[i])));
            assert(m.drop_first() =~= spec_marks(g, s, i + 1, rem.remove(g[i])));
        } else {
            lemma_marks_credited(g, s, i + 1, rem, c);
            assert(m == seq![Matches::No] + spec_marks(g, s, i + 1, rem));
            assert(m.drop_first() =~= spec_marks(g, s, i + 1, rem));
        }
    }
}

proof fn lemma_budget(g: Seq<char>, s: Seq<char>, c: char, i: int)
    requires
        0 <= i <= s.len(),
        g.len() == s.len(),
    ensures
        spec_exact_credits(g, s, c, i) + spec_leftover(g, s, i).count(c) == spec_occurrences(
            s.skip(i),
            c,
        ),
    decreases s.len() - i,
{
    if i < s.len() {
        lemma_budget(g, s, c, i + 1);
        assert(s.skip(i).drop_first() =~= s.skip(i + 1));
        assert(s.skip(i)[0] == s[i]);
    }
}

/// Duplicate-letter conservation: a letter occurring `k` times in the
/// solution is credited, exactly or partially, at most `k` times across
/// the guess.
pub proof fn lemma_duplicate_letter_conservation(g: Seq<char>, s: Seq<char>, c: char)
    requires
        g.len() == s.len(),
    ensures
        spec_credited(g, spec_match(g, s), c) <= spec_occurrences(s, c),
{
    lemma_marks_credited(g, s, 0, spec_leftover(g, s, 0), c);
    lemma_budget(g, s, c, 0);
    assert(g.skip(0) =~= g);
    assert(s.skip(0) =~= s);
}

/// A valid scored word view: exactly [`PUZZLE_LETTERS_COUNT`] letters,
/// each well formed.
pub open spec fn spec_word_wf(w: Seq<SubmitLetter>) -> bool {
    w.len() == PUZZLE_LETTERS_COUNT && (forall|i: int| 0 <= i < w.len() ==> w[i].wf())
}

/// Whether a scored word view is fully matched: every position `Yes`.
pub open spec fn spec_word_solved(w: Seq<SubmitLetter>) -> bool {
    forall|i: int| 0 <= i < w.len() ==> w[i].matches == Matches::Yes
}

/// A guess scored against a solution: a fixed-length word of scored
/// letters, in guess order. Produced by [`SubmitWord::tint`].
#[derive(Debug, Clone, PartialEq, Eq)]
pub struct SubmitWord {
    letters: Vec<SubmitLetter>,
}

impl View for SubmitWord {
    type V = Seq<SubmitLetter>;

    closed spec fn view(&self) -> Seq<SubmitLetter> {
        self.letters@
    }
}

impl SubmitWord {
    /// A valid scored word has exactly [`PUZZLE_LETTERS_COUNT`] letters,
    /// each well formed.
    pub open spec fn wf(&self) -> bool {
        spec_word_wf(self@)
    }

    /// Whether every position matched exactly: the guess solved the puzzle.
    pub open spec fn spec_all_matches(&self) -> bool {
        spec_word_solved(self@)
    }

    /// Builds a word directly from already-scored letters.
    pub fn new(letters: Vec<SubmitLetter>) -> (r: SubmitWord)
        requires
            letters@.len() == PUZZLE_LETTERS_COUNT,
        ensures
            r@ == letters@,
    {
        SubmitWord { letters }
    }

    /// Scores the guessed word `answer` against `solution` with the
    /// two-pass algorithm: first every position whose letter equals the
    /// solution's letter is marked `Yes` and claims that letter; then, left
    /// to right, each remaining position is marked `Partially` if an
    /// unclaimed solution letter equals its letter (consuming it), and `No`
    /// otherwise.
    pub fn tint(answer: &PuzzleSolution, solution: &PuzzleSolution) -> (w: SubmitWord)
        requires
            answer.wf(),
            solution.wf(),
        ensures
            w@ == spec_tint(answer@, solution@),
            w.wf(),
    {
        let g = answer.letters();
        let s = solution.letters();
        let ghost gv = answer@;
        let ghost sv = solution@;
        let len = g.len();

        // The partial-match budget, as 26 per-letter counters mirroring the
        // ghost multiset of unclaimed solution letters.
        let mut counts: Vec<usize> = Vec::new();
        while counts.len() < 26
            invariant
                counts@.len() <= 26,
                forall|k: int| 0 <= k < counts@.len() ==> counts@[k] == 0,
            decreases 26 - counts.len(),
        {
            counts.push(0);
        }

        let ghost mut rem: Multiset<char> = Multiset::empty();
        let mut i: usize = 0;
        while i < len
            invariant
                len == gv.len(),
                len == sv.len(),
                len == PUZZLE_LETTERS_COUNT,
                g@ == gv,
                s@ == sv,
                forall|j: int| 0 <= j < len ==> spec_is_lower(#[trigger] gv[j]),
                forall|j: int| 0 <= j < len ==> spec_is_lower(#[trigger] sv[j]),
                0 <= i <= len,
                counts@.len() == 26,
                forall|k: int| 0 <= k < 26 ==> counts@[k] == rem.count(spec_lower_letter(k)),
                forall|k: int| 0 <= k < 26 ==> counts@[k] <= i,
                forall|c: char| rem.count(c) > 0 ==> spec_is_lower(c),
                spec_leftover(gv, sv, 0) == rem.add(spec_leftover(gv, sv, i as int)),
            decreases len - i,
        {
            let gc = g[i];
            let sc = s[i];
            if gc != sc {
                let k = (sc as u8 - 97) as usize;
                proof {
                    assert(spec_is_lower(sv[i as int]));
                    assert(spec_lower_letter(k as int) == sc);
                }
                let c0 = counts[k];
                counts[k] = c0 + 1;
                proof {
                    let old_rem = rem;
                    rem = rem.insert(sc);
                    assert(spec_leftover(gv, sv, i as int) == spec_leftover(
                        gv,
                        sv,
                        i as int + 1,
                    ).insert(sv[i as int]));
                    assert(old_rem.add(spec_leftover(gv, sv, i as int)) =~= rem.add(
                        spec_leftover(gv, sv, i as int + 1),
                    ));
                }
            } else {
                proof {
                    assert(spec_leftover(gv, sv, i as int) == spec_leftover(gv, sv, i as int + 1));
                }
            }
            i += 1;
        }
        proof {
            assert(spec_leftover(gv, sv, len as int) == Multiset::<char>::empty());
            assert(rem =~= spec_leftover(gv, sv, 0));
        }

        // Partial pass: classify every position, consuming the budget.
        let mut letters: Vec<SubmitLetter> = Vec::new();
        let mut i: usize = 0;
        while i < len
            invariant
                len == gv.len(),
                len == sv.len(),
                len == PUZZLE_LETTERS_COUNT,
                g@ == gv,
                s@ == sv,
                forall|j: int| 0 <= j < len ==> spec_is_lower(#[trigger] gv[j]),
                forall|j: int| 0 <= j < len ==> spec_is_lower(#[trigger] sv[j]),
                0 <= i <= len,
                counts@.len() == 26,
                forall|k: int| 0 <= k < 26 ==> counts@[k] == rem.count(spec_lower_letter(k)),
                forall|c: char| rem.count(c) > 0 ==> spec_is_lower(c),
                letters@.len() == i,
                forall|j: int| 0 <= j < i ==> #[trigger] letters@[j].letter == spec_to_upper(gv[j]),
                forall|j: int| 0 <= j < i ==> #[trigger] letters@[j].wf(),
                spec_match(gv, sv) == letters@.map_values(|l: SubmitLetter| l.matches) + spec_marks(
                    gv,
                    sv,
                    i as int,
                    rem,
                ),
            decreases len - i,
        {
            let gc = g[i];
            let sc = s[i];
            let ghost old_letters = letters@;
            let ghost old_rem = rem;
            let mark: Matches;
            if gc == sc {
                mark = Matches::Yes;
                proof {
                    assert(spec_marks(gv, sv, i as int, rem) == seq![Matches::Yes] + spec_marks(
                        gv,
                        sv,
                        i as int + 1,
                        rem,
                    ));
                }
            } else {
                let k = (gc as u8 - 97) as usize;
                proof {
                    assert(spec_is_lower(gv[i as int]));
                    assert(spec_lower_letter(k as int) == gc);
                }
                if counts[k] > 0 {
                    mark = Matches::Partially;
                    let c0 = counts[k];
                    counts[k] = c0 - 1;
                    proof {
                        rem = rem.remove(gc);
                        assert(spec_marks(gv, sv, i as int, old_rem) == seq![Matches::Partially]
                            + spec_marks(gv, sv, i as int + 1, rem));
                    }
                } else {
                    mark = Matches::No;
                    proof {
                        assert(rem.count(gv[i as int]) == 0);
                        assert(spec_marks(gv, sv, i as int, rem) == seq![Matches::No] + spec_marks(
                            gv,
                            sv,
                            i as int + 1,
                            rem,
                        ));
                    }
                }
            }
            letters.push(SubmitLetter { letter: to_upper(gc), matches: mark });
            proof {
                assert(letters@.map_values(|l: SubmitLetter| l.matches) =~= old_letters.map_values(
                    |l: SubmitLetter| l.matches,
                ).push(mark));
                assert(old_letters.map_values(|l: SubmitLetter| l.matches) + (seq![mark]
                    + spec_marks(gv, sv, i as int + 1, rem)) =~= letters@.map_values(
                    |l: SubmitLetter| l.matches,
                ) + spec_marks(gv, sv, i as int + 1, rem));
            }
            i += 1;
        }
        proof {
            assert(spec_marks(gv, sv, len as int, rem) == Seq::<Matches>::empty());
            assert(spec_match(gv, sv) =~= letters@.map_values(|l: SubmitLetter| l.matches));
        }
        let w = SubmitWord { letters };
        proof {
            assert forall|j: int| 0 <= j < len implies w@[j] == spec_tint(gv, sv)[j] by {
                assert(w@[j].matches == w@.map_values(|l: SubmitLetter| l.matches)[j]);
                assert(w@[j].letter == spec_to_upper(gv[j]));
                assert(spec_tint(gv, sv)[j] == (SubmitLetter {
                    letter: spec_to_upper(gv[j]),
                    matches: spec_match(gv, sv)[j],
                }));
                assert(w@[j] =~= spec_tint(gv, sv)[j]);
            }
            assert(w@ =~= spec_tint(gv, sv));
        }
        w
    }

    /// Whether this word is valid: exactly [`PUZZLE_LETTERS_COUNT`]
    /// well-formed letters. Lets unverified callers establish the
    /// precondition of the textual encoders.
    pub fn is_wf(&self) -> (r: bool)
        ensures
            r == self.wf(),
    {
        let n = self.letters.len();
        if n != PUZZLE_LETTERS_COUNT {
            return false;
        }
        let mut i: usize = 0;
        while i < n
            invariant
                n == self@.len(),
                0 <= i <= n,
                forall|j: int| 0 <= j < i ==> (#[trigger] self@[j]).wf(),
            decreases n - i,
        {
            let c = self.letters[i].letter;
            if !('A' <= c && c <= 'Z') {
                return false;
            }
            i += 1;
        }
        true
    }

    /// Whether this scored guess solved the puzzle: every letter matched
    /// exactly.
    pub fn all_matches(&self) -> (r: bool)
        ensures
            r == self.spec_all_matches(),
    {
        let n = self.letters.len();
        let mut i: usize = 0;
        while i < n
            invariant
                n == self@.len(),
                0 <= i <= n,
                forall|j: int| 0 <= j < i ==> self@[j].matches == Matches::Yes,
            decreases n - i,
        {
            if !(self.letters[i].matches == Matches::Yes) {
                return false;
            }
            i += 1;
        }
        true
    }

    /// The number of letters in the word.
    pub fn len(&self) -> (r: usize)
        ensures
            r == self@.len(),
    {
        self.letters.len()
    }

    /// Whether the word has no letters; never true for a valid word.
    pub fn is_empty(&self) -> (r: bool)
        ensures
            r == (self@.len() == 0),
    {
        self.letters.len() == 0
    }

    /// Borrows the scored letters in order.
    pub fn to_vec(&self) -> (r: Vec<&SubmitLetter>)
        ensures
            r@.len() == self@.len(),
            forall|i: int| 0 <= i < self@.len() ==> *r@[i] == self@[i],
    {
        let n = self.letters.len();
        let mut out: Vec<&SubmitLetter> = Vec::new();
        let mut i: usize = 0;
        while i < n
            invariant
                n == self@.len(),
                0 <= i <= n,
                out@.len() == i,
                forall|j: int| 0 <= j < i ==> *out@[j] == self@[j],
            decreases n - i,
        {
            out.push(&self.letters[i]);
            i += 1;
        }
        out
    }

    /// Borrows the underlying letter storage.
    pub(crate) fn letters_ref(&self) -> (r: &Vec<SubmitLetter>)
        ensures
            r@ == self@,
    {
        &self.letters
    }

    /// The scored letters in order, by value.
    pub fn into_vec(self) -> (r: Vec<SubmitLetter>)
        ensures
            r@ == self@,
    {
        self.letters
    }
}

} // verus!
