//! Scores, the best of several scores, and the shared marker-stripping
//! comparison.

use vstd::prelude::*;
use crate::grammar::text::{alike, alike_from, chars_of};

verus! {

/// The credit an answer earns: none, half or full.
#[derive(Debug, Clone, Copy, PartialEq, Eq, Structural)]
pub enum Score {
    Zero,
    Half,
    Full,
}

impl Score {
    /// The score counted in half points.
    pub open spec fn rank(self) -> nat {
        match self {
            Score::Zero => 0,
            Score::Half => 1,
            Score::Full => 2,
        }
    }

    /// The score counted in half points: 0, 1 or 2.
    pub fn halves(self) -> (h: u8)
        ensures
            h == self.rank(),
    {
        match self {
            Score::Zero => 0,
            Score::Half => 1,
            Score::Full => 2,
        }
    }
}

/// The higher of two scores.
pub open spec fn better(a: Score, b: Score) -> Score {
    if b.rank() > a.rank() {
        b
    } else {
        a
    }
}

/// The highest of the scores, `Zero` where there is none.
pub open spec fn best(scores: Seq<Score>) -> Score
    decreases scores.len(),
{
    if scores.len() == 0 {
        Score::Zero
    } else {
        better(best(scores.drop_last()), scores.last())
    }
}

/// No score is above the best, and the best is one of them unless it is
/// `Zero`.
pub proof fn lemma_best_is_highest(scores: Seq<Score>)
    ensures
        forall|i: int| 0 <= i < scores.len() ==> (#[trigger] scores[i]).rank() <= best(scores).rank(),
        best(scores) != Score::Zero ==> scores.contains(best(scores)),
    decreases scores.len(),
{
    if scores.len() > 0 {
        let front = scores.drop_last();
        lemma_best_is_highest(front);
        assert forall|i: int| 0 <= i < scores.len() implies (#[trigger] scores[i]).rank() <= best(
            scores,
        ).rank() by {
            if i < front.len() {
                assert(front[i] == scores[i]);
            }
        }
        if best(scores) != Score::Zero {
            if best(scores) == scores.last() {
                assert(scores[scores.len() - 1] == best(scores));
            } else {
                let i = choose|i: int| 0 <= i < front.len() && front[i] == best(front);
                assert(scores[i] == best(scores));
            }
        }
    }
}

/// The higher of two scores.
pub fn higher(a: Score, b: Score) -> (r: Score)
    ensures
        r == better(a, b),
{
    if b.halves() > a.halves() {
        b
    } else {
        a
    }
}

/// The texts of a sequence of string slices.
pub open spec fn marker_texts(options: Seq<&str>) -> Seq<Seq<char>> {
    Seq::new(options.len(), |i: int| options[i]@)
}

/// The shared comparison of the tolerance rules. The markers all have the
/// length `size` of the first. The form matches when it begins with one of the
/// markers and what follows the marker is alike to the answer, or to the
/// answer without its own first `size` characters, whatever those are, where
/// the answer has more than `size` characters.
pub open spec fn marker_match(form: Seq<char>, answer: Seq<char>, markers: Seq<Seq<char>>) -> bool
    recommends
        markers.len() > 0,
{
    let size = markers[0].len() as int;
    &&& size <= form.len()
    &&& markers.contains(form.take(size))
    &&& (alike(form.skip(size), answer) || (answer.len() >= size + 1 && alike(
        form.skip(size),
        answer.skip(size),
    )))
}

/// Half credit for a marker match, none otherwise.
pub open spec fn smart_score(form: Seq<char>, answer: Seq<char>, markers: Seq<Seq<char>>) -> Score
    recommends
        markers.len() > 0,
{
    if marker_match(form, answer, markers) {
        Score::Half
    } else {
        Score::Zero
    }
}

/// Whether the first `size` characters of `form` are the text `marker`.
fn begins_with(form: &Vec<char>, size: usize, marker: &str) -> (r: bool)
    requires
        size <= form@.len(),
    ensures
        r == (form@.take(size as int) == marker@),
{
    let m = chars_of(marker);
    if m.len() != size {
        assert(form@.take(size as int).len() != marker@.len());
        return false;
    }
    let mut k: usize = 0;
    while k < size
        invariant
            k <= size <= form@.len(),
            size == m@.len(),
            m@ == marker@,
            forall|j: int| 0 <= j < k ==> #[trigger] form@[j] == m@[j],
        decreases size - k,
    {
        if form[k] != m[k] {
            assert(form@.take(size as int)[k as int] != m@[k as int]);
            return false;
        }
        k += 1;
    }
    assert(form@.take(size as int) =~= m@);
    true
}

/// Grades one stored form against an answer under a tolerance rule with the
/// markers `options`: half credit for a marker match, none otherwise.
pub fn smart_options(right: &String, answer: &str, options: Vec<&str>) -> (r: Score)
    requires
        options@.len() > 0,
    ensures
        r == smart_score(right@, answer@, marker_texts(options@)),
{
    let form = chars_of(right.as_str());
    let given = chars_of(answer);
    let size: usize = options[0].unicode_len();
    let ghost markers = marker_texts(options@);
    if size > form.len() {
        return Score::Zero;
    }
    let mut found = false;
    let mut k: usize = 0;
    while k < options.len() && !found
        invariant
            k <= options@.len(),
            size <= form@.len(),
            markers == marker_texts(options@),
            found ==> markers.contains(form@.take(size as int)),
            !found ==> forall|j: int| 0 <= j < k ==> markers[j] != form@.take(size as int),
        decreases options@.len() - k + (if found { 0int } else { 1int }),
    {
        if begins_with(&form, size, options[k]) {
            assert(markers[k as int] == form@.take(size as int));
            found = true;
        } else {
            k += 1;
        }
    }
    if !found {
        return Score::Zero;
    }
    assert(given@.skip(0) =~= given@);
    if alike_from(&form, size, &given, 0) {
        Score::Half
    } else if given.len() > size && alike_from(&form, size, &given, size) {
        Score::Half
    } else {
        Score::Zero
    }
}

} // verus!
