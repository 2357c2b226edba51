//! Reading the output of the YOLOX detector: anchors, classes, scores, and the
//! choice among overlapping boxes.
use vstd::prelude::*;

#[allow(unused_imports)]
use crate::fusion;
use crate::fusion::Detection;
use crate::ieee;
use crate::order;
use crate::text;

verus! {

/// How many classes the detector tells apart.
pub const CLASSES: usize = 80;

/// How many numbers it puts out for an anchor: a box, an object score, and a
/// score for each class.
pub const ROW: usize = 85;

/// How many anchors it has.
pub const ANCHORS: usize = 3549;

/// The bit pattern of 1 as a 32-bit float.
pub const ONE: u32 = 0x3f80_0000;

/// A box that the detector found. The score is the bit pattern of a 32-bit float,
/// the rest are those of 64-bit floats.
#[derive(Clone, Copy, Debug)]
pub struct Prediction {
    pub kind: &'static str,
    pub score: u32,
    pub x: u64,
    pub y: u64,
    pub width: u64,
    pub height: u64,
}

/// A cell of one of the detector's grids, and the class that it sees there.
#[derive(Clone, Copy, Debug, PartialEq, Eq, Structural)]
pub struct Anchor {
    /// Which row of the output belongs to it.
    pub row: usize,
    pub stride: usize,
    pub gx: usize,
    pub gy: usize,
    pub class: usize,
}

/// Where an anchor puts its box, and how sure it is.
#[derive(Clone, Copy, Debug)]
pub struct Guess {
    pub score: u32,
    pub x: u64,
    pub y: u64,
    pub width: u64,
    pub height: u64,
}

/// The output is not made of whole rows.
#[derive(Clone, Copy, Debug, PartialEq, Eq, Structural)]
pub struct OutputShapeError;

/// The number lies between zero and one, both included.
pub open spec fn is_share(bits: u32) -> bool {
    ieee::f32_le(0, bits) && ieee::f32_le(bits, ONE)
}

/// What a detection must score, and how far two may overlap.
#[derive(Clone, Copy, Debug)]
pub struct Thresholds {
    pub confidence: u32,
    pub nms: u32,
}

impl Thresholds {
    /// Thresholds, refused where one of them is not between zero and one.
    pub fn new(confidence: u32, nms: u32) -> (thresholds: Option<Thresholds>)
        ensures
            thresholds == if is_share(confidence) && is_share(nms) {
                Some(Thresholds { confidence, nms })
            } else {
                None
            },
    {
        if ieee::le32(0, confidence) && ieee::le32(confidence, ONE) && ieee::le32(0, nms)
            && ieee::le32(nms, ONE) {
            Some(Thresholds { confidence, nms })
        } else {
            None
        }
    }
}

/// What is kept of a class: the name of the object type it stands for.
pub open spec fn kind_of_class(class: int) -> Option<Seq<char>> {
    if class == 0 {
        Some("pedestrian"@)
    } else if class == 1 || class == 3 {
        Some("cyclist"@)
    } else if class == 2 || class == 5 || class == 7 {
        Some("vehicle"@)
    } else if class == 11 {
        Some("sign"@)
    } else {
        None
    }
}

/// The name of the object type that a class stands for, nothing for a class that
/// is not kept.
pub fn waymo_kind(class: usize) -> (kind: Option<&'static str>)
    ensures
        match kind {
            Some(kind) => kind_of_class(class as int) == Some(kind@),
            None => kind_of_class(class as int) is None,
        },
{
    match class {
        0 => Some("pedestrian"),
        1 | 3 => Some("cyclist"),
        2 | 5 | 7 => Some("vehicle"),
        11 => Some("sign"),
        _ => None,
    }
}

/// The last of the highest scores, in the total order of floats.
pub open spec fn is_last_highest(scores: Seq<u32>, at: int) -> bool {
    &&& 0 <= at < scores.len()
    &&& forall|j: int|
        0 <= j < at ==> ieee::f32_total_key(#[trigger] scores[j]) <= ieee::f32_total_key(scores[at])
    &&& forall|j: int|
        at < j < scores.len() ==> ieee::f32_total_key(#[trigger] scores[j]) < ieee::f32_total_key(
            scores[at],
        )
}

/// The class scores of an anchor.
pub open spec fn class_scores(raw: Seq<u32>, row: int) -> Seq<u32> {
    raw.subrange(row * ROW + 5, row * ROW + ROW)
}

/// The class that an anchor sees.
pub open spec fn class_of(raw: Seq<u32>, row: int) -> int {
    choose|at: int| is_last_highest(class_scores(raw, row), at)
}

/// An anchor without its class: the detector has a grid of 52 by 52 cells, one of
/// 26 by 26 and one of 13 by 13, each row by row.
pub open spec fn anchor_cell(row: int) -> (int, int, int) {
    if row < 2704 {
        (8, row % 52, row / 52)
    } else if row < 3380 {
        (16, (row - 2704) % 26, (row - 2704) / 26)
    } else {
        (32, (row - 3380) % 13, (row - 3380) / 13)
    }
}

pub open spec fn anchor_of(raw: Seq<u32>, row: int) -> Anchor {
    let (stride, gx, gy) = anchor_cell(row);
    Anchor {
        row: row as usize,
        stride: stride as usize,
        gx: gx as usize,
        gy: gy as usize,
        class: class_of(raw, row) as usize,
    }
}

/// The anchors before a row that see a class that is kept, in order.
pub open spec fn anchors_before(raw: Seq<u32>, end: int) -> Seq<Anchor>
    decreases end,
{
    if end <= 0 {
        Seq::empty()
    } else {
        let before = anchors_before(raw, end - 1);
        if kind_of_class(class_of(raw, end - 1)) is Some {
            before.push(anchor_of(raw, end - 1))
        } else {
            before
        }
    }
}

/// The class that an anchor sees: the last of those with the highest score.
fn best_class(raw: &[u32], row: usize) -> (class: usize)
    requires
        row < ANCHORS,
        ANCHORS * ROW <= raw@.len(),
    ensures
        class == class_of(raw@, row as int),
        is_last_highest(class_scores(raw@, row as int), class as int),
        class < CLASSES,
{
    let start: usize = row * ROW + 5;
    let mut best: usize = 0;
    let mut i: usize = 1;
    let ghost scores = class_scores(raw@, row as int);
    while i < CLASSES
        invariant
            row < ANCHORS,
            ANCHORS * ROW <= raw@.len(),
            start == row * ROW + 5,
            scores == class_scores(raw@, row as int),
            1 <= i <= CLASSES,
            is_last_highest(scores.take(i as int), best as int),
        decreases CLASSES - i,
    {
        assert(scores[i as int] == raw@[start + i]);
        assert(scores[best as int] == raw@[start + best]);
        assert(scores.take(i as int)[best as int] == scores[best as int]);
        assert forall|j: int| 0 <= j < i implies #[trigger] scores.take(i + 1)[j] == scores.take(
            i as int,
        )[j] by {}
        if ieee::total_key32(raw[start + i]) >= ieee::total_key32(raw[start + best]) {
            best = i;
        }
        i = i + 1;
    }
    proof {
        assert(scores.take(i as int) =~= scores);
        lemma_last_highest_is_one(scores, best as int, class_of(raw@, row as int));
    }
    best
}

proof fn lemma_last_highest_is_one(scores: Seq<u32>, one: int, other: int)
    requires
        is_last_highest(scores, one),
        is_last_highest(scores, other),
    ensures
        one == other,
{
    assert(ieee::f32_total_key(scores[one]) <= ieee::f32_total_key(scores[other]));
}

/// The anchors that see a class that is kept. The output is refused where it is
/// not made of whole rows.
pub fn anchors(raw: &[u32]) -> (found: Result<Vec<Anchor>, OutputShapeError>)
    requires
        raw@.len() % (ROW as nat) == 0 ==> ANCHORS * ROW <= raw@.len(),
    ensures
        match found {
            Ok(found) => raw@.len() % (ROW as nat) == 0 && found@ == anchors_before(
                raw@,
                ANCHORS as int,
            ),
            Err(_) => raw@.len() % (ROW as nat) != 0,
        },
{
    if raw.len() % ROW != 0 {
        return Err(OutputShapeError);
    }
    let mut found: Vec<Anchor> = Vec::new();
    let mut row: usize = 0;
    while row < ANCHORS
        invariant
            row <= ANCHORS,
            ANCHORS * ROW <= raw@.len(),
            found@ == anchors_before(raw@, row as int),
        decreases ANCHORS - row,
    {
        let class: usize = best_class(raw, row);
        if let Some(_) = waymo_kind(class) {
            let (stride, gx, gy): (usize, usize, usize) = if row < 2704 {
                (8, row % 52, row / 52)
            } else if row < 3380 {
                (16, (row - 2704) % 26, (row - 2704) / 26)
            } else {
                (32, (row - 3380) % 13, (row - 3380) / 13)
            };
            found.push(Anchor { row, stride, gx, gy, class });
        }
        row = row + 1;
    }
    Ok(found)
}

/// The anchors walk the three grids row by row: the cell lies in its grid, and no
/// two rows of the output belong to one cell.
pub proof fn law_anchors_cover_the_grids(row: int, other: int)
    requires
        0 <= row < ANCHORS,
        0 <= other < ANCHORS,
    ensures
        ({
            let (stride, gx, gy) = anchor_cell(row);
            &&& 0 <= gx && (gx + 1) * stride <= 416
            &&& 0 <= gy && (gy + 1) * stride <= 416
        }),
        anchor_cell(row) == anchor_cell(other) ==> row == other,
{
}

/// The prediction that an anchor's guess becomes.
pub open spec fn is_prediction(prediction: Prediction, anchor: Anchor, guess: Guess) -> bool {
    &&& Some(prediction.kind@) == kind_of_class(anchor.class as int)
    &&& prediction.score == guess.score
    &&& prediction.x == guess.x
    &&& prediction.y == guess.y
    &&& prediction.width == guess.width
    &&& prediction.height == guess.height
}

/// The prediction is one that `guess` makes of the anchor.
pub open spec fn is_guessed<F: Fn(Anchor) -> Guess>(
    guess: F,
    anchor: Anchor,
    prediction: Prediction,
) -> bool {
    let made = Guess {
        score: prediction.score,
        x: prediction.x,
        y: prediction.y,
        width: prediction.width,
        height: prediction.height,
    };
    call_ensures(guess, (anchor,), made) && is_prediction(prediction, anchor, made)
}

/// Every anchor's prediction, in order.
pub open spec fn all_guessed<F: Fn(Anchor) -> Guess>(
    guess: F,
    anchors: Seq<Anchor>,
    predictions: Seq<Prediction>,
) -> bool {
    &&& predictions.len() == anchors.len()
    &&& forall|i: int|
        0 <= i < anchors.len() ==> is_guessed(guess, anchors[i], #[trigger] predictions[i])
}

/// The predictions that do not score below the confidence, in order.
pub open spec fn confident(predictions: Seq<Prediction>, confidence: u32) -> Seq<Prediction> {
    predictions.filter(|p: Prediction| !ieee::f32_lt(p.score, confidence))
}

/// The keys by which predictions are sorted: the best score first.
pub open spec fn score_keys(predictions: Seq<Prediction>) -> Seq<i128> {
    predictions.map_values(|p: Prediction| -ieee::f32_total_key(p.score) as i128)
}

/// The same predictions, the best score first; equal scores keep their order.
pub open spec fn is_ranked(predictions: Seq<Prediction>, ranked: Seq<Prediction>) -> bool {
    exists|order: Seq<usize>| #[trigger]
        order::is_stable_order(score_keys(predictions), order) && ranked == order.map_values(
            |at: usize| predictions[at as int],
        )
}

/// The candidates: each anchor's guess that does not score below the confidence,
/// the best score first.
fn candidates<F: Fn(Anchor) -> Guess>(
    anchors: &[Anchor],
    confidence: u32,
    guess: F,
) -> (ranked: Vec<Prediction>)
    requires
        forall|i: int|
            0 <= i < anchors@.len() ==> kind_of_class((#[trigger] anchors@[i]).class as int) is Some,
        forall|anchor: Anchor| #[trigger] call_requires(guess, (anchor,)),
    ensures
        exists|all: Seq<Prediction>| #[trigger]
            all_guessed(guess, anchors@, all) && is_ranked(confident(all, confidence), ranked@),
{
    let ghost mut all: Seq<Prediction> = Seq::empty();
    let mut kept: Vec<Prediction> = Vec::new();
    let mut keys: Vec<i128> = Vec::new();
    let mut i: usize = 0;
    proof {
        reveal(Seq::filter);
    }
    while i < anchors.len()
        invariant
            i <= anchors.len(),
            all_guessed(guess, anchors@.take(i as int), all),
            kept@ == confident(all, confidence),
            keys@ == score_keys(kept@),
            forall|i: int|
                0 <= i < anchors@.len() ==> kind_of_class((#[trigger] anchors@[i]).class as int) is Some,
            forall|anchor: Anchor| #[trigger] call_requires(guess, (anchor,)),
        decreases anchors.len() - i,
    {
        let anchor = anchors[i];
        let made = guess(anchor);
        if let Some(kind) = waymo_kind(anchor.class) {
            let prediction = Prediction {
                kind,
                score: made.score,
                x: made.x,
                y: made.y,
                width: made.width,
                height: made.height,
            };
            proof {
                reveal(Seq::filter);
                assert(is_guessed(guess, anchor, prediction));
                assert(all.push(prediction).drop_last() =~= all);
                all = all.push(prediction);
            }
            if !ieee::lt32(prediction.score, confidence) {
                kept.push(prediction);
                keys.push(-(ieee::total_key32(prediction.score) as i128));
                assert(keys@ =~= score_keys(kept@));
            }
        }
        i = i + 1;
    }
    assert(anchors@.take(i as int) =~= anchors@);
    let sorted: Vec<usize> = order::stable_order(keys.as_slice());
    let mut ranked: Vec<Prediction> = Vec::new();
    let mut at: usize = 0;
    while at < sorted.len()
        invariant
            at <= sorted.len(),
            order::is_stable_order(score_keys(kept@), sorted@),
            ranked@ == sorted@.take(at as int).map_values(|at: usize| kept@[at as int]),
        decreases sorted.len() - at,
    {
        ranked.push(kept[sorted[at]]);
        at = at + 1;
    }
    proof {
        assert(sorted@.take(at as int) =~= sorted@);
        assert(order::is_stable_order(score_keys(confident(all, confidence)), sorted@));
        assert(ranked@ =~= sorted@.map_values(|at: usize| confident(all, confidence)[at as int]));
        assert(is_ranked(confident(all, confidence), ranked@));
        assert(all_guessed(guess, anchors@, all));
    }
    ranked
}

/// The overlap that `overlap` gives for two boxes keeps to the limit.
pub open spec fn apart<G: Fn(Prediction, Prediction) -> u32>(
    overlap: G,
    nms: u32,
    later: Prediction,
    earlier: Prediction,
) -> bool {
    exists|share: u32| #[trigger]
        call_ensures(overlap, (later, earlier), share) && ieee::f32_le(share, nms)
}

/// The overlap that `overlap` gives for two boxes is beyond the limit.
pub open spec fn too_close<G: Fn(Prediction, Prediction) -> u32>(
    overlap: G,
    nms: u32,
    later: Prediction,
    earlier: Prediction,
) -> bool {
    exists|share: u32| #[trigger]
        call_ensures(overlap, (later, earlier), share) && !ieee::f32_le(share, nms)
}

/// A candidate that was kept before it overlaps this one too far.
pub open spec fn crowded_out<G: Fn(Prediction, Prediction) -> u32>(
    overlap: G,
    nms: u32,
    candidates: Seq<Prediction>,
    kept: Seq<int>,
    i: int,
) -> bool {
    exists|a: int|
        0 <= a < kept.len() && #[trigger] kept[a] < i && too_close(
            overlap,
            nms,
            candidates[i],
            candidates[kept[a]],
        )
}

/// Which candidates are kept: one after the other, each that keeps apart from
/// all those kept before it.
pub open spec fn is_selection<G: Fn(Prediction, Prediction) -> u32>(
    overlap: G,
    nms: u32,
    candidates: Seq<Prediction>,
    kept: Seq<int>,
) -> bool {
    &&& forall|a: int| 0 <= a < kept.len() ==> 0 <= #[trigger] kept[a] < candidates.len()
    &&& forall|a: int, b: int| 0 <= a < b < kept.len() ==> #[trigger] kept[a] < #[trigger] kept[b]
    &&& forall|a: int, b: int|
        0 <= a < b < kept.len() ==> apart(
            overlap,
            nms,
            candidates[#[trigger] kept[b]],
            candidates[#[trigger] kept[a]],
        )
    &&& forall|i: int|
        0 <= i < candidates.len() && !kept.contains(i) ==> #[trigger] crowded_out(
            overlap,
            nms,
            candidates,
            kept,
            i,
        )
}

/// The candidates at some positions.
pub open spec fn picked(candidates: Seq<Prediction>, kept: Seq<int>) -> Seq<Prediction> {
    kept.map_values(|i: int| candidates[i])
}

/// Keeps of the candidates, one after the other, each whose overlap with all
/// those kept before it keeps to the limit.
pub fn suppress<G: Fn(Prediction, Prediction) -> u32>(
    candidates: &[Prediction],
    nms: u32,
    overlap: G,
) -> (chosen: Vec<Prediction>)
    requires
        forall|later: Prediction, earlier: Prediction| #[trigger]
            call_requires(overlap, (later, earlier)),
    ensures
        exists|kept: Seq<int>| #[trigger]
            is_selection(overlap, nms, candidates@, kept) && chosen@ == picked(candidates@, kept),
{
    let mut chosen: Vec<Prediction> = Vec::new();
    let ghost mut kept: Seq<int> = Seq::empty();
    let mut i: usize = 0;
    while i < candidates.len()
        invariant
            i <= candidates.len(),
            forall|later: Prediction, earlier: Prediction| #[trigger]
                call_requires(overlap, (later, earlier)),
            is_selection(overlap, nms, candidates@.take(i as int), kept),
            chosen@ == picked(candidates@.take(i as int), kept),
        decreases candidates.len() - i,
    {
        let candidate = candidates[i];
        let mut clear: bool = true;
        let mut a: usize = 0;
        while a < chosen.len() && clear
            invariant
                a <= chosen.len(),
                forall|later: Prediction, earlier: Prediction| #[trigger]
                    call_requires(overlap, (later, earlier)),
                clear ==> forall|b: int|
                    0 <= b < a ==> apart(overlap, nms, candidate, #[trigger] chosen@[b]),
                !clear ==> exists|b: int|
                    0 <= b < chosen.len() && too_close(
                        overlap,
                        nms,
                        candidate,
                        #[trigger] chosen@[b],
                    ),
            decreases chosen.len() - a, clear as int,
        {
            let share: u32 = overlap(candidate, chosen[a]);
            if ieee::le32(share, nms) {
                assert(apart(overlap, nms, candidate, chosen@[a as int]));
                a = a + 1;
            } else {
                assert(too_close(overlap, nms, candidate, chosen@[a as int]));
                clear = false;
            }
        }
        proof {
            let before = candidates@.take(i as int);
            let after = candidates@.take(i + 1);
            assert(forall|j: int| 0 <= j < i ==> #[trigger] after[j] == before[j]);
            assert(after[i as int] == candidate);
            assert(forall|b: int|
                0 <= b < kept.len() ==> #[trigger] chosen@[b] == candidates@[kept[b]]);
            if clear {
                let more = kept.push(i as int);
                assert forall|a: int, b: int| 0 <= a < b < more.len() implies apart(
                    overlap,
                    nms,
                    after[#[trigger] more[b]],
                    after[#[trigger] more[a]],
                ) by {
                    assert(after[more[a]] == chosen@[a]);
                    if b < kept.len() {
                        assert(more[a] == kept[a] && more[b] == kept[b]);
                        assert(apart(overlap, nms, before[kept[b]], before[kept[a]]));
                    } else {
                        assert(apart(overlap, nms, candidate, chosen@[a]));
                    }
                }
                assert forall|j: int|
                    0 <= j < after.len() && !more.contains(j) implies #[trigger] crowded_out(
                    overlap,
                    nms,
                    after,
                    more,
                    j,
                ) by {
                    if j == i {
                        assert(more[kept.len() as int] == j);
                    }
                    assert(j < i);
                    assert forall|b: int| 0 <= b < kept.len() implies kept[b] != j by {
                        assert(more[b] == kept[b]);
                    }
                    assert(!kept.contains(j));
                    assert(crowded_out(overlap, nms, before, kept, j));
                    let b = choose|b: int|
                        0 <= b < kept.len() && #[trigger] kept[b] < j && too_close(
                            overlap,
                            nms,
                            before[j],
                            before[kept[b]],
                        );
                    assert(more[b] == kept[b]);
                }
                assert(is_selection(overlap, nms, after, more));
                assert(picked(after, more) =~= picked(before, kept).push(candidate));
                kept = more;
            } else {
                assert forall|j: int|
                    0 <= j < after.len() && !kept.contains(j) implies #[trigger] crowded_out(
                    overlap,
                    nms,
                    after,
                    kept,
                    j,
                ) by {
                    if j < i {
                        assert(crowded_out(overlap, nms, before, kept, j));
                        let b = choose|b: int|
                            0 <= b < kept.len() && #[trigger] kept[b] < j && too_close(
                                overlap,
                                nms,
                                before[j],
                                before[kept[b]],
                            );
                        assert(after[kept[b]] == before[kept[b]]);
                    } else {
                        let b = choose|b: int|
                            0 <= b < chosen.len() && too_close(
                                overlap,
                                nms,
                                candidate,
                                #[trigger] chosen@[b],
                            );
                        assert(after[kept[b]] == chosen@[b]);
                    }
                }
                assert forall|a: int, b: int| 0 <= a < b < kept.len() implies apart(
                    overlap,
                    nms,
                    after[#[trigger] kept[b]],
                    after[#[trigger] kept[a]],
                ) by {
                    assert(apart(overlap, nms, before[kept[b]], before[kept[a]]));
                }
                assert(is_selection(overlap, nms, after, kept));
                assert(picked(after, kept) =~= picked(before, kept));
            }
        }
        if clear {
            chosen.push(candidate);
        }
        i = i + 1;
    }
    assert(candidates@.take(i as int) =~= candidates@);
    chosen
}

/// What a detector's output comes to: of the guesses of its anchors those that
/// are sure enough, the best first, without those that overlap a better one.
pub open spec fn is_output_of<F: Fn(Anchor) -> Guess, G: Fn(Prediction, Prediction) -> u32>(
    raw: Seq<u32>,
    thresholds: Thresholds,
    guess: F,
    overlap: G,
    chosen: Seq<Prediction>,
) -> bool {
    exists|all: Seq<Prediction>, ranked: Seq<Prediction>, kept: Seq<int>|
        {
            &&& #[trigger] all_guessed(guess, anchors_before(raw, ANCHORS as int), all)
            &&& is_ranked(confident(all, thresholds.confidence), ranked)
            &&& #[trigger] is_selection(overlap, thresholds.nms, ranked, kept)
            &&& chosen == picked(ranked, kept)
        }
}

/// Reads the detector's output. `guess` says where an anchor puts its box and how
/// sure it is, `overlap` how much of two boxes is common to them.
pub fn read_output<F: Fn(Anchor) -> Guess, G: Fn(Prediction, Prediction) -> u32>(
    raw: &[u32],
    thresholds: Thresholds,
    guess: F,
    overlap: G,
) -> (chosen: Result<Vec<Prediction>, OutputShapeError>)
    requires
        raw@.len() % (ROW as nat) == 0 ==> ANCHORS * ROW <= raw@.len(),
        forall|anchor: Anchor| #[trigger] call_requires(guess, (anchor,)),
        forall|later: Prediction, earlier: Prediction| #[trigger]
            call_requires(overlap, (later, earlier)),
    ensures
        match chosen {
            Ok(chosen) => raw@.len() % (ROW as nat) == 0 && is_output_of(
                raw@,
                thresholds,
                guess,
                overlap,
                chosen@,
            ),
            Err(_) => raw@.len() % (ROW as nat) != 0,
        },
{
    let found: Vec<Anchor> = match anchors(raw) {
        Ok(found) => found,
        Err(error) => return Err(error),
    };
    proof {
        assert forall|i: int| 0 <= i < found@.len() implies kind_of_class(
            (#[trigger] found@[i]).class as int,
        ) is Some by {
            lemma_anchor_class(raw@, ANCHORS as int, i);
        }
    }
    let ghost ghost_guess = guess;
    let ranked: Vec<Prediction> = candidates(found.as_slice(), thresholds.confidence, guess);
    let ghost ghost_overlap = overlap;
    let chosen: Vec<Prediction> = suppress(ranked.as_slice(), thresholds.nms, overlap);
    proof {
        let all = choose|all: Seq<Prediction>| #[trigger]
            all_guessed(ghost_guess, found@, all) && is_ranked(
                confident(all, thresholds.confidence),
                ranked@,
            );
        let kept = choose|kept: Seq<int>| #[trigger]
            is_selection(ghost_overlap, thresholds.nms, ranked@, kept) && chosen@ == picked(
                ranked@,
                kept,
            );
        assert(all_guessed(ghost_guess, anchors_before(raw@, ANCHORS as int), all));
        assert(is_selection(ghost_overlap, thresholds.nms, ranked@, kept));
    }
    Ok(chosen)
}

proof fn lemma_anchor_class(raw: Seq<u32>, end: int, i: int)
    requires
        end <= ANCHORS,
        ANCHORS * ROW <= raw.len(),
        0 <= i < anchors_before(raw, end).len(),
    ensures
        kind_of_class(anchors_before(raw, end)[i].class as int) is Some,
    decreases end,
{
    if end > 0 {
        let before = anchors_before(raw, end - 1);
        if i < before.len() {
            lemma_anchor_class(raw, end - 1, i);
        }
    }
}

/// Where `overlap` gives one answer for two boxes, which candidates are kept is
/// determined.
pub proof fn law_selection_is_unique<G: Fn(Prediction, Prediction) -> u32>(
    overlap: G,
    nms: u32,
    candidates: Seq<Prediction>,
    one: Seq<int>,
    other: Seq<int>,
)
    requires
        is_selection(overlap, nms, candidates, one),
        is_selection(overlap, nms, candidates, other),
        forall|later: Prediction, earlier: Prediction|
            #![trigger apart(overlap, nms, later, earlier)]
            !(apart(overlap, nms, later, earlier) && too_close(overlap, nms, later, earlier)),
    ensures
        one == other,
{
    assert forall|i: int| one.contains(i) == other.contains(i) by {
        if 0 <= i < candidates.len() {
            lemma_same_choice(overlap, nms, candidates, one, other, i);
        }
    }
    if one.len() <= other.len() {
        lemma_same_elements(one, other, one.len() as int);
    } else {
        lemma_same_elements(other, one, other.len() as int);
    }
    if one.len() < other.len() {
        assert(one.contains(other[one.len() as int]));
    }
    if other.len() < one.len() {
        assert(other.contains(one[other.len() as int]));
    }
}

proof fn lemma_same_choice<G: Fn(Prediction, Prediction) -> u32>(
    overlap: G,
    nms: u32,
    candidates: Seq<Prediction>,
    one: Seq<int>,
    other: Seq<int>,
    i: int,
)
    requires
        is_selection(overlap, nms, candidates, one),
        is_selection(overlap, nms, candidates, other),
        forall|later: Prediction, earlier: Prediction|
            #![trigger apart(overlap, nms, later, earlier)]
            !(apart(overlap, nms, later, earlier) && too_close(overlap, nms, later, earlier)),
        0 <= i < candidates.len(),
    ensures
        one.contains(i) == other.contains(i),
    decreases i, 1nat,
{
    if one.contains(i) {
        lemma_not_crowded_out(overlap, nms, candidates, one, other, i);
    }
    if other.contains(i) {
        lemma_not_crowded_out(overlap, nms, candidates, other, one, i);
    }
}

/// What one selection keeps, another does not leave out.
proof fn lemma_not_crowded_out<G: Fn(Prediction, Prediction) -> u32>(
    overlap: G,
    nms: u32,
    candidates: Seq<Prediction>,
    one: Seq<int>,
    other: Seq<int>,
    i: int,
)
    requires
        is_selection(overlap, nms, candidates, one),
        is_selection(overlap, nms, candidates, other),
        forall|later: Prediction, earlier: Prediction|
            #![trigger apart(overlap, nms, later, earlier)]
            !(apart(overlap, nms, later, earlier) && too_close(overlap, nms, later, earlier)),
        0 <= i < candidates.len(),
        one.contains(i),
    ensures
        other.contains(i),
    decreases i, 0nat,
{
    if !other.contains(i) {
        assert(crowded_out(overlap, nms, candidates, other, i));
        let a = choose|a: int|
            0 <= a < other.len() && #[trigger] other[a] < i && too_close(
                overlap,
                nms,
                candidates[i],
                candidates[other[a]],
            );
        lemma_same_choice(overlap, nms, candidates, one, other, other[a]);
        assert(one.contains(other[a]));
        let low = choose|k: int| 0 <= k < one.len() && one[k] == other[a];
        let high = choose|k: int| 0 <= k < one.len() && one[k] == i;
        if high < low {
            assert(one[high] < one[low]);
        }
        assert(apart(overlap, nms, candidates[one[high]], candidates[one[low]]));
    }
}

/// Rising sequences of the same numbers agree as far as both go.
proof fn lemma_same_elements(one: Seq<int>, other: Seq<int>, end: int)
    requires
        0 <= end <= one.len(),
        end <= other.len(),
        forall|a: int, b: int| 0 <= a < b < one.len() ==> #[trigger] one[a] < #[trigger] one[b],
        forall|a: int, b: int|
            0 <= a < b < other.len() ==> #[trigger] other[a] < #[trigger] other[b],
        forall|i: int| #[trigger] one.contains(i) == other.contains(i),
    ensures
        forall|k: int| 0 <= k < end ==> one[k] == other[k],
    decreases end,
{
    if end > 0 {
        lemma_same_elements(one, other, end - 1);
        let k = end - 1;
        let (low, high) = (one[k], other[k]);
        assert(one.contains(low));
        assert(other.contains(high));
        assert(other.contains(low) == one.contains(low));
        assert(one.contains(high) == other.contains(high));
        let p = choose|p: int| 0 <= p < other.len() && other[p] == one[k];
        let q = choose|q: int| 0 <= q < one.len() && one[q] == other[k];
        if one[k] < other[k] {
            assert(p < k);
            assert(one[p] == other[p]);
        }
        if other[k] < one[k] {
            assert(q < k);
            assert(one[q] == other[q]);
        }
    }
}

/// What is chosen is sure enough, the best comes first, and no two overlap too
/// far.
pub proof fn law_chosen_predictions<F: Fn(Anchor) -> Guess, G: Fn(Prediction, Prediction) -> u32>(
    raw: Seq<u32>,
    thresholds: Thresholds,
    guess: F,
    overlap: G,
    chosen: Seq<Prediction>,
    i: int,
    j: int,
)
    requires
        is_output_of(raw, thresholds, guess, overlap, chosen),
        0 <= i < j < chosen.len(),
    ensures
        !ieee::f32_lt(chosen[i].score, thresholds.confidence),
        !ieee::f32_lt(chosen[j].score, thresholds.confidence),
        ieee::f32_total_key(chosen[i].score) >= ieee::f32_total_key(chosen[j].score),
        apart(overlap, thresholds.nms, chosen[j], chosen[i]),
{
    let (all, ranked, kept) = choose|
        all: Seq<Prediction>,
        ranked: Seq<Prediction>,
        kept: Seq<int>,
    |
        {
            &&& #[trigger] all_guessed(guess, anchors_before(raw, ANCHORS as int), all)
            &&& is_ranked(confident(all, thresholds.confidence), ranked)
            &&& #[trigger] is_selection(overlap, thresholds.nms, ranked, kept)
            &&& chosen == picked(ranked, kept)
        };
    let sure = confident(all, thresholds.confidence);
    let keys = score_keys(sure);
    let order = choose|order: Seq<usize>| #[trigger]
        order::is_stable_order(keys, order) && ranked == order.map_values(
            |at: usize| sure[at as int],
        );
    assert(kept[i] < kept[j]);
    assert(chosen[i] == ranked[kept[i]] && chosen[j] == ranked[kept[j]]);
    let (first, second) = (order[kept[i]] as int, order[kept[j]] as int);
    assert(order::precedes(keys, first, second));
    let enough = |p: Prediction| !ieee::f32_lt(p.score, thresholds.confidence);
    assert(sure[first] == chosen[i] && sure[second] == chosen[j]);
    all.lemma_filter_pred(enough, first);
    all.lemma_filter_pred(enough, second);
}

/// A detection stands for the prediction at a position.
pub open spec fn is_detection_of(detection: Detection, prediction: Prediction, index: int) -> bool {
    &&& detection.id@ == "onnx-"@ + text::decimal(index as nat)
    &&& detection.kind == prediction.kind
    &&& detection.x == prediction.x
    &&& detection.y == prediction.y
    &&& detection.width == prediction.width
    &&& detection.height == prediction.height
    &&& detection.depth_m is None
    &&& detection.depth_points == 0
    &&& detection.score == Some(prediction.score)
}

/// The predictions as detections without a depth, numbered from zero.
pub fn detections_of(predictions: &[Prediction]) -> (detections: Vec<Detection>)
    ensures
        detections@.len() == predictions@.len(),
        forall|i: int|
            0 <= i < predictions@.len() ==> is_detection_of(
                #[trigger] detections@[i],
                predictions@[i],
                i,
            ),
{
    let mut detections: Vec<Detection> = Vec::new();
    let mut i: usize = 0;
    while i < predictions.len()
        invariant
            i <= predictions.len(),
            detections.len() == i,
            forall|j: int|
                0 <= j < i ==> is_detection_of(#[trigger] detections@[j], predictions@[j], j),
        decreases predictions.len() - i,
    {
        let prediction = predictions[i];
        let mut id: String = "onnx-".to_owned();
        text::push_decimal(&mut id, i as u128);
        detections.push(
            Detection {
                id,
                kind: prediction.kind,
                x: prediction.x,
                y: prediction.y,
                width: prediction.width,
                height: prediction.height,
                depth_m: None,
                depth_points: 0,
                score: Some(prediction.score),
            },
        );
        i = i + 1;
    }
    detections
}

/// The output runs through each grid line by line: the next row stands one cell to
/// the right, behind the last cell of a line it starts the next line, and behind
/// the last line it starts the next grid, whose cells are twice as wide.
pub proof fn law_rows_run_along_the_lines(row: int)
    requires
        0 <= row < ANCHORS - 1,
    ensures
        anchor_cell(0) == (8int, 0int, 0int),
        ({
            let (stride, gx, gy) = anchor_cell(row);
            let next = anchor_cell(row + 1);
            let last = if stride == 8 {
                51int
            } else if stride == 16 {
                25
            } else {
                12
            };
            if gx < last {
                next == (stride, gx + 1, gy)
            } else if gy < last {
                next == (stride, 0int, gy + 1)
            } else {
                next == (stride + stride, 0int, 0int)
            }
        }),
{
}

proof fn lemma_anchor_at(raw: Seq<u32>, end: int, i: int)
    requires
        0 <= end <= ANCHORS,
        0 <= i < anchors_before(raw, end).len(),
    ensures
        ({
            let anchor = anchors_before(raw, end)[i];
            &&& anchor.row < end
            &&& anchor == anchor_of(raw, anchor.row as int)
            &&& kind_of_class(class_of(raw, anchor.row as int)) is Some
        }),
    decreases end,
{
    if end > 0 {
        let before = anchors_before(raw, end - 1);
        if i < before.len() {
            lemma_anchor_at(raw, end - 1, i);
        }
    }
}

/// An anchor stands for the row of the output that belongs to its cell: behind the
/// grids before its own, behind the lines above it, and behind the cells to its
/// left.
pub proof fn law_anchors_stand_in_their_cells(raw: Seq<u32>, i: int)
    requires
        0 <= i < anchors_before(raw, ANCHORS as int).len(),
    ensures
        ({
            let anchor = anchors_before(raw, ANCHORS as int)[i];
            &&& anchor.stride == 8 || anchor.stride == 16 || anchor.stride == 32
            &&& anchor.stride == 8 ==> anchor.gx < 52 && anchor.gy < 52 && anchor.row == anchor.gy
                * 52 + anchor.gx
            &&& anchor.stride == 16 ==> anchor.gx < 26 && anchor.gy < 26 && anchor.row == 52 * 52
                + anchor.gy * 26 + anchor.gx
            &&& anchor.stride == 32 ==> anchor.gx < 13 && anchor.gy < 13 && anchor.row == 52 * 52
                + 26 * 26 + anchor.gy * 13 + anchor.gx
        }),
{
    lemma_anchor_at(raw, ANCHORS as int, i);
}

proof fn lemma_last_highest_exists(scores: Seq<u32>) -> (at: int)
    requires
        scores.len() > 0,
    ensures
        is_last_highest(scores, at),
    decreases scores.len(),
{
    let before = scores.drop_last();
    let last = scores.len() - 1;
    if before.len() == 0 {
        0
    } else {
        let at = lemma_last_highest_exists(before);
        assert(forall|j: int| 0 <= j < last ==> scores[j] == #[trigger] before[j]);
        assert(before[at] == scores[at]);
        let key = ieee::f32_total_key(scores[last]);
        if key >= ieee::f32_total_key(scores[at]) {
            assert forall|j: int| 0 <= j < last implies ieee::f32_total_key(#[trigger] scores[j])
                <= key by {
                assert(before[j] == scores[j]);
            }
            last
        } else {
            assert forall|j: int| 0 <= j < at implies ieee::f32_total_key(#[trigger] scores[j])
                <= ieee::f32_total_key(scores[at]) by {
                assert(before[j] == scores[j]);
            }
            assert forall|j: int| at < j < scores.len() implies ieee::f32_total_key(
                #[trigger] scores[j],
            ) < ieee::f32_total_key(scores[at]) by {
                if j < last {
                    assert(before[j] == scores[j]);
                }
            }
            at
        }
    }
}

/// An anchor sees the class that scores highest among the eighty numbers behind the
/// box and the object score in its row, and of several the last; it is a class that
/// is kept.
pub proof fn law_anchors_see_the_best_class(raw: Seq<u32>, i: int, class: int)
    requires
        ANCHORS * ROW <= raw.len(),
        0 <= i < anchors_before(raw, ANCHORS as int).len(),
        0 <= class < 80,
    ensures
        ({
            let anchor = anchors_before(raw, ANCHORS as int)[i];
            let start = anchor.row * 85 + 5;
            let best = ieee::f32_total_key(raw[start + anchor.class]);
            &&& anchor.class < 80
            &&& ieee::f32_total_key(raw[start + class]) <= best
            &&& anchor.class < class ==> ieee::f32_total_key(raw[start + class]) < best
            &&& kind_of_class(anchor.class as int) is Some
        }),
{
    lemma_anchor_at(raw, ANCHORS as int, i);
    let anchor = anchors_before(raw, ANCHORS as int)[i];
    let scores = class_scores(raw, anchor.row as int);
    assert(scores.len() == 80);
    let at = lemma_last_highest_exists(scores);
    assert(is_last_highest(scores, class_of(raw, anchor.row as int)));
    assert(scores[class] == raw[anchor.row * 85 + 5 + class]);
    assert(scores[anchor.class as int] == raw[anchor.row * 85 + 5 + anchor.class]);
}

/// Every row of the output whose best class is kept has its anchor, and the anchors
/// come in the order of their rows.
pub proof fn law_kept_rows_have_anchors(raw: Seq<u32>, row: int, class: int)
    requires
        ANCHORS * ROW <= raw.len(),
        0 <= row < ANCHORS,
        0 <= class < 80,
        kind_of_class(class) is Some,
        forall|c: int|
            0 <= c < class ==> ieee::f32_total_key(#[trigger] raw[row * 85 + 5 + c])
                <= ieee::f32_total_key(raw[row * 85 + 5 + class]),
        forall|c: int|
            class < c < 80 ==> ieee::f32_total_key(#[trigger] raw[row * 85 + 5 + c])
                < ieee::f32_total_key(raw[row * 85 + 5 + class]),
    ensures
        exists|i: int|
            0 <= i < anchors_before(raw, ANCHORS as int).len() && (#[trigger] anchors_before(
                raw,
                ANCHORS as int,
            )[i]).row == row && anchors_before(raw, ANCHORS as int)[i].class == class,
        forall|i: int, j: int|
            0 <= i < j < anchors_before(raw, ANCHORS as int).len() ==> (#[trigger] anchors_before(
                raw,
                ANCHORS as int,
            )[i]).row < (#[trigger] anchors_before(raw, ANCHORS as int)[j]).row,
{
    let scores = class_scores(raw, row);
    assert(scores.len() == 80);
    assert forall|c: int| 0 <= c < 80 implies #[trigger] scores[c] == raw[row * 85 + 5 + c] by {}
    assert(is_last_highest(scores, class));
    lemma_last_highest_is_one(scores, class, class_of(raw, row));
    lemma_anchor_of_row(raw, ANCHORS as int, row);
    lemma_anchors_rise(raw, ANCHORS as int);
}

proof fn lemma_anchor_of_row(raw: Seq<u32>, end: int, row: int)
    requires
        0 <= row < end <= ANCHORS,
        kind_of_class(class_of(raw, row)) is Some,
    ensures
        exists|i: int|
            0 <= i < anchors_before(raw, end).len() && #[trigger] anchors_before(raw, end)[i]
                == anchor_of(raw, row),
    decreases end,
{
    let before = anchors_before(raw, end - 1);
    if row == end - 1 {
        assert(anchors_before(raw, end)[before.len() as int] == anchor_of(raw, row));
    } else {
        lemma_anchor_of_row(raw, end - 1, row);
        let i = choose|i: int|
            0 <= i < before.len() && #[trigger] anchors_before(raw, end - 1)[i] == anchor_of(
                raw,
                row,
            );
        assert(anchors_before(raw, end)[i] == anchor_of(raw, row));
    }
}

proof fn lemma_anchors_rise(raw: Seq<u32>, end: int)
    requires
        0 <= end <= ANCHORS,
    ensures
        forall|i: int, j: int|
            0 <= i < j < anchors_before(raw, end).len() ==> (#[trigger] anchors_before(
                raw,
                end,
            )[i]).row < (#[trigger] anchors_before(raw, end)[j]).row,
    decreases end,
{
    if end > 0 {
        lemma_anchors_rise(raw, end - 1);
        let before = anchors_before(raw, end - 1);
        let all = anchors_before(raw, end);
        assert forall|i: int, j: int| 0 <= i < j < all.len() implies (#[trigger] all[i]).row < (
        #[trigger] all[j]).row by {
            assert(all[i] == before[i]);
            lemma_anchor_at(raw, end - 1, i);
            if j < before.len() {
                assert(all[j] == before[j]);
                assert(anchors_before(raw, end - 1)[i].row < anchors_before(raw, end - 1)[j].row);
            }
        }
    }
}

/// People, bicycles and motorcycles, cars, buses and trucks, and stop signs are
/// kept, each under the name that the dataset has for its type of object.
pub proof fn law_kept_classes(class: int)
    ensures
        kind_of_class(class) is Some <==> 0 <= class <= 3 || class == 5 || class == 7 || class
            == 11,
        kind_of_class(class) is Some ==> kind_of_class(class) == Some(
            fusion::object_type_text(
                if class == 0 {
                    2
                } else if class == 11 {
                    3
                } else if class == 1 || class == 3 {
                    4
                } else {
                    1
                },
            ),
        ),
{
}

/// A threshold is a number from zero to one.
pub proof fn law_shares_lie_between_zero_and_one(bits: u32)
    ensures
        is_share(bits) <==> ieee::f32_is_finite(bits) && 0 <= ieee::f32_value(bits)
            <= vstd::arithmetic::power2::pow2(149),
{
    vstd::arithmetic::power2::lemma2_to64();
    vstd::arithmetic::power2::lemma_pow2_adds(23, 126);
    assert(ieee::f32_value(ONE) == vstd::arithmetic::power2::pow2(149));
    assert(ieee::f32_value(0) == 0);
    if ieee::f32_is_finite(bits) {
        ieee::law_f32_order(0, bits);
        ieee::law_f32_order(bits, ONE);
    }
}

proof fn lemma_output_parts<F: Fn(Anchor) -> Guess, G: Fn(Prediction, Prediction) -> u32>(
    raw: Seq<u32>,
    thresholds: Thresholds,
    guess: F,
    overlap: G,
    chosen: Seq<Prediction>,
) -> (parts: (Seq<Prediction>, Seq<usize>, Seq<Prediction>, Seq<int>))
    requires
        is_output_of(raw, thresholds, guess, overlap, chosen),
    ensures
        all_guessed(guess, anchors_before(raw, ANCHORS as int), parts.0),
        order::is_stable_order(
            score_keys(confident(parts.0, thresholds.confidence)),
            parts.1,
        ),
        parts.2 == parts.1.map_values(
            |at: usize| confident(parts.0, thresholds.confidence)[at as int],
        ),
        is_selection(overlap, thresholds.nms, parts.2, parts.3),
        chosen == picked(parts.2, parts.3),
{
    let (all, ranked, kept) = choose|
        all: Seq<Prediction>,
        ranked: Seq<Prediction>,
        kept: Seq<int>,
    |
        {
            &&& #[trigger] all_guessed(guess, anchors_before(raw, ANCHORS as int), all)
            &&& is_ranked(confident(all, thresholds.confidence), ranked)
            &&& #[trigger] is_selection(overlap, thresholds.nms, ranked, kept)
            &&& chosen == picked(ranked, kept)
        };
    let sure = confident(all, thresholds.confidence);
    let order = choose|order: Seq<usize>| #[trigger]
        order::is_stable_order(score_keys(sure), order) && ranked == order.map_values(
            |at: usize| sure[at as int],
        );
    (all, order, ranked, kept)
}

/// What is chosen is what `guess` makes of an anchor: the score, the corner and the
/// size are those of the guess, and the name is that of the anchor's class.
pub proof fn law_chosen_predictions_are_guesses<
    F: Fn(Anchor) -> Guess,
    G: Fn(Prediction, Prediction) -> u32,
>(
    raw: Seq<u32>,
    thresholds: Thresholds,
    guess: F,
    overlap: G,
    chosen: Seq<Prediction>,
    i: int,
)
    requires
        is_output_of(raw, thresholds, guess, overlap, chosen),
        0 <= i < chosen.len(),
    ensures
        exists|a: int, made: Guess|
            {
                &&& 0 <= a < anchors_before(raw, ANCHORS as int).len()
                &&& #[trigger] call_ensures(
                    guess,
                    (anchors_before(raw, ANCHORS as int)[a],),
                    made,
                )
                &&& chosen[i].score == made.score
                &&& chosen[i].x == made.x
                &&& chosen[i].y == made.y
                &&& chosen[i].width == made.width
                &&& chosen[i].height == made.height
                &&& Some(chosen[i].kind@) == kind_of_class(
                    anchors_before(raw, ANCHORS as int)[a].class as int,
                )
            },
        !ieee::f32_lt(chosen[i].score, thresholds.confidence),
{
    let (all, order, ranked, kept) = lemma_output_parts(raw, thresholds, guess, overlap, chosen);
    let sure = confident(all, thresholds.confidence);
    let enough = |p: Prediction| !ieee::f32_lt(p.score, thresholds.confidence);
    assert(0 <= kept[i] < ranked.len());
    let first = order[kept[i]] as int;
    assert(chosen[i] == sure[first]);
    all.lemma_filter_pred(enough, first);
    assert(sure.contains(chosen[i]));
    all.lemma_filter_contains_rev(enough, chosen[i]);
    let a = choose|a: int| 0 <= a < all.len() && all[a] == chosen[i];
    let anchors = anchors_before(raw, ANCHORS as int);
    assert(is_guessed(guess, anchors[a], all[a]));
    let made = Guess {
        score: all[a].score,
        x: all[a].x,
        y: all[a].y,
        width: all[a].width,
        height: all[a].height,
    };
    assert(call_ensures(guess, (anchors[a],), made));
}

/// Of two that are chosen, `overlap` puts no more than the limit in common.
pub proof fn law_chosen_predictions_overlap_little<
    F: Fn(Anchor) -> Guess,
    G: Fn(Prediction, Prediction) -> u32,
>(
    raw: Seq<u32>,
    thresholds: Thresholds,
    guess: F,
    overlap: G,
    chosen: Seq<Prediction>,
    i: int,
    j: int,
)
    requires
        is_output_of(raw, thresholds, guess, overlap, chosen),
        0 <= i < j < chosen.len(),
    ensures
        exists|share: u32| #[trigger]
            call_ensures(overlap, (chosen[j], chosen[i]), share) && ieee::f32_le(
                share,
                thresholds.nms,
            ),
{
    law_chosen_predictions(raw, thresholds, guess, overlap, chosen, i, j);
}

/// Nothing is left out without a reason: what `guess` makes of an anchor is chosen,
/// or it scores below the confidence, or `overlap` puts more than the limit in
/// common with one that was chosen and scores no less.
pub proof fn law_left_out_predictions<
    F: Fn(Anchor) -> Guess,
    G: Fn(Prediction, Prediction) -> u32,
>(
    raw: Seq<u32>,
    thresholds: Thresholds,
    guess: F,
    overlap: G,
    chosen: Seq<Prediction>,
    a: int,
)
    requires
        is_output_of(raw, thresholds, guess, overlap, chosen),
        0 <= a < anchors_before(raw, ANCHORS as int).len(),
    ensures
        exists|made: Prediction| #[trigger]
            is_guessed(guess, anchors_before(raw, ANCHORS as int)[a], made) && {
                ||| chosen.contains(made)
                ||| ieee::f32_lt(made.score, thresholds.confidence)
                ||| exists|j: int, share: u32|
                    {
                        &&& 0 <= j < chosen.len()
                        &&& ieee::f32_total_key(made.score) <= ieee::f32_total_key(chosen[j].score)
                        &&& #[trigger] call_ensures(overlap, (made, chosen[j]), share)
                        &&& !ieee::f32_le(share, thresholds.nms)
                    }
            },
{
    let (all, order, ranked, kept) = lemma_output_parts(raw, thresholds, guess, overlap, chosen);
    let sure = confident(all, thresholds.confidence);
    let keys = score_keys(sure);
    let made = all[a];
    assert(is_guessed(guess, anchors_before(raw, ANCHORS as int)[a], made));
    if !ieee::f32_lt(made.score, thresholds.confidence) {
        let enough = |p: Prediction| !ieee::f32_lt(p.score, thresholds.confidence);
        assert(enough(all[a]));
        all.lemma_filter_contains(enough, a);
        let s = choose|s: int| 0 <= s < sure.len() && sure[s] == made;
        lemma_anchors_bound(raw, ANCHORS as int);
        all.lemma_filter_len(enough);
        assert(order.contains(s as usize));
        let r = choose|r: int| 0 <= r < order.len() && order[r] == s;
        assert(ranked[r] == made);
        if kept.contains(r) {
            let k = choose|k: int| 0 <= k < kept.len() && kept[k] == r;
            assert(chosen[k] == made);
        } else {
            assert(crowded_out(overlap, thresholds.nms, ranked, kept, r));
            let k = choose|k: int|
                0 <= k < kept.len() && #[trigger] kept[k] < r && too_close(
                    overlap,
                    thresholds.nms,
                    ranked[r],
                    ranked[kept[k]],
                );
            assert(0 <= kept[k] < ranked.len());
            assert(chosen[k] == ranked[kept[k]]);
            assert(order::precedes(keys, order[kept[k]] as int, order[r] as int));
            assert(sure[order[kept[k]] as int] == chosen[k]);
            let share = choose|share: u32| #[trigger]
                call_ensures(overlap, (ranked[r], ranked[kept[k]]), share) && !ieee::f32_le(
                    share,
                    thresholds.nms,
                );
            assert(call_ensures(overlap, (made, chosen[k]), share));
        }
    }
}

proof fn lemma_anchors_bound(raw: Seq<u32>, end: int)
    requires
        0 <= end,
    ensures
        anchors_before(raw, end).len() <= end,
    decreases end,
{
    if end > 0 {
        lemma_anchors_bound(raw, end - 1);
    }
}

/// A detection takes over what was predicted, its corner as its corner and its size
/// as its size; it is numbered from zero and has no depth.
pub proof fn law_detections_take_over_predictions(
    detection: Detection,
    prediction: Prediction,
    index: int,
)
    requires
        is_detection_of(detection, prediction, index),
        index >= 0,
    ensures
        detection.x == prediction.x,
        detection.y == prediction.y,
        detection.width == prediction.width,
        detection.height == prediction.height,
        detection.kind == prediction.kind,
        detection.score == Some(prediction.score),
        detection.depth_m is None,
        detection.depth_points == 0,
        detection.id@.take(5) == "onnx-"@,
        text::decimal_value(detection.id@.skip(5)) == index,
{
    reveal_strlit("onnx-");
    let digits = text::decimal(index as nat);
    assert(detection.id@.take(5) =~= "onnx-"@);
    assert(detection.id@.skip(5) =~= digits);
    text::law_decimal_reads_back(index as nat);
}

} // verus!
