//! The vote of the oscillators of one analyzer: how often each bin was
//! named, which pair of neighbouring bins has most votes, and the frequency
//! that the pair stands for.

use vstd::prelude::*;
use vstd::arithmetic::div_mod::{
    lemma_div_multiples_vanish_quotient,
    lemma_fundamental_div_mod,
    lemma_hoist_over_denominator,
};
use crate::arith::lemma_quotient_at_most;
use crate::config::{
    LARGEST_SETTING,
    MICRO,
    MIN_AGREEMENT_DENOMINATOR,
    MIN_AGREEMENT_NUMERATOR,
};

verus! {

/// How many of the votes name `bin`.
pub open spec fn tally(votes: Seq<Option<usize>>, bin: int) -> nat
    decreases votes.len(),
{
    if votes.len() == 0 {
        0
    } else {
        tally(votes.drop_last(), bin) + match votes.last() {
            Some(named) => if named == bin {
                1nat
            } else {
                0nat
            },
            None => 0nat,
        }
    }
}

/// How many of the votes name a bin at all.
pub open spec fn turnout(votes: Seq<Option<usize>>) -> nat
    decreases votes.len(),
{
    if votes.len() == 0 {
        0
    } else {
        turnout(votes.drop_last()) + match votes.last() {
            Some(_) => 1nat,
            None => 0nat,
        }
    }
}

/// The votes for `bin` and for the bin above it.
pub open spec fn pair_votes(votes: Seq<Option<usize>>, bin: int) -> nat {
    tally(votes, bin) + tally(votes, bin + 1)
}

/// `bin` and the bin above it are a pair of bins of the half spectrum of
/// `window` samples.
pub open spec fn is_pair(window: nat, bin: int) -> bool {
    0 <= bin && bin + 1 < window / 2
}

/// `bin` and the bin above it are the pair with most votes, and the lowest
/// such pair.
pub open spec fn is_winning_pair(votes: Seq<Option<usize>>, window: nat, bin: int) -> bool {
    &&& is_pair(window, bin)
    &&& forall|other: int| #[trigger]
        is_pair(window, other) ==> pair_votes(votes, other) <= pair_votes(votes, bin) && (other
            < bin ==> pair_votes(votes, other) < pair_votes(votes, bin))
}

/// More than the least share of the votes cast went to `bin` or the bin above
/// it.
pub open spec fn is_agreed(votes: Seq<Option<usize>>, bin: int) -> bool {
    MIN_AGREEMENT_DENOMINATOR * pair_votes(votes, bin) > MIN_AGREEMENT_NUMERATOR * turnout(votes)
}

/// The frequency of `bin`, in millionths of a hertz, rounded down: `bin *
/// frame_rate / window` hertz.
pub open spec fn bin_frequency(frame_rate: int, window: int, bin: int) -> int {
    (MICRO as int * frame_rate * bin) / window
}

/// The mean of the frequencies of `bin` and of the bin above it, in millionths
/// of a hertz and rounded down, where `bin` counts `lower` times and the bin
/// above it `upper` times.
pub open spec fn interpolation(
    frame_rate: int,
    window: int,
    bin: int,
    lower: int,
    upper: int,
) -> int {
    (MICRO as int * frame_rate * (bin * lower + (bin + 1) * upper)) / (window * (lower + upper))
}

/// The frequency that the votes stand for: that of the winning pair, each of
/// its two bins weighed by its votes, if the pair has more than the least
/// share of the votes cast; none otherwise.
pub open spec fn estimate_of(frame_rate: nat, window: nat, votes: Seq<Option<usize>>) -> Option<
    u64,
> {
    if exists|bin: int| is_winning_pair(votes, window, bin) && is_agreed(votes, bin) {
        let bin = choose|bin: int| is_winning_pair(votes, window, bin) && is_agreed(votes, bin);
        Some(
            interpolation(
                frame_rate as int,
                window as int,
                bin,
                tally(votes, bin) as int,
                tally(votes, bin + 1) as int,
            ) as u64,
        )
    } else {
        None
    }
}

/// Two different bins cannot have more votes together than were cast.
pub proof fn lemma_tally_bound(votes: Seq<Option<usize>>, bin: int, other: int)
    requires
        bin != other,
    ensures
        tally(votes, bin) + tally(votes, other) <= turnout(votes) <= votes.len(),
    decreases votes.len(),
{
    if votes.len() > 0 {
        lemma_tally_bound(votes.drop_last(), bin, other);
    }
}

/// Where every vote names `bin`, all votes are for `bin`.
pub proof fn lemma_tally_of_unanimous(votes: Seq<Option<usize>>, bin: usize)
    requires
        forall|i: int| 0 <= i < votes.len() ==> votes[i] == Some(bin),
    ensures
        tally(votes, bin as int) == votes.len(),
        turnout(votes) == votes.len(),
    decreases votes.len(),
{
    if votes.len() > 0 {
        lemma_tally_of_unanimous(votes.drop_last(), bin);
    }
}

/// Where no vote names a bin, none were cast.
pub proof fn lemma_turnout_of_silence(votes: Seq<Option<usize>>)
    requires
        forall|i: int| 0 <= i < votes.len() ==> votes[i] is None,
    ensures
        turnout(votes) == 0,
        forall|bin: int| #[trigger] tally(votes, bin) == 0,
    decreases votes.len(),
{
    if votes.len() > 0 {
        lemma_turnout_of_silence(votes.drop_last());
        assert forall|bin: int| #[trigger] tally(votes, bin) == 0 by {
            assert(tally(votes.drop_last(), bin) == 0);
        }
    }
}

/// There is one winning pair at most.
pub proof fn lemma_winning_pair_is_unique(
    votes: Seq<Option<usize>>,
    window: nat,
    bin: int,
    other: int,
)
    requires
        is_winning_pair(votes, window, bin),
        is_winning_pair(votes, window, other),
    ensures
        bin == other,
{
}

/// Where every vote names the same bin, the votes stand for the frequency of
/// that bin.
pub proof fn lemma_unanimous_votes(
    frame_rate: nat,
    window: nat,
    votes: Seq<Option<usize>>,
    bin: usize,
)
    requires
        votes.len() > 0,
        forall|i: int| 0 <= i < votes.len() ==> votes[i] == Some(bin),
        1 <= bin < window / 2,
        frame_rate <= LARGEST_SETTING,
    ensures
        estimate_of(frame_rate, window, votes) == Some(
            bin_frequency(frame_rate as int, window as int, bin as int) as u64,
        ),
{
    let n = votes.len() as int;
    let below = bin as int - 1;
    lemma_tally_of_unanimous(votes, bin);
    assert forall|other: int| other != bin implies #[trigger] tally(votes, other) == 0 by {
        lemma_tally_bound(votes, bin as int, other);
    }
    assert(is_pair(window, below));
    assert(tally(votes, below) == 0);
    assert(pair_votes(votes, below) == n);
    assert forall|other: int| #[trigger] is_pair(window, other) implies pair_votes(votes, other)
        <= pair_votes(votes, below) && (other < below ==> pair_votes(votes, other) < pair_votes(
        votes,
        below,
    )) by {
        lemma_tally_bound(votes, other, other + 1);
        if other < below {
            assert(tally(votes, other) == 0);
            assert(tally(votes, other + 1) == 0);
        }
    }
    assert(is_winning_pair(votes, window, below) && is_agreed(votes, below));
    let chosen = choose|k: int| is_winning_pair(votes, window, k) && is_agreed(votes, k);
    lemma_winning_pair_is_unique(votes, window, chosen, below);
    let scaled = MICRO as int * frame_rate as int;
    assert(scaled * (below * 0 + (below + 1) * n) == n * (scaled * bin)) by (nonlinear_arith)
        requires
            below + 1 == bin,
    ;
    assert(window as int * (0 + n) == n * window as int) by (nonlinear_arith);
    assert(0 <= scaled * bin <= scaled * window) by (nonlinear_arith)
        requires
            0 <= scaled,
            0 <= bin < window,
    ;
    lemma_div_multiples_vanish_quotient(n, scaled * bin, window as int);
    lemma_quotient_at_most(scaled * bin, scaled, window as int);
    assert(scaled <= 1_000_000 * 0x3fff_ffff) by (nonlinear_arith)
        requires
            scaled == MICRO as int * frame_rate as int,
            MICRO == 1_000_000,
            frame_rate <= 0x3fff_ffff,
    ;
}

/// Where no vote names a bin, the votes stand for no frequency.
pub proof fn lemma_silent_votes(frame_rate: nat, window: nat, votes: Seq<Option<usize>>)
    requires
        forall|i: int| 0 <= i < votes.len() ==> votes[i] is None,
    ensures
        estimate_of(frame_rate, window, votes) is None,
{
    lemma_turnout_of_silence(votes);
    assert forall|bin: int| !is_agreed(votes, bin) by {
        assert(tally(votes, bin) == 0);
        assert(tally(votes, bin + 1) == 0);
    }
}

/// The quotient of a sum of a multiple of the divisor and a rest.
proof fn lemma_interpolation_split(scaled: int, bin: int, window: int, lower: int, upper: int)
    requires
        scaled >= 0,
        bin >= 0,
        window > 0,
        lower >= 0,
        upper >= 0,
        lower + upper > 0,
    ensures
        window * (lower + upper) > 0,
        (scaled * (bin * lower + (bin + 1) * upper)) / (window * (lower + upper)) == (scaled
            * bin) / window + (((scaled * bin) % window) * (lower + upper) + scaled * upper) / (
        window * (lower + upper)),
{
    let whole = scaled * bin;
    let cast = lower + upper;
    let divisor = window * cast;
    let quotient = whole / window;
    let rest = whole % window;
    assert(divisor > 0) by (nonlinear_arith)
        requires
            divisor == window * cast,
            window > 0,
            cast > 0,
    ;
    lemma_fundamental_div_mod(whole, window);
    assert(bin * lower + (bin + 1) * upper == bin * cast + upper) by (nonlinear_arith)
        requires
            cast == lower + upper,
    ;
    assert(scaled * (bin * cast + upper) == whole * cast + scaled * upper) by (nonlinear_arith)
        requires
            whole == scaled * bin,
    ;
    assert(whole * cast == rest * cast + quotient * divisor) by (nonlinear_arith)
        requires
            whole == window * quotient + rest,
            divisor == window * cast,
    ;
    lemma_hoist_over_denominator(rest * cast + scaled * upper, quotient, divisor as nat);
}

/// Counts the votes: `counts[bin]` is the number of votes for `bin`, for
/// each bin below `bins`, and `cast` is the number of votes that name a bin.
fn count_votes(votes: &Vec<Option<usize>>, bins: usize) -> (counted: (Vec<usize>, usize))
    requires
        forall|i: int| 0 <= i < votes.len() ==> (#[trigger] votes[i] matches Some(bin) ==> bin
            < bins),
    ensures
        counted.0.len() == bins,
        forall|bin: int| 0 <= bin < bins ==> counted.0[bin] == tally(votes@, bin),
        counted.1 == turnout(votes@),
{
    let mut counts: Vec<usize> = Vec::new();
    let mut filled: usize = 0;
    while filled < bins
        invariant
            filled <= bins,
            counts.len() == filled,
            forall|bin: int| 0 <= bin < filled ==> counts[bin] == 0,
        decreases bins - filled,
    {
        counts.push(0);
        filled = filled + 1;
    }
    let mut cast: usize = 0;
    let mut i: usize = 0;
    assert(votes@.take(0).len() == 0);
    while i < votes.len()
        invariant
            i <= votes.len(),
            counts.len() == bins,
            forall|j: int| 0 <= j < votes.len() ==> (#[trigger] votes[j] matches Some(bin) ==> bin
                < bins),
            forall|bin: int| 0 <= bin < bins ==> counts[bin] == tally(votes@.take(i as int), bin),
            cast == turnout(votes@.take(i as int)),
        decreases votes.len() - i,
    {
        let ghost seen = votes@.take(i as int);
        let ghost more = votes@.take(i + 1);
        assert(more.drop_last() == seen);
        assert(more.last() == votes[i as int]);
        match votes[i] {
            Some(bin) => {
                proof {
                    lemma_tally_bound(seen, bin as int, bin + 1);
                }
                counts[bin] = counts[bin] + 1;
                cast = cast + 1;
            },
            None => {},
        }
        i = i + 1;
    }
    assert(votes@.take(i as int) == votes@);
    (counts, cast)
}

/// The place of the pair of neighbouring counts with the greatest sum, the
/// lowest such place; none where there are fewer than two counts.
fn strongest_pair(counts: &Vec<usize>) -> (best: Option<usize>)
    ensures
        best matches Some(bin) ==> bin + 1 < counts.len() && forall|other: int|
            0 <= other && other + 1 < counts.len() ==> (#[trigger] counts[other]) + counts[other
                + 1] <= counts[bin as int] + counts[bin + 1] && (other < bin ==> counts[other]
                + counts[other + 1] < counts[bin as int] + counts[bin + 1]),
        best is None ==> counts.len() < 2,
{
    if counts.len() < 2 {
        return None;
    }
    let mut best: usize = 0;
    let mut most: u128 = counts[0] as u128 + counts[1] as u128;
    let mut next: usize = 1;
    while next + 1 < counts.len()
        invariant
            1 <= next < counts.len(),
            best < next,
            most == counts[best as int] + counts[best + 1],
            forall|other: int|
                0 <= other < next ==> (#[trigger] counts[other]) + counts[other + 1] <= most && (
                other < best ==> counts[other] + counts[other + 1] < most),
        decreases counts.len() - next,
    {
        let sum: u128 = counts[next] as u128 + counts[next + 1] as u128;
        if sum > most {
            best = next;
            most = sum;
        }
        next = next + 1;
    }
    Some(best)
}

/// Computes [`interpolation`].
fn interpolate(frame_rate: usize, window: usize, bin: usize, lower: usize, upper: usize) -> (mean:
    u64)
    requires
        frame_rate <= LARGEST_SETTING,
        1 <= window <= LARGEST_SETTING,
        bin < window,
        lower + upper >= 1,
        lower + upper <= usize::MAX,
    ensures
        mean == interpolation(
            frame_rate as int,
            window as int,
            bin as int,
            lower as int,
            upper as int,
        ),
{
    let ghost s = MICRO as int * frame_rate as int;
    let ghost k = bin as int;
    let ghost w = window as int;
    let ghost c = lower as int + upper as int;
    proof {
        lemma_interpolation_split(s, k, w, lower as int, upper as int);
        assert(0 <= s <= 1_000_000 * 0x3fff_ffff) by (nonlinear_arith)
            requires
                s == MICRO as int * frame_rate as int,
                MICRO == 1_000_000,
                0 <= frame_rate <= 0x3fff_ffff,
        ;
        assert(0 <= s * k <= s * w && s * w <= 1_000_000 * 0x3fff_ffff * 0x3fff_ffff)
            by (nonlinear_arith)
            requires
                0 <= s <= 1_000_000 * 0x3fff_ffff,
                0 <= k < w,
                w <= 0x3fff_ffff,
        ;
        lemma_quotient_at_most(s * k, s, w);
        assert(0 <= (s * k) % w < w) by (nonlinear_arith)
            requires
                w > 0,
        ;
        assert(0 <= ((s * k) % w) * c <= 0x3fff_ffff * 0xffff_ffff_ffff_ffff) by (nonlinear_arith)
            requires
                0 <= (s * k) % w < w,
                w <= 0x3fff_ffff,
                0 <= c <= 0xffff_ffff_ffff_ffff,
        ;
        assert(0 <= s * upper <= s * c && s * c <= 1_000_000 * 0x3fff_ffff * 0xffff_ffff_ffff_ffff)
            by (nonlinear_arith)
            requires
                0 <= s <= 1_000_000 * 0x3fff_ffff,
                0 <= upper <= c,
                c <= 0xffff_ffff_ffff_ffff,
        ;
        assert(0 < w * c <= 0x3fff_ffff * 0xffff_ffff_ffff_ffff) by (nonlinear_arith)
            requires
                0 < w <= 0x3fff_ffff,
                0 < c <= 0xffff_ffff_ffff_ffff,
        ;
        assert(((s * k) % w) * c + s * upper <= (s + 1) * (w * c)) by (nonlinear_arith)
            requires
                0 <= (s * k) % w < w,
                0 <= s * upper <= s * c,
                0 < c,
                1 <= w,
                0 <= s,
        ;
        lemma_quotient_at_most(((s * k) % w) * c + s * upper, s + 1, w * c);
    }
    let scaled: u128 = MICRO as u128 * frame_rate as u128;
    let whole: u128 = scaled * bin as u128;
    let cast: u128 = lower as u128 + upper as u128;
    let rest: u128 = (whole % window as u128) * cast + scaled * upper as u128;
    let mean: u128 = whole / window as u128 + rest / (window as u128 * cast);
    mean as u64
}

/// The frequency, in millionths of a hertz, that the votes of the oscillators
/// of an analyzer of the given frame rate and window stand for: see
/// [`estimate_of`]. Each vote is the bin that one oscillator names, a bin of
/// the lower half of its spectrum, or none.
pub fn estimate(frame_rate: usize, window: usize, votes: &Vec<Option<usize>>) -> (frequency:
    Option<u64>)
    requires
        frame_rate <= LARGEST_SETTING,
        1 <= window <= LARGEST_SETTING,
        forall|i: int| 0 <= i < votes.len() ==> (#[trigger] votes[i] matches Some(bin) ==> bin
            < window / 2),
    ensures
        frequency == estimate_of(frame_rate as nat, window as nat, votes@),
{
    let (counts, cast) = count_votes(votes, window / 2);
    match strongest_pair(&counts) {
        None => {
            assert forall|bin: int| !is_pair(window as nat, bin) by {}
            None
        },
        Some(bin) => {
            let lower: usize = counts[bin];
            let upper: usize = counts[bin + 1];
            proof {
                lemma_tally_bound(votes@, bin as int, bin + 1);
                let most = pair_votes(votes@, bin as int);
                assert forall|other: int| #[trigger]
                    is_pair(window as nat, other) implies pair_votes(votes@, other) <= most && (
                other < bin ==> pair_votes(votes@, other) < most) by {
                    assert(counts[other] + counts[other + 1] == pair_votes(votes@, other));
                }
                assert(is_winning_pair(votes@, window as nat, bin as int));
                assert forall|other: int|
                    is_winning_pair(votes@, window as nat, other) implies other == bin by {
                    lemma_winning_pair_is_unique(votes@, window as nat, other, bin as int);
                }
            }
            if MIN_AGREEMENT_DENOMINATOR as u128 * (lower as u128 + upper as u128)
                > MIN_AGREEMENT_NUMERATOR as u128 * cast as u128 {
                assert(is_agreed(votes@, bin as int));
                Some(interpolate(frame_rate, window, bin, lower, upper))
            } else {
                assert(!is_agreed(votes@, bin as int));
                None
            }
        },
    }
}

} // verus!
