//! The category classifier and tie-break comparator for five-card hands.

use vstd::prelude::*;
use core::cmp::Ordering;
use crate::hand::{Hand, hand_value, sorted_desc};

verus! {

/// The ten poker hand categories, strongest first.
#[derive(Debug, PartialEq, Eq, Structural, Clone, Copy)]
pub enum Ranking {
    FiveOfAKind,
    StraightFlush,
    FourOfAKind,
    FullHouse,
    Flush,
    Straight,
    ThreeOfAKind,
    TwoPair,
    OnePair,
    HighCard,
}

/// The strength of a category: `FiveOfAKind` is 10, down to `HighCard` at 1.
/// A hand of a higher-valued category beats any hand of a lower-valued one.
pub open spec fn ranking_value(r: Ranking) -> int {
    match r {
        Ranking::FiveOfAKind => 10,
        Ranking::StraightFlush => 9,
        Ranking::FourOfAKind => 8,
        Ranking::FullHouse => 7,
        Ranking::Flush => 6,
        Ranking::Straight => 5,
        Ranking::ThreeOfAKind => 4,
        Ranking::TwoPair => 3,
        Ranking::OnePair => 2,
        Ranking::HighCard => 1,
    }
}

/// 1 when the condition holds, else 0; for counting cards.
pub open spec fn b2i(b: bool) -> int {
    if b {
        1
    } else {
        0
    }
}

/// How many of the five cards of `s` have rank value `v`: the size of the
/// rank-group of `v`.
pub open spec fn count_rank(s: Seq<Hand>, v: int) -> int {
    b2i(hand_value(s[0]) == v) + b2i(hand_value(s[1]) == v) + b2i(hand_value(s[2]) == v) + b2i(
        hand_value(s[3]) == v,
    ) + b2i(hand_value(s[4]) == v)
}

/// Whether some rank appears exactly `n` times in `s`: a rank-group of size
/// `n` exists. Any such rank is the rank of one of the five cards.
pub open spec fn has_group_of(s: Seq<Hand>, n: int) -> bool {
    ||| count_rank(s, hand_value(s[0])) == n
    ||| count_rank(s, hand_value(s[1])) == n
    ||| count_rank(s, hand_value(s[2])) == n
    ||| count_rank(s, hand_value(s[3])) == n
    ||| count_rank(s, hand_value(s[4])) == n
}

/// Whether rank value `v` occurs in `s` at all.
pub open spec fn has_rank(s: Seq<Hand>, v: int) -> bool {
    count_rank(s, v) >= 1
}

/// The number of distinct rank values among the five cards: each card counts
/// unless an earlier card already has its rank.
pub open spec fn distinct_count(s: Seq<Hand>) -> int {
    1 + b2i(hand_value(s[1]) != hand_value(s[0])) + b2i(
        hand_value(s[2]) != hand_value(s[0]) && hand_value(s[2]) != hand_value(s[1]),
    ) + b2i(
        hand_value(s[3]) != hand_value(s[0]) && hand_value(s[3]) != hand_value(s[1]) && hand_value(
            s[3],
        ) != hand_value(s[2]),
    ) + b2i(
        hand_value(s[4]) != hand_value(s[0]) && hand_value(s[4]) != hand_value(s[1]) && hand_value(
            s[4],
        ) != hand_value(s[2]) && hand_value(s[4]) != hand_value(s[3]),
    )
}

/// All five suits equal.
pub open spec fn is_flush(s: Seq<Hand>) -> bool {
    &&& s[1].suit == s[0].suit
    &&& s[2].suit == s[0].suit
    &&& s[3].suit == s[0].suit
    &&& s[4].suit == s[0].suit
}

/// The wheel, A-2-3-4-5: the five cards hold an ace together with the ranks
/// two through five, one each.
pub open spec fn is_wheel(s: Seq<Hand>) -> bool {
    has_rank(s, 13) && has_rank(s, 4) && has_rank(s, 3) && has_rank(s, 2) && has_rank(s, 1)
}

/// Five consecutive rank values with no gaps, for a hand sorted descending.
pub open spec fn is_run(s: Seq<Hand>) -> bool {
    &&& hand_value(s[1]) == hand_value(s[0]) - 1
    &&& hand_value(s[2]) == hand_value(s[0]) - 2
    &&& hand_value(s[3]) == hand_value(s[0]) - 3
    &&& hand_value(s[4]) == hand_value(s[0]) - 4
}

/// The straight test: a consecutive run, or the wheel with its ace low.
pub open spec fn is_straight(s: Seq<Hand>) -> bool {
    is_run(s) || is_wheel(s)
}

/// The category of a sorted five-card hand, by the fixed decision order:
/// the first matching test wins, so a hand that is both a flush and a
/// straight is a straight flush and nothing else.
#[verifier::opaque]
pub open spec fn spec_ranking(s: Seq<Hand>) -> Ranking {
    if has_group_of(s, 5) {
        Ranking::FiveOfAKind
    } else if is_flush(s) && is_straight(s) {
        Ranking::StraightFlush
    } else if has_group_of(s, 4) {
        Ranking::FourOfAKind
    } else if has_group_of(s, 3) && has_group_of(s, 2) {
        Ranking::FullHouse
    } else if is_flush(s) {
        Ranking::Flush
    } else if is_straight(s) {
        Ranking::Straight
    } else if has_group_of(s, 3) {
        Ranking::ThreeOfAKind
    } else if distinct_count(s) == 3 {
        Ranking::TwoPair
    } else if distinct_count(s) == 4 {
        Ranking::OnePair
    } else {
        Ranking::HighCard
    }
}

/// The effective rank of the card at position `i` for comparisons: in the
/// wheel the ace counts 0, below every other rank; elsewhere the rank value.
pub open spec fn eff_value(s: Seq<Hand>, i: int) -> int {
    if is_wheel(s) && hand_value(s[i]) == 13 {
        0
    } else {
        hand_value(s[i])
    }
}

/// The ordering of two integers.
pub open spec fn spec_ord(a: int, b: int) -> Ordering {
    if a < b {
        Ordering::Less
    } else if a == b {
        Ordering::Equal
    } else {
        Ordering::Greater
    }
}

/// Lexicographic ordering of two integer pairs.
pub open spec fn spec_ord2(a0: int, a1: int, b0: int, b1: int) -> Ordering {
    if a0 != b0 {
        spec_ord(a0, b0)
    } else {
        spec_ord(a1, b1)
    }
}

/// In a sorted four-of-a-kind hand the second card always belongs to the
/// quadruplet, so this is the quadruplet's rank.
pub open spec fn quad_rank(s: Seq<Hand>) -> int {
    hand_value(s[1])
}

/// The rank of the single card outside a sorted hand's quadruplet.
pub open spec fn quad_kicker(s: Seq<Hand>) -> int {
    if hand_value(s[0]) == hand_value(s[1]) {
        hand_value(s[4])
    } else {
        hand_value(s[0])
    }
}

/// In a sorted hand with a triplet the middle card always belongs to the
/// triplet, so this is the triplet's rank.
pub open spec fn triple_rank(s: Seq<Hand>) -> int {
    hand_value(s[2])
}

/// The rank of a sorted full house's pair.
pub open spec fn full_house_pair(s: Seq<Hand>) -> int {
    if hand_value(s[3]) == hand_value(s[2]) {
        hand_value(s[0])
    } else {
        hand_value(s[3])
    }
}

/// The higher of the two kickers of a sorted three-of-a-kind hand; the rule
/// inspects only this one, never the second kicker.
pub open spec fn top_kicker(s: Seq<Hand>) -> int {
    if hand_value(s[0]) == hand_value(s[2]) {
        hand_value(s[3])
    } else {
        hand_value(s[0])
    }
}

/// Lexicographic comparison of two five-number tuples: the first difference
/// decides, and tuples agreeing everywhere are equal.
pub open spec fn lex5(
    a0: int,
    a1: int,
    a2: int,
    a3: int,
    a4: int,
    b0: int,
    b1: int,
    b2: int,
    b3: int,
    b4: int,
) -> Ordering {
    if a0 != b0 {
        spec_ord(a0, b0)
    } else if a1 != b1 {
        spec_ord(a1, b1)
    } else if a2 != b2 {
        spec_ord(a2, b2)
    } else if a3 != b3 {
        spec_ord(a3, b3)
    } else {
        spec_ord(a4, b4)
    }
}

/// Position-by-position comparison of effective ranks, highest first.
pub open spec fn spec_cmp_positional(lhs: Seq<Hand>, rhs: Seq<Hand>) -> Ordering {
    lex5(
        eff_value(lhs, 0),
        eff_value(lhs, 1),
        eff_value(lhs, 2),
        eff_value(lhs, 3),
        eff_value(lhs, 4),
        eff_value(rhs, 0),
        eff_value(rhs, 1),
        eff_value(rhs, 2),
        eff_value(rhs, 3),
        eff_value(rhs, 4),
    )
}

/// The tie-break rule for two sorted hands of one category: four of a kind
/// compares the quadruplet then the kicker; a full house the triplet then
/// the pair; three of a kind the triplet then the single highest kicker;
/// every other category compares card ranks position by position, with the
/// wheel's ace effectively lowest.
pub open spec fn spec_tiebreak(ranking: Ranking, lhs: Seq<Hand>, rhs: Seq<Hand>) -> Ordering {
    match ranking {
        Ranking::FourOfAKind => spec_ord2(
            quad_rank(lhs),
            quad_kicker(lhs),
            quad_rank(rhs),
            quad_kicker(rhs),
        ),
        Ranking::FullHouse => spec_ord2(
            triple_rank(lhs),
            full_house_pair(lhs),
            triple_rank(rhs),
            full_house_pair(rhs),
        ),
        Ranking::ThreeOfAKind => spec_ord2(
            triple_rank(lhs),
            top_kicker(lhs),
            triple_rank(rhs),
            top_kicker(rhs),
        ),
        _ => spec_cmp_positional(lhs, rhs),
    }
}

/// The full comparison of two sorted hands: the stronger category wins
/// outright; within one category the tie-break decides.
pub open spec fn spec_hand_cmp(lhs: Seq<Hand>, rhs: Seq<Hand>) -> Ordering {
    if spec_ranking(lhs) != spec_ranking(rhs) {
        spec_ord(ranking_value(spec_ranking(lhs)), ranking_value(spec_ranking(rhs)))
    } else {
        spec_tiebreak(spec_ranking(lhs), lhs, rhs)
    }
}

/// `lhs` is at least as good as `rhs`: comparing does not yield `Less`.
pub open spec fn at_least_as_good(lhs: Seq<Hand>, rhs: Seq<Hand>) -> bool {
    spec_hand_cmp(lhs, rhs) != Ordering::Less
}

impl Ranking {
    /// The category's strength, as `ranking_value` gives it.
    pub fn value(&self) -> (r: u8)
        ensures
            r as int == ranking_value(*self),
    {
        match self {
            Ranking::FiveOfAKind => 10,
            Ranking::StraightFlush => 9,
            Ranking::FourOfAKind => 8,
            Ranking::FullHouse => 7,
            Ranking::Flush => 6,
            Ranking::Straight => 5,
            Ranking::ThreeOfAKind => 4,
            Ranking::TwoPair => 3,
            Ranking::OnePair => 2,
            Ranking::HighCard => 1,
        }
    }
}

/// 1 when the condition holds, else 0, as `b2i` counts it.
fn bu(b: bool) -> (r: u8)
    ensures
        r as int == b2i(b),
{
    if b {
        1
    } else {
        0
    }
}

/// Whether the five cards form the wheel, A-2-3-4-5.
fn is_wheel_exec(hand: &Vec<Hand>) -> (r: bool)
    requires
        hand@.len() == 5,
    ensures
        r == is_wheel(hand@),
{
    let v0 = hand[0].card.value();
    let v1 = hand[1].card.value();
    let v2 = hand[2].card.value();
    let v3 = hand[3].card.value();
    let v4 = hand[4].card.value();
    let has13 = v0 == 13 || v1 == 13 || v2 == 13 || v3 == 13 || v4 == 13;
    let has4 = v0 == 4 || v1 == 4 || v2 == 4 || v3 == 4 || v4 == 4;
    let has3 = v0 == 3 || v1 == 3 || v2 == 3 || v3 == 3 || v4 == 3;
    let has2 = v0 == 2 || v1 == 2 || v2 == 2 || v3 == 2 || v4 == 2;
    let has1 = v0 == 1 || v1 == 1 || v2 == 1 || v3 == 1 || v4 == 1;
    has13 && has4 && has3 && has2 && has1
}

/// The effective rank of the card at position `i`: 0 for the wheel's ace.
fn effective_value(hand: &Vec<Hand>, wheel: bool, i: usize) -> (r: u8)
    requires
        hand@.len() == 5,
        i < 5,
        wheel == is_wheel(hand@),
    ensures
        r as int == eff_value(hand@, i as int),
{
    let v = hand[i].card.value();
    if wheel && v == 13 {
        0
    } else {
        v
    }
}

/// The ordering of two rank or category values, as `spec_ord` gives it.
fn cmp_values(a: u8, b: u8) -> (r: Ordering)
    ensures
        r == spec_ord(a as int, b as int),
{
    if a < b {
        Ordering::Less
    } else if a == b {
        Ordering::Equal
    } else {
        Ordering::Greater
    }
}

impl Ranking {
    /// Classify a sorted five-card hand into its category, by the fixed
    /// decision order `spec_ranking` states.
    #[verifier::rlimit(50)]
    pub fn determine_ranking(hand: &Vec<Hand>) -> (r: Ranking)
        requires
            hand@.len() == 5,
            sorted_desc(hand@),
        ensures
            r == spec_ranking(hand@),
    {
        let v0 = hand[0].card.value();
        let v1 = hand[1].card.value();
        let v2 = hand[2].card.value();
        let v3 = hand[3].card.value();
        let v4 = hand[4].card.value();
        let n0 = bu(v0 == v0) + bu(v1 == v0) + bu(v2 == v0) + bu(v3 == v0) + bu(v4 == v0);
        let n1 = bu(v0 == v1) + bu(v1 == v1) + bu(v2 == v1) + bu(v3 == v1) + bu(v4 == v1);
        let n2 = bu(v0 == v2) + bu(v1 == v2) + bu(v2 == v2) + bu(v3 == v2) + bu(v4 == v2);
        let n3 = bu(v0 == v3) + bu(v1 == v3) + bu(v2 == v3) + bu(v3 == v3) + bu(v4 == v3);
        let n4 = bu(v0 == v4) + bu(v1 == v4) + bu(v2 == v4) + bu(v3 == v4) + bu(v4 == v4);
        let flush = hand[1].suit == hand[0].suit && hand[2].suit == hand[0].suit && hand[3].suit
            == hand[0].suit && hand[4].suit == hand[0].suit;
        let run = v1 + 1 == v0 && v2 + 2 == v0 && v3 + 3 == v0 && v4 + 4 == v0;
        let straight = run || is_wheel_exec(hand);
        let group5 = n0 == 5 || n1 == 5 || n2 == 5 || n3 == 5 || n4 == 5;
        let group4 = n0 == 4 || n1 == 4 || n2 == 4 || n3 == 4 || n4 == 4;
        let group3 = n0 == 3 || n1 == 3 || n2 == 3 || n3 == 3 || n4 == 3;
        let group2 = n0 == 2 || n1 == 2 || n2 == 2 || n3 == 2 || n4 == 2;
        let distinct = 1 + bu(v1 != v0) + bu(v2 != v0 && v2 != v1) + bu(
            v3 != v0 && v3 != v1 && v3 != v2,
        ) + bu(v4 != v0 && v4 != v1 && v4 != v2 && v4 != v3);
        proof {
            reveal(spec_ranking);
            assert(n0 as int == count_rank(hand@, hand_value(hand@[0])));
            assert(n1 as int == count_rank(hand@, hand_value(hand@[1])));
            assert(n2 as int == count_rank(hand@, hand_value(hand@[2])));
            assert(n3 as int == count_rank(hand@, hand_value(hand@[3])));
            assert(n4 as int == count_rank(hand@, hand_value(hand@[4])));
            assert(flush == is_flush(hand@));
            assert(run == is_run(hand@));
            assert(straight == is_straight(hand@));
            assert(group5 == has_group_of(hand@, 5));
            assert(group4 == has_group_of(hand@, 4));
            assert(group3 == has_group_of(hand@, 3));
            assert(group2 == has_group_of(hand@, 2));
            assert(distinct as int == distinct_count(hand@));
        }
        if group5 {
            Ranking::FiveOfAKind
        } else if flush && straight {
            Ranking::StraightFlush
        } else if group4 {
            Ranking::FourOfAKind
        } else if group3 && group2 {
            Ranking::FullHouse
        } else if flush {
            Ranking::Flush
        } else if straight {
            Ranking::Straight
        } else if group3 {
            Ranking::ThreeOfAKind
        } else if distinct == 3 {
            Ranking::TwoPair
        } else if distinct == 4 {
            Ranking::OnePair
        } else {
            Ranking::HighCard
        }
    }

    /// Order two sorted five-card hands that share this category, by the
    /// category's tie-break rule.
    pub fn cmp(ranking: Self, lhs: Vec<Hand>, rhs: Vec<Hand>) -> (r: Ordering)
        requires
            lhs@.len() == 5,
            rhs@.len() == 5,
            sorted_desc(lhs@),
            sorted_desc(rhs@),
            spec_ranking(lhs@) == ranking,
            spec_ranking(rhs@) == ranking,
        ensures
            r == spec_tiebreak(ranking, lhs@, rhs@),
    {
        match ranking {
            Ranking::FourOfAKind => {
                let lq = lhs[1].card.value();
                let rq = rhs[1].card.value();
                if lq != rq {
                    cmp_values(lq, rq)
                } else {
                    let lk = if lhs[0].card.value() == lq {
                        lhs[4].card.value()
                    } else {
                        lhs[0].card.value()
                    };
                    let rk = if rhs[0].card.value() == rq {
                        rhs[4].card.value()
                    } else {
                        rhs[0].card.value()
                    };
                    cmp_values(lk, rk)
                }
            },
            Ranking::FullHouse => {
                let lt = lhs[2].card.value();
                let rt = rhs[2].card.value();
                if lt != rt {
                    cmp_values(lt, rt)
                } else {
                    let lp = if lhs[3].card.value() == lt {
                        lhs[0].card.value()
                    } else {
                        lhs[3].card.value()
                    };
                    let rp = if rhs[3].card.value() == rt {
                        rhs[0].card.value()
                    } else {
                        rhs[3].card.value()
                    };
                    cmp_values(lp, rp)
                }
            },
            Ranking::ThreeOfAKind => {
                let lt = lhs[2].card.value();
                let rt = rhs[2].card.value();
                if lt != rt {
                    cmp_values(lt, rt)
                } else {
                    let lk = if lhs[0].card.value() == lt {
                        lhs[3].card.value()
                    } else {
                        lhs[0].card.value()
                    };
                    let rk = if rhs[0].card.value() == rt {
                        rhs[3].card.value()
                    } else {
                        rhs[0].card.value()
                    };
                    cmp_values(lk, rk)
                }
            },
            _ => {
                let lw = is_wheel_exec(&lhs);
                let rw = is_wheel_exec(&rhs);
                let a0 = effective_value(&lhs, lw, 0);
                let b0 = effective_value(&rhs, rw, 0);
                if a0 != b0 {
                    return cmp_values(a0, b0);
                }
                let a1 = effective_value(&lhs, lw, 1);
                let b1 = effective_value(&rhs, rw, 1);
                if a1 != b1 {
                    return cmp_values(a1, b1);
                }
                let a2 = effective_value(&lhs, lw, 2);
                let b2 = effective_value(&rhs, rw, 2);
                if a2 != b2 {
                    return cmp_values(a2, b2);
                }
                let a3 = effective_value(&lhs, lw, 3);
                let b3 = effective_value(&rhs, rw, 3);
                if a3 != b3 {
                    return cmp_values(a3, b3);
                }
                let a4 = effective_value(&lhs, lw, 4);
                let b4 = effective_value(&rhs, rw, 4);
                if a4 != b4 {
                    return cmp_values(a4, b4);
                }
                Ordering::Equal
            },
        }
    }
}

/// Compare two sorted five-card hands outright: the stronger category wins,
/// and within one category the tie-break rule decides.
pub fn hand_cmp(lhs: &Vec<Hand>, rhs: &Vec<Hand>) -> (r: Ordering)
    requires
        lhs@.len() == 5,
        rhs@.len() == 5,
        sorted_desc(lhs@),
        sorted_desc(rhs@),
    ensures
        r == spec_hand_cmp(lhs@, rhs@),
{
    let ra = Ranking::determine_ranking(lhs);
    let rb = Ranking::determine_ranking(rhs);
    let va = ra.value();
    let vb = rb.value();
    if va != vb {
        cmp_values(va, vb)
    } else {
        assert(ra == rb);
        Ranking::cmp(ra, copy_cards(lhs), copy_cards(rhs))
    }
}

/// A plain copy of a hand's cards.
fn copy_cards(cards: &Vec<Hand>) -> (r: Vec<Hand>)
    ensures
        r@ == cards@,
{
    let mut out: Vec<Hand> = Vec::new();
    let mut i: usize = 0;
    while i < cards.len()
        invariant
            i <= cards@.len(),
            out@ =~= cards@.take(i as int),
        decreases cards@.len() - i,
    {
        out.push(cards[i]);
        proof {
            assert(out@ =~= cards@.take(i as int + 1));
        }
        i = i + 1;
    }
    proof {
        assert(cards@.take(cards@.len() as int) =~= cards@);
    }
    out
}

/// A straight's five ranks are pairwise distinct, so a straight holds no
/// rank-group of size two or more.
proof fn lemma_straight_distinct(s: Seq<Hand>)
    requires
        s.len() == 5,
        is_straight(s),
    ensures
        distinct_count(s) == 5,
        !has_group_of(s, 2),
        !has_group_of(s, 3),
        !has_group_of(s, 4),
        !has_group_of(s, 5),
{
    if is_run(s) {
    } else {
        assert(count_rank(s, 13) + count_rank(s, 4) + count_rank(s, 3) + count_rank(s, 2)
            + count_rank(s, 1) <= 5);
        assert(count_rank(s, 13) == 1 && count_rank(s, 4) == 1 && count_rank(s, 3) == 1
            && count_rank(s, 2) == 1 && count_rank(s, 1) == 1);
    }
}

/// The ten categories partition the sorted five-card hands: exactly one test
/// of the decision order fires for any hand, and in particular a hand that
/// is both a flush and a straight is always a straight flush, never a plain
/// flush or straight.
#[verifier::rlimit(50)]
pub proof fn lemma_ranking_partition(s: Seq<Hand>)
    requires
        s.len() == 5,
        sorted_desc(s),
    ensures
        spec_ranking(s) == Ranking::FiveOfAKind <==> has_group_of(s, 5),
        spec_ranking(s) == Ranking::StraightFlush <==> (is_flush(s) && is_straight(s)),
        spec_ranking(s) == Ranking::FourOfAKind <==> (has_group_of(s, 4) && !has_group_of(s, 5)),
        spec_ranking(s) == Ranking::FullHouse <==> (has_group_of(s, 3) && has_group_of(s, 2)),
        spec_ranking(s) == Ranking::Flush <==> (is_flush(s) && !is_straight(s) && !has_group_of(
            s,
            5,
        ) && !has_group_of(s, 4) && !(has_group_of(s, 3) && has_group_of(s, 2))),
        spec_ranking(s) == Ranking::Straight <==> (is_straight(s) && !is_flush(s)),
        spec_ranking(s) == Ranking::ThreeOfAKind <==> (has_group_of(s, 3) && !has_group_of(s, 2)
            && !is_flush(s)),
        spec_ranking(s) == Ranking::TwoPair <==> (distinct_count(s) == 3 && !has_group_of(s, 3)
            && !has_group_of(s, 4) && !has_group_of(s, 5) && !is_flush(s)),
        spec_ranking(s) == Ranking::OnePair <==> (distinct_count(s) == 4 && !is_flush(s)),
        spec_ranking(s) == Ranking::HighCard <==> (distinct_count(s) == 5 && !is_straight(s)
            && !is_flush(s)),
{
    reveal(spec_ranking);
    if is_straight(s) {
        lemma_straight_distinct(s);
    }
}

/// Comparing a hand against itself always yields `Equal`.
pub proof fn lemma_compare_self_equal(s: Seq<Hand>)
    requires
        s.len() == 5,
        sorted_desc(s),
    ensures
        spec_hand_cmp(s, s) == Ordering::Equal,
{
}

/// Lexicographic comparison of five-number tuples inverts when the sides
/// swap.
proof fn lemma_lex5_antisym(
    a0: int,
    a1: int,
    a2: int,
    a3: int,
    a4: int,
    b0: int,
    b1: int,
    b2: int,
    b3: int,
    b4: int,
)
    ensures
        lex5(a0, a1, a2, a3, a4, b0, b1, b2, b3, b4) == Ordering::Less <==> lex5(
            b0,
            b1,
            b2,
            b3,
            b4,
            a0,
            a1,
            a2,
            a3,
            a4,
        ) == Ordering::Greater,
        lex5(a0, a1, a2, a3, a4, b0, b1, b2, b3, b4) == Ordering::Equal <==> lex5(
            b0,
            b1,
            b2,
            b3,
            b4,
            a0,
            a1,
            a2,
            a3,
            a4,
        ) == Ordering::Equal,
{
}

/// Not losing a lexicographic comparison of five-number tuples is
/// transitive.
proof fn lemma_lex5_trans(
    a0: int,
    a1: int,
    a2: int,
    a3: int,
    a4: int,
    b0: int,
    b1: int,
    b2: int,
    b3: int,
    b4: int,
    c0: int,
    c1: int,
    c2: int,
    c3: int,
    c4: int,
)
    requires
        lex5(a0, a1, a2, a3, a4, b0, b1, b2, b3, b4) != Ordering::Less,
        lex5(b0, b1, b2, b3, b4, c0, c1, c2, c3, c4) != Ordering::Less,
    ensures
        lex5(a0, a1, a2, a3, a4, c0, c1, c2, c3, c4) != Ordering::Less,
{
}

/// Swapping the sides of a tie-break inverts its outcome.
proof fn lemma_tiebreak_antisym(r: Ranking, a: Seq<Hand>, b: Seq<Hand>)
    ensures
        spec_tiebreak(r, a, b) == Ordering::Less <==> spec_tiebreak(r, b, a) == Ordering::Greater,
        spec_tiebreak(r, a, b) == Ordering::Equal <==> spec_tiebreak(r, b, a) == Ordering::Equal,
{
    match r {
        Ranking::FourOfAKind => {},
        Ranking::FullHouse => {},
        Ranking::ThreeOfAKind => {},
        _ => {
            lemma_lex5_antisym(
                eff_value(a, 0),
                eff_value(a, 1),
                eff_value(a, 2),
                eff_value(a, 3),
                eff_value(a, 4),
                eff_value(b, 0),
                eff_value(b, 1),
                eff_value(b, 2),
                eff_value(b, 3),
                eff_value(b, 4),
            );
        },
    }
}

/// Swapping the two sides inverts the comparison: `lhs` beats `rhs` exactly
/// when `rhs` loses to `lhs`, and equality is symmetric.
#[verifier::rlimit(100)]
pub proof fn lemma_compare_antisymmetric(a: Seq<Hand>, b: Seq<Hand>)
    requires
        a.len() == 5,
        b.len() == 5,
        sorted_desc(a),
        sorted_desc(b),
    ensures
        spec_hand_cmp(a, b) == Ordering::Less <==> spec_hand_cmp(b, a) == Ordering::Greater,
        spec_hand_cmp(a, b) == Ordering::Equal <==> spec_hand_cmp(b, a) == Ordering::Equal,
{
    let ra = spec_ranking(a);
    let rb = spec_ranking(b);
    if ra == rb {
        lemma_tiebreak_antisym(ra, a, b);
        assert(spec_hand_cmp(a, b) == spec_tiebreak(ra, a, b));
        assert(spec_hand_cmp(b, a) == spec_tiebreak(ra, b, a));
    } else {
        assert(spec_hand_cmp(a, b) == spec_ord(ranking_value(ra), ranking_value(rb)));
        assert(spec_hand_cmp(b, a) == spec_ord(ranking_value(rb), ranking_value(ra)));
    }
}

/// A hand of a stronger category beats any hand of a weaker one, whatever
/// the card values: the category decides before any tie-break rule.
pub proof fn lemma_category_dominates(a: Seq<Hand>, b: Seq<Hand>)
    requires
        a.len() == 5,
        b.len() == 5,
        sorted_desc(a),
        sorted_desc(b),
        ranking_value(spec_ranking(a)) > ranking_value(spec_ranking(b)),
    ensures
        spec_hand_cmp(a, b) == Ordering::Greater,
{
}

/// The tie-break fields mean what their names say: in a sorted
/// four-of-a-kind hand `quad_rank` is the rank that appears four times and
/// `quad_kicker` the rank that appears once; in a sorted full house
/// `triple_rank` appears three times and `full_house_pair` twice; in a
/// sorted three-of-a-kind hand `triple_rank` appears three times and
/// `top_kicker` is the highest rank outside the triplet.
#[verifier::rlimit(50)]
pub proof fn lemma_tiebreak_fields(s: Seq<Hand>)
    requires
        s.len() == 5,
        sorted_desc(s),
    ensures
        spec_ranking(s) == Ranking::FourOfAKind ==> count_rank(s, quad_rank(s)) == 4 && count_rank(
            s,
            quad_kicker(s),
        ) == 1,
        spec_ranking(s) == Ranking::FullHouse ==> count_rank(s, triple_rank(s)) == 3 && count_rank(
            s,
            full_house_pair(s),
        ) == 2,
        spec_ranking(s) == Ranking::ThreeOfAKind ==> count_rank(s, triple_rank(s)) == 3
            && count_rank(s, top_kicker(s)) == 1 && (forall|i: int|
            0 <= i < 5 ==> #[trigger] hand_value(s[i]) == triple_rank(s) || hand_value(s[i])
                <= top_kicker(s)),
{
    reveal(spec_ranking);
    assert(hand_value(s[0]) >= hand_value(s[1]) >= hand_value(s[2]) >= hand_value(s[3])
        >= hand_value(s[4]));
}

/// The wheel, the 5-high straight, loses to every other straight: its ace
/// counts as the lowest rank for the comparison's duration.
pub proof fn lemma_wheel_is_lowest_straight(a: Seq<Hand>, b: Seq<Hand>)
    requires
        a.len() == 5,
        b.len() == 5,
        sorted_desc(a),
        sorted_desc(b),
        spec_ranking(a) == Ranking::Straight,
        spec_ranking(b) == Ranking::Straight,
        is_wheel(a),
        !is_wheel(b),
    ensures
        spec_hand_cmp(a, b) == Ordering::Less,
{
    reveal(spec_ranking);
    assert(hand_value(a[0]) >= hand_value(a[1]) >= hand_value(a[2]) >= hand_value(a[3])
        >= hand_value(a[4]));
    assert(hand_value(a[0]) == 13);
    assert(eff_value(a, 0) == 0);
    assert(is_run(b));
    assert(hand_value(b[0]) >= 5);
    assert(eff_value(b, 0) >= 5);
}

/// Not losing a tie-break is transitive: each rule compares a fixed tuple of
/// ranks lexicographically.
proof fn lemma_tiebreak_trans(r: Ranking, a: Seq<Hand>, b: Seq<Hand>, c: Seq<Hand>)
    requires
        spec_tiebreak(r, a, b) != Ordering::Less,
        spec_tiebreak(r, b, c) != Ordering::Less,
    ensures
        spec_tiebreak(r, a, c) != Ordering::Less,
{
    match r {
        Ranking::FourOfAKind => {},
        Ranking::FullHouse => {},
        Ranking::ThreeOfAKind => {},
        _ => {
            lemma_lex5_trans(
                eff_value(a, 0),
                eff_value(a, 1),
                eff_value(a, 2),
                eff_value(a, 3),
                eff_value(a, 4),
                eff_value(b, 0),
                eff_value(b, 1),
                eff_value(b, 2),
                eff_value(b, 3),
                eff_value(b, 4),
                eff_value(c, 0),
                eff_value(c, 1),
                eff_value(c, 2),
                eff_value(c, 3),
                eff_value(c, 4),
            );
        },
    }
}

/// Being at least as good is transitive: the category strength decides
/// first, and within one category the tie-break keys compare
/// lexicographically.
#[verifier::rlimit(100)]
pub proof fn lemma_at_least_as_good_transitive(a: Seq<Hand>, b: Seq<Hand>, c: Seq<Hand>)
    requires
        a.len() == 5,
        b.len() == 5,
        c.len() == 5,
        sorted_desc(a),
        sorted_desc(b),
        sorted_desc(c),
        at_least_as_good(a, b),
        at_least_as_good(b, c),
    ensures
        at_least_as_good(a, c),
{
    let ra = spec_ranking(a);
    let rb = spec_ranking(b);
    let rc = spec_ranking(c);
    assert(ranking_value(ra) >= ranking_value(rb)) by {
        if ra != rb {
            assert(spec_hand_cmp(a, b) == spec_ord(ranking_value(ra), ranking_value(rb)));
        }
    }
    assert(ranking_value(rb) >= ranking_value(rc)) by {
        if rb != rc {
            assert(spec_hand_cmp(b, c) == spec_ord(ranking_value(rb), ranking_value(rc)));
        }
    }
    if ra == rb && rb == rc {
        lemma_tiebreak_trans(ra, a, b, c);
        assert(spec_hand_cmp(a, c) == spec_tiebreak(ra, a, c));
    } else {
        assert(ranking_value(ra) != ranking_value(rc) ==> ra != rc);
        assert(ranking_value(ra) == ranking_value(rc) ==> ra == rc);
        if ra == rc {
            assert(ranking_value(ra) == ranking_value(rb) && ra == rb);
        } else {
            assert(ranking_value(ra) > ranking_value(rc));
            assert(spec_hand_cmp(a, c) == spec_ord(ranking_value(ra), ranking_value(rc)));
        }
    }
}

} // verus!
