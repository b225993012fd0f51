//! Poker hand evaluation: parsing card tokens into typed hands, classifying a
//! five-card hand into one of ten ranked categories, and comparing hands to
//! decide which of a list of hand strings win.

use vstd::prelude::*;

pub mod hand;
pub mod ranking;

use crate::hand::{CardError, Hand, sorted_desc, spec_hand_of, spec_parse_hand};
use crate::ranking::{
    at_least_as_good, hand_cmp, lemma_at_least_as_good_transitive, lemma_compare_antisymmetric,
    lemma_compare_self_equal, spec_hand_cmp,
};
use core::cmp::Ordering;

verus! {

/// Every hand string in `list` parses into a valid five-card hand.
pub open spec fn all_hands_parse(list: Seq<&str>) -> bool {
    forall|i: int| 0 <= i < list.len() ==> (#[trigger] spec_parse_hand(list[i]@)) is Ok
}

/// Whether the hand that the string `h` names is at least as good as every
/// hand that a string of `list` names.
pub open spec fn spec_is_winner(list: Seq<&str>, h: &str) -> bool {
    forall|j: int|
        0 <= j < list.len() ==> at_least_as_good(
            spec_hand_of(h@),
            spec_hand_of(#[trigger] list[j]@),
        )
}

/// The winner test, as a predicate over one hand string of `list`.
pub open spec fn winner_pred(list: Seq<&str>) -> spec_fn(&str) -> bool {
    |h: &str| spec_is_winner(list, h)
}

/// The hand strings of `list` that no hand in `list` beats, in order, ties
/// included.
pub open spec fn spec_winners(list: Seq<&str>) -> Seq<&str> {
    list.filter(winner_pred(list))
}

/// Given a list of poker hand strings, decide which hands win: the winners
/// are exactly the entries whose hand is at least as good as every hand in
/// the list, returned as the same references in input order, ties included.
/// The result is empty only for an empty input. A hand string that does not
/// parse fails the whole call with the first failure's error.
pub fn winning_hands<'a>(hands: &[&'a str]) -> (r: Result<Vec<&'a str>, CardError>)
    ensures
        r is Ok <==> all_hands_parse(hands@),
        match r {
            Ok(ws) => {
                &&& ws@ == spec_winners(hands@)
                &&& hands@.len() > 0 ==> ws@.len() > 0
                &&& hands@.len() == 0 ==> ws@.len() == 0
            },
            Err(e) => exists|i: int|
                0 <= i < hands@.len() && spec_parse_hand(#[trigger] hands@[i]@) == Err::<
                    Seq<Hand>,
                    CardError,
                >(e) && (forall|j: int| 0 <= j < i ==> spec_parse_hand(#[trigger] hands@[j]@) is Ok),
        },
{
    let n = hands.len();
    let mut parsed: Vec<Vec<Hand>> = Vec::new();
    let mut i: usize = 0;
    while i < n
        invariant
            n == hands@.len(),
            i <= n,
            parsed@.len() == i,
            forall|j: int| 0 <= j < i ==> spec_parse_hand(#[trigger] hands@[j]@) is Ok,
            forall|j: int| 0 <= j < i ==> #[trigger] parsed@[j]@ == spec_hand_of(hands@[j]@),
            forall|j: int|
                0 <= j < i ==> (#[trigger] parsed@[j]@).len() == 5 && sorted_desc(parsed@[j]@),
        decreases n - i,
    {
        match Hand::new_sorted(hands[i]) {
            Ok(v) => {
                parsed.push(v);
                i = i + 1;
            },
            Err(e) => {
                return Err(e);
            },
        }
    }
    if n == 0 {
        proof {
            reveal(Seq::filter);
            assert(spec_winners(hands@) =~= Seq::<&str>::empty());
        }
        return Ok(Vec::new());
    }
    let mut best: usize = 0;
    let mut i: usize = 1;
    proof {
        lemma_compare_self_equal(parsed@[0]@);
    }
    while i < n
        invariant
            n == hands@.len(),
            parsed@.len() == n,
            1 <= i <= n,
            best < n,
            forall|j: int| 0 <= j < n ==> #[trigger] parsed@[j]@ == spec_hand_of(hands@[j]@),
            forall|j: int|
                0 <= j < n ==> (#[trigger] parsed@[j]@).len() == 5 && sorted_desc(parsed@[j]@),
            forall|j: int|
                0 <= j < i ==> at_least_as_good(parsed@[best as int]@, #[trigger] parsed@[j]@),
        decreases n - i,
    {
        let c = hand_cmp(&parsed[i], &parsed[best]);
        match c {
            Ordering::Greater => {
                proof {
                    let hi = parsed@[i as int]@;
                    let hb = parsed@[best as int]@;
                    lemma_compare_self_equal(hi);
                    assert forall|j: int| 0 <= j < i + 1 implies at_least_as_good(
                        hi,
                        #[trigger] parsed@[j]@,
                    ) by {
                        if j < i {
                            lemma_at_least_as_good_transitive(hi, hb, parsed@[j]@);
                        }
                    }
                }
                best = i;
            },
            _ => {
                proof {
                    lemma_compare_antisymmetric(parsed@[i as int]@, parsed@[best as int]@);
                }
            },
        }
        i = i + 1;
    }
    let mut ws: Vec<&'a str> = Vec::new();
    let mut i: usize = 0;
    proof {
        assert(hands@.take(0).filter(winner_pred(hands@)) =~= Seq::<&str>::empty()) by {
            reveal(Seq::filter);
        }
    }
    while i < n
        invariant
            n == hands@.len(),
            parsed@.len() == n,
            i <= n,
            best < n,
            forall|j: int| 0 <= j < n ==> spec_parse_hand(#[trigger] hands@[j]@) is Ok,
            forall|j: int| 0 <= j < n ==> #[trigger] parsed@[j]@ == spec_hand_of(hands@[j]@),
            forall|j: int|
                0 <= j < n ==> (#[trigger] parsed@[j]@).len() == 5 && sorted_desc(parsed@[j]@),
            forall|j: int|
                0 <= j < n ==> at_least_as_good(parsed@[best as int]@, #[trigger] parsed@[j]@),
            ws@ == hands@.take(i as int).filter(winner_pred(hands@)),
        decreases n - i,
    {
        proof {
            let hi = parsed@[i as int]@;
            let hb = parsed@[best as int]@;
            if spec_hand_cmp(hi, hb) != Ordering::Less {
                assert forall|j: int| 0 <= j < n implies at_least_as_good(
                    spec_hand_of(hands@[i as int]@),
                    spec_hand_of(#[trigger] hands@[j]@),
                ) by {
                    lemma_at_least_as_good_transitive(hi, hb, parsed@[j]@);
                }
                assert(spec_is_winner(hands@, hands@[i as int]));
            } else {
                assert(!at_least_as_good(
                    spec_hand_of(hands@[i as int]@),
                    spec_hand_of(hands@[best as int]@),
                ));
                assert(!spec_is_winner(hands@, hands@[i as int]));
            }
        }
        let c = hand_cmp(&parsed[i], &parsed[best]);
        match c {
            Ordering::Less => {},
            _ => {
                ws.push(hands[i]);
            },
        }
        proof {
            reveal(Seq::filter);
            assert(hands@.take(i as int + 1).drop_last() =~= hands@.take(i as int));
            assert(hands@.take(i as int + 1).last() == hands@[i as int]);
            assert(ws@ =~= hands@.take(i as int + 1).filter(winner_pred(hands@)));
        }
        i = i + 1;
    }
    proof {
        assert(hands@.take(n as int) =~= hands@);
        let hb = parsed@[best as int]@;
        assert forall|j: int| 0 <= j < n implies at_least_as_good(
            spec_hand_of(hands@[best as int]@),
            spec_hand_of(#[trigger] hands@[j]@),
        ) by {
            assert(parsed@[j]@ == spec_hand_of(hands@[j]@));
            assert(parsed@[best as int]@ == spec_hand_of(hands@[best as int]@));
            assert(at_least_as_good(parsed@[best as int]@, parsed@[j]@));
        }
        assert(winner_pred(hands@)(hands@[best as int]));
        hands@.lemma_filter_contains(winner_pred(hands@), best as int);
        assert(spec_winners(hands@).contains(hands@[best as int]));
        assert(ws@.len() > 0);
    }
    Ok(ws)
}

} // verus!
