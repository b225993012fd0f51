use core::cmp::Ordering;
use poker::hand::{Card, CardError, Hand, Suit};
use poker::ranking::Ranking;
use poker::winning_hands;

fn sorted(s: &str) -> Vec<Hand> {
    Hand::new_sorted(s).expect("hand should parse")
}

fn classify(s: &str) -> Ranking {
    let h = sorted(s);
    Ranking::determine_ranking(&h)
}

fn compare(lhs: &str, rhs: &str) -> Ordering {
    let l = sorted(lhs);
    let r = sorted(rhs);
    let ranking = Ranking::determine_ranking(&l);
    assert_eq!(ranking, Ranking::determine_ranking(&r));
    Ranking::cmp(ranking, l, r)
}

#[test]
fn card_values_ascend_from_two_to_ace() {
    assert_eq!(Card::Two.value(), 1);
    assert_eq!(Card::Three.value(), 2);
    assert_eq!(Card::Four.value(), 3);
    assert_eq!(Card::Five.value(), 4);
    assert_eq!(Card::Six.value(), 5);
    assert_eq!(Card::Seven.value(), 6);
    assert_eq!(Card::Eight.value(), 7);
    assert_eq!(Card::Nine.value(), 8);
    assert_eq!(Card::Ten.value(), 9);
    assert_eq!(Card::Jack.value(), 10);
    assert_eq!(Card::Queen.value(), 11);
    assert_eq!(Card::King.value(), 12);
    assert_eq!(Card::Ace.value(), 13);
}

#[test]
fn ranking_values_descend_from_five_of_a_kind() {
    assert_eq!(Ranking::FiveOfAKind.value(), 10);
    assert_eq!(Ranking::StraightFlush.value(), 9);
    assert_eq!(Ranking::FourOfAKind.value(), 8);
    assert_eq!(Ranking::FullHouse.value(), 7);
    assert_eq!(Ranking::Flush.value(), 6);
    assert_eq!(Ranking::Straight.value(), 5);
    assert_eq!(Ranking::ThreeOfAKind.value(), 4);
    assert_eq!(Ranking::TwoPair.value(), 3);
    assert_eq!(Ranking::OnePair.value(), 2);
    assert_eq!(Ranking::HighCard.value(), 1);
}

#[test]
fn new_sorted_sorts_by_rank_descending() {
    let h = sorted("4S 5S 7H 8D JC");
    assert_eq!(h.len(), 5);
    assert_eq!(h[0].card, Card::Jack);
    assert_eq!(h[0].suit, Suit::Clubs);
    assert_eq!(h[1].card, Card::Eight);
    assert_eq!(h[2].card, Card::Seven);
    assert_eq!(h[3].card, Card::Five);
    assert_eq!(h[4].card, Card::Four);
}

#[test]
fn new_sorted_parses_ten_and_either_suit_case() {
    let h = sorted("10h 2D Qs KC Ac");
    assert_eq!(h[0].card, Card::Ace);
    assert_eq!(h[0].suit, Suit::Clubs);
    assert_eq!(h[1].card, Card::King);
    assert_eq!(h[2].card, Card::Queen);
    assert_eq!(h[2].suit, Suit::Spades);
    assert_eq!(h[3].card, Card::Ten);
    assert_eq!(h[3].suit, Suit::Hearts);
    assert_eq!(h[4].card, Card::Two);
}

#[test]
fn four_tokens_fail_with_wrong_card_count() {
    assert_eq!(Hand::new_sorted("4S 5S 7H 8D"), Err(CardError::WrongCardCount));
}

#[test]
fn six_tokens_fail_with_wrong_card_count() {
    assert_eq!(Hand::new_sorted("4S 5S 7H 8D JC 2C"), Err(CardError::WrongCardCount));
}

#[test]
fn bad_suit_fails_with_invalid_suit() {
    assert_eq!(Hand::new_sorted("4X 5S 7H 8D JC"), Err(CardError::InvalidSuit));
}

#[test]
fn bad_rank_fails_with_invalid_rank() {
    assert_eq!(Hand::new_sorted("XH 5S 7H 8D JC"), Err(CardError::InvalidRank));
}

#[test]
fn lowercase_rank_fails_with_invalid_rank() {
    assert_eq!(Hand::new_sorted("jH 5S 7H 8D JC"), Err(CardError::InvalidRank));
}

#[test]
fn classification_of_each_category() {
    assert_eq!(classify("AH AH AH AH AH"), Ranking::FiveOfAKind);
    assert_eq!(classify("9H 10H JH QH KH"), Ranking::StraightFlush);
    assert_eq!(classify("3S 3H 3D 3C 9C"), Ranking::FourOfAKind);
    assert_eq!(classify("3S 3H 3D 2S 2C"), Ranking::FullHouse);
    assert_eq!(classify("2H 5H 9H JH KH"), Ranking::Flush);
    assert_eq!(classify("6C 7D 8S 9H 10C"), Ranking::Straight);
    assert_eq!(classify("4H 4D 4S 9H 2C"), Ranking::ThreeOfAKind);
    assert_eq!(classify("4H 4D 9S 9H 2C"), Ranking::TwoPair);
    assert_eq!(classify("4H 4D 9S JH 2C"), Ranking::OnePair);
    assert_eq!(classify("4S 5S 7H 8D JC"), Ranking::HighCard);
}

#[test]
fn ace_low_straight_flush_classifies_as_straight_flush() {
    assert_eq!(classify("AH 2H 3H 4H 5H"), Ranking::StraightFlush);
}

#[test]
fn ace_low_straight_classifies_as_straight() {
    assert_eq!(classify("AH 2D 3S 4C 5H"), Ranking::Straight);
}

#[test]
fn ace_high_straight_classifies_as_straight() {
    assert_eq!(classify("AH KD QS JC 10H"), Ranking::Straight);
}

#[test]
fn wheel_loses_to_ten_high_straight() {
    assert_eq!(compare("AH 2D 3S 4C 5H", "6C 7D 8S 9H 10C"), Ordering::Less);
}

#[test]
fn two_wheels_tie() {
    assert_eq!(compare("AH 2D 3S 4C 5H", "AS 2C 3H 4D 5C"), Ordering::Equal);
}

#[test]
fn full_house_compares_triplets_first() {
    assert_eq!(compare("3S 3H 3D 2S 2C", "4S 4H 4D 5S 5C"), Ordering::Less);
}

#[test]
fn full_house_equal_triplets_compare_pairs() {
    assert_eq!(compare("4S 4H 4D 2S 2C", "4S 4H 4D 5S 5C"), Ordering::Less);
}

#[test]
fn four_of_a_kind_compares_quad_then_kicker() {
    assert_eq!(compare("3S 3H 3D 3C 9C", "5S 5H 5D 5C 2C"), Ordering::Less);
    assert_eq!(compare("5S 5H 5D 5C KH", "5S 5H 5D 5C QH"), Ordering::Greater);
}

#[test]
fn three_of_a_kind_inspects_only_the_top_kicker() {
    assert_eq!(compare("4H 4D 4S 9H 2C", "4C 4D 4S 9D 3C"), Ordering::Equal);
    assert_eq!(compare("4H 4D 4S 9H 2C", "4C 4D 4S 8D 3C"), Ordering::Greater);
}

#[test]
fn high_card_compares_position_by_position() {
    assert_eq!(compare("4S 5S 7H 8D JC", "4H 5H 7S 8C JD"), Ordering::Equal);
    assert_eq!(compare("4S 6S 7H 8D JC", "4H 5H 7S 8C JD"), Ordering::Greater);
}

#[test]
fn two_pair_compares_position_by_position() {
    // Positional comparison reaches the third card first, so the higher
    // third card decides before the lower pair would.
    assert_eq!(compare("9S 9H 4D 4C 2S", "9C 9D 5H 2C 2D"), Ordering::Less);
}

#[test]
fn four_equal_cards_of_one_suit_are_four_of_a_kind_not_flush() {
    assert_eq!(classify("AH AH AH AH KH"), Ranking::FourOfAKind);
}

#[test]
fn a_paired_flush_is_still_a_flush() {
    assert_eq!(classify("AH AH KH QH JH"), Ranking::Flush);
}

#[test]
fn identical_high_card_hands_both_win() {
    let input = ["4S 5S 7H 8D JC", "4S 5S 7H 8D JC"];
    let winners = winning_hands(&input).expect("hands should parse");
    assert_eq!(winners, vec!["4S 5S 7H 8D JC", "4S 5S 7H 8D JC"]);
}

#[test]
fn four_of_a_kind_beats_any_flush() {
    let input = ["2H 5H 9H JH KH", "3S 3H 3D 3C 2C"];
    let winners = winning_hands(&input).expect("hands should parse");
    assert_eq!(winners, vec!["3S 3H 3D 3C 2C"]);
}

#[test]
fn stronger_full_house_wins_alone() {
    let input = ["3S 3H 3D 2S 2C", "4S 4H 4D 5S 5C"];
    let winners = winning_hands(&input).expect("hands should parse");
    assert_eq!(winners, vec!["4S 4H 4D 5S 5C"]);
}

#[test]
fn winning_hands_of_empty_input_is_empty() {
    let input: [&str; 0] = [];
    let winners = winning_hands(&input).expect("an empty list has no parse failure");
    assert!(winners.is_empty());
}

#[test]
fn winning_hands_propagates_the_first_parse_error() {
    let input = ["4S 5S 7H 8D JC", "4S 5S 7H 8D", "4X 5S 7H 8D JC"];
    assert_eq!(winning_hands(&input), Err(CardError::WrongCardCount));
}

#[test]
fn winning_hands_single_entry_wins() {
    let input = ["4S 5S 7H 8D JC"];
    let winners = winning_hands(&input).expect("hand should parse");
    assert_eq!(winners, vec!["4S 5S 7H 8D JC"]);
}

#[test]
fn error_messages_name_the_failure() {
    assert!(CardError::InvalidRank.message().contains("rank"));
    assert!(CardError::InvalidSuit.message().contains("suit"));
    assert!(CardError::WrongCardCount.message().contains("five"));
}

#[test]
fn extra_whitespace_between_tokens_is_accepted() {
    let h = sorted("4S  5S\t7H 8D JC");
    assert_eq!(h[0].card, Card::Jack);
    assert_eq!(h[4].card, Card::Four);
}
