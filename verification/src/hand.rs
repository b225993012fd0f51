//! The card and hand model: suits, ranks, parse errors, and the parser that
//! turns a whitespace-separated hand string into five sorted cards.

use vstd::prelude::*;
use vstd::multiset::Multiset;
use vstd::relations::{sorted_by, total_ordering};
use vstd::string::StrSliceExecFns;

verus! {

broadcast use vstd::seq_lib::group_to_multiset_ensures;

/// One of the four card suits. Suits are used only for equality checks
/// (flush detection) and are never ordered.
#[derive(Debug, PartialEq, Eq, Structural, Clone, Copy, Hash)]
pub enum Suit {
    Hearts,
    Diamonds,
    Spades,
    Clubs,
}

/// A card's face value class. `Ace` normally ranks highest; in the wheel
/// straight (A-2-3-4-5) it compares below `Two`, but that reinterpretation is
/// contextual and lives in `crate::ranking`, not in the card itself.
#[derive(Debug, PartialEq, Eq, Structural, Clone, Copy, Hash)]
pub enum Card {
    Ace,
    Two,
    Three,
    Four,
    Five,
    Six,
    Seven,
    Eight,
    Nine,
    Ten,
    Jack,
    Queen,
    King,
}

impl Card {
    /// The rank's ordinal value: `Two` is 1, rising through `King` at 12,
    /// with `Ace` highest at 13. Value 0 is reserved for the wheel's ace.
    pub open spec fn spec_value(self) -> int {
        match self {
            Card::Ace => 13,
            Card::Two => 1,
            Card::Three => 2,
            Card::Four => 3,
            Card::Five => 4,
            Card::Six => 5,
            Card::Seven => 6,
            Card::Eight => 7,
            Card::Nine => 8,
            Card::Ten => 9,
            Card::Jack => 10,
            Card::Queen => 11,
            Card::King => 12,
        }
    }

    /// Ordinal value of the rank, as `spec_value` gives it.
    pub fn value(&self) -> (r: u8)
        ensures
            r as int == self.spec_value(),
    {
        match self {
            Card::Ace => 13,
            Card::Two => 1,
            Card::Three => 2,
            Card::Four => 3,
            Card::Five => 4,
            Card::Six => 5,
            Card::Seven => 6,
            Card::Eight => 7,
            Card::Nine => 8,
            Card::Ten => 9,
            Card::Jack => 10,
            Card::Queen => 11,
            Card::King => 12,
        }
    }
}

/// Why a hand string failed to parse.
#[derive(Debug, PartialEq, Eq, Structural, Clone, Copy)]
pub enum CardError {
    /// A token's rank text is not one of `A`, `2`–`10`, `J`, `Q`, `K`.
    InvalidRank,
    /// A token's final character is not one of `H`, `D`, `S`, `C` (either case).
    InvalidSuit,
    /// The hand string does not hold exactly five tokens.
    WrongCardCount,
}

impl CardError {
    /// A human-readable account of the failure.
    pub fn message(&self) -> (r: &'static str) {
        match self {
            CardError::InvalidRank => "the rank text is not one of A, 2-10, J, Q, K",
            CardError::InvalidSuit => "the suit letter is not one of H, D, S, C",
            CardError::WrongCardCount => "a hand must hold exactly five cards",
        }
    }
}

/// A single parsed card: a (rank, suit) pair, e.g. `JH` is the jack of
/// hearts. A full five-card hand is a `Vec<Hand>` of length five, kept
/// sorted by rank descending.
#[derive(Debug, PartialEq, Eq, Structural, Clone, Copy, Hash)]
pub struct Hand {
    pub suit: Suit,
    pub card: Card,
}

/// The rank value of a card within a hand; comparisons and classification
/// read nothing else of a card but this and its suit.
pub open spec fn hand_value(h: Hand) -> int {
    h.card.spec_value()
}

/// A fixed index for each suit, used only to build `hand_encode`.
pub open spec fn suit_index(s: Suit) -> int {
    match s {
        Suit::Hearts => 0,
        Suit::Diamonds => 1,
        Suit::Spades => 2,
        Suit::Clubs => 3,
    }
}

/// An injective, rank-major encoding of a card: two cards with equal
/// encodings are the same card, and a higher rank always encodes higher.
pub open spec fn hand_encode(h: Hand) -> int {
    4 * hand_value(h) + suit_index(h.suit)
}

/// The total order `new_sorted` sorts by: descending encoding, so descending
/// rank with ties among equal ranks broken by suit.
pub open spec fn hand_le() -> spec_fn(Hand, Hand) -> bool {
    |a: Hand, b: Hand| hand_encode(a) >= hand_encode(b)
}

/// `hand_le()` is a total order, so sorting by it has a unique result.
pub proof fn lemma_hand_le_total_ordering()
    ensures
        total_ordering(hand_le()),
{
    let leq = hand_le();
    assert forall|a: Hand, b: Hand| #[trigger] leq(a, b) && #[trigger] leq(b, a) implies a == b by {
        assert(hand_encode(a) == hand_encode(b));
        assert(hand_value(a) == hand_value(b) && suit_index(a.suit) == suit_index(b.suit));
        assert(a.card == b.card && a.suit == b.suit);
    }
}

/// Sorted by rank value, highest first; equal ranks thereby stand adjacent.
pub open spec fn sorted_desc(s: Seq<Hand>) -> bool {
    forall|i: int, j: int| 0 <= i <= j < s.len() ==> hand_value(s[i]) >= hand_value(s[j])
}

/// Sorting by `hand_le` (descending encoding) sorts rank values descending.
pub proof fn lemma_hand_le_sorted_desc(s: Seq<Hand>)
    requires
        sorted_by(s, hand_le()),
    ensures
        sorted_desc(s),
{
    assert forall|i: int, j: int| 0 <= i <= j < s.len() implies hand_value(s[i]) >= hand_value(
        s[j],
    ) by {
        if i < j {
            assert(hand_le()(s[i], s[j]));
            assert(0 <= suit_index(s[i].suit) <= 3 && 0 <= suit_index(s[j].suit) <= 3);
        }
    }
}

/// A character that separates tokens in a hand string.
pub open spec fn is_space(c: char) -> bool {
    c == ' ' || c == '\t' || c == '\n' || c == '\r'
}

/// The length of the maximal non-space prefix of `s`: where its first token
/// ends.
pub open spec fn token_end(s: Seq<char>) -> int
    decreases s.len(),
{
    if s.len() == 0 || is_space(s[0]) {
        0
    } else {
        1 + token_end(s.drop_first())
    }
}

/// `token_end` marks the first space (or the string's end), with nothing but
/// non-spaces before it.
pub proof fn lemma_token_end_bounds(s: Seq<char>)
    ensures
        0 <= token_end(s) <= s.len(),
        s.len() > 0 && !is_space(s[0]) ==> token_end(s) >= 1,
        forall|k: int| 0 <= k < token_end(s) ==> !is_space(s[k]),
        token_end(s) < s.len() ==> is_space(s[token_end(s)]),
    decreases s.len(),
{
    if s.len() == 0 || is_space(s[0]) {
    } else {
        lemma_token_end_bounds(s.drop_first());
        assert forall|k: int| 0 <= k < token_end(s) implies !is_space(s[k]) by {
            if k > 0 {
                assert(s.drop_first()[k - 1] == s[k]);
            }
        }
        if token_end(s) < s.len() {
            assert(s.drop_first()[token_end(s) - 1] == s[token_end(s)]);
        }
    }
}

/// Any index with only non-spaces before it and a space (or the end) at it
/// is `token_end`.
pub proof fn lemma_token_end_is(s: Seq<char>, e: int)
    requires
        0 <= e <= s.len(),
        forall|k: int| 0 <= k < e ==> !is_space(s[k]),
        e == s.len() || is_space(s[e]),
    ensures
        token_end(s) == e,
    decreases s.len(),
{
    if e == 0 {
    } else {
        assert(!is_space(s[0]));
        assert(forall|k: int| 0 <= k < s.len() - 1 ==> s.drop_first()[k] == s[k + 1]);
        lemma_token_end_is(s.drop_first(), e - 1);
    }
}

/// The whitespace-separated tokens of `s`, in order: each token a maximal
/// run of non-space characters.
pub open spec fn spec_tokens(s: Seq<char>) -> Seq<Seq<char>>
    decreases s.len(),
    via spec_tokens_decreases
{
    if s.len() == 0 {
        seq![]
    } else if is_space(s[0]) {
        spec_tokens(s.drop_first())
    } else {
        seq![s.take(token_end(s))] + spec_tokens(s.skip(token_end(s)))
    }
}

#[via_fn]
proof fn spec_tokens_decreases(s: Seq<char>) {
    lemma_token_end_bounds(s);
}

/// The rank named by a single character.
pub open spec fn spec_rank_of_char(c: char) -> Option<Card> {
    if c == 'A' {
        Some(Card::Ace)
    } else if c == '2' {
        Some(Card::Two)
    } else if c == '3' {
        Some(Card::Three)
    } else if c == '4' {
        Some(Card::Four)
    } else if c == '5' {
        Some(Card::Five)
    } else if c == '6' {
        Some(Card::Six)
    } else if c == '7' {
        Some(Card::Seven)
    } else if c == '8' {
        Some(Card::Eight)
    } else if c == '9' {
        Some(Card::Nine)
    } else if c == 'J' {
        Some(Card::Jack)
    } else if c == 'Q' {
        Some(Card::Queen)
    } else if c == 'K' {
        Some(Card::King)
    } else {
        None
    }
}

/// The rank named by a token's rank text: one of `A,2,...,9,J,Q,K`, or the
/// two characters `10`.
pub open spec fn spec_rank_of(t: Seq<char>) -> Option<Card> {
    if t.len() == 1 {
        spec_rank_of_char(t[0])
    } else if t.len() == 2 && t[0] == '1' && t[1] == '0' {
        Some(Card::Ten)
    } else {
        None
    }
}

/// The suit named by a character, either case.
pub open spec fn spec_suit_of(c: char) -> Option<Suit> {
    if c == 'H' || c == 'h' {
        Some(Suit::Hearts)
    } else if c == 'D' || c == 'd' {
        Some(Suit::Diamonds)
    } else if c == 'S' || c == 's' {
        Some(Suit::Spades)
    } else if c == 'C' || c == 'c' {
        Some(Suit::Clubs)
    } else {
        None
    }
}

/// Parsing one token: the leading text names the rank and the final
/// character the suit; a bad rank is reported before a bad suit.
pub open spec fn spec_parse_token(t: Seq<char>) -> Result<Hand, CardError> {
    if t.len() == 0 {
        Err(CardError::InvalidRank)
    } else {
        match spec_rank_of(t.drop_last()) {
            None => Err(CardError::InvalidRank),
            Some(card) => match spec_suit_of(t.last()) {
                None => Err(CardError::InvalidSuit),
                Some(suit) => Ok(Hand { suit, card }),
            },
        }
    }
}

/// Parsing tokens in order into cards; the first failure wins.
pub open spec fn spec_parse_tokens(toks: Seq<Seq<char>>) -> Result<Seq<Hand>, CardError>
    decreases toks.len(),
{
    if toks.len() == 0 {
        Ok(seq![])
    } else {
        match spec_parse_token(toks[0]) {
            Err(e) => Err(e),
            Ok(h) => match spec_parse_tokens(toks.drop_first()) {
                Err(e) => Err(e),
                Ok(rest) => Ok(seq![h] + rest),
            },
        }
    }
}

/// What parsing a whole hand string yields: a wrong token count is reported
/// before any bad token, and otherwise the five cards in token order.
pub open spec fn spec_parse_hand(s: Seq<char>) -> Result<Seq<Hand>, CardError> {
    if spec_tokens(s).len() != 5 {
        Err(CardError::WrongCardCount)
    } else {
        spec_parse_tokens(spec_tokens(s))
    }
}

/// The canonical sorted form of a hand: its cards ordered by `hand_le`,
/// rank descending.
pub open spec fn spec_sorted_hand(cards: Seq<Hand>) -> Seq<Hand> {
    cards.sort_by(hand_le())
}

/// The five sorted cards that a valid hand string denotes.
pub open spec fn spec_hand_of(s: Seq<char>) -> Seq<Hand> {
    spec_sorted_hand(spec_parse_hand(s)->Ok_0)
}

/// Whether `c` separates tokens.
fn is_space_char(c: char) -> (r: bool)
    ensures
        r == is_space(c),
{
    c == ' ' || c == '\t' || c == '\n' || c == '\r'
}

/// Split a string into its whitespace-separated tokens.
fn tokenize(s: &str) -> (toks: Vec<Vec<char>>)
    ensures
        toks.deep_view() == spec_tokens(s@),
{
    let n = s.unicode_len();
    let mut toks: Vec<Vec<char>> = Vec::new();
    let mut i: usize = 0;
    proof {
        assert(s@.skip(0) =~= s@);
        assert(toks.deep_view() =~~= Seq::<Seq<char>>::empty());
        assert(toks.deep_view() + spec_tokens(s@) =~~= spec_tokens(s@));
    }
    while i < n
        invariant
            n == s@.len(),
            i <= n,
            spec_tokens(s@) =~~= toks.deep_view() + spec_tokens(s@.skip(i as int)),
        decreases n - i,
    {
        let c = s.get_char(i);
        if is_space_char(c) {
            proof {
                assert(s@.skip(i as int).drop_first() =~= s@.skip(i as int + 1));
            }
            i = i + 1;
        } else {
            let ghost prev = i as int;
            let mut tok: Vec<char> = Vec::new();
            proof {
                assert(tok@ =~= s@.subrange(prev, prev));
            }
            loop
                invariant_except_break
                    n == s@.len(),
                    0 <= prev < n,
                    prev <= i as int <= n,
                    tok@ =~= s@.subrange(prev, i as int),
                    forall|k: int| prev <= k < i as int ==> !is_space(s@[k]),
                    !is_space(s@[prev]),
                ensures
                    n == s@.len(),
                    0 <= prev < n,
                    prev <= i as int <= n,
                    tok@ =~= s@.subrange(prev, i as int),
                    forall|k: int| prev <= k < i as int ==> !is_space(s@[k]),
                    !is_space(s@[prev]),
                    i as int == n || is_space(s@[i as int]),
                decreases n - i,
            {
                if i == n {
                    break ;
                }
                let c2 = s.get_char(i);
                if is_space_char(c2) {
                    break ;
                }
                tok.push(c2);
                proof {
                    assert(tok@ =~= s@.subrange(prev, i as int + 1));
                }
                i = i + 1;
            }
            let ghost dv = toks.deep_view();
            toks.push(tok);
            proof {
                let suffix = s@.skip(prev);
                assert(forall|k: int| 0 <= k < suffix.len() ==> suffix[k] == s@[prev + k]);
                lemma_token_end_is(suffix, i as int - prev);
                assert(suffix.take(i as int - prev) =~= s@.subrange(prev, i as int));
                assert(suffix.skip(i as int - prev) =~= s@.skip(i as int));
                assert(spec_tokens(suffix) == seq![tok@] + spec_tokens(s@.skip(i as int)));
                assert(toks.deep_view() =~~= dv + seq![tok@]);
                assert(dv + (seq![tok@] + spec_tokens(s@.skip(i as int))) =~~= (dv + seq![tok@])
                    + spec_tokens(s@.skip(i as int)));
            }
        }
    }
    proof {
        assert(s@.skip(n as int) =~= Seq::<char>::empty());
        assert(toks.deep_view() + spec_tokens(s@.skip(n as int)) =~~= toks.deep_view());
    }
    toks
}

impl Card {
    /// Parse a token's rank text into a rank.
    fn from_value(value: &[char]) -> (r: Result<Card, CardError>)
        ensures
            match r {
                Ok(c) => spec_rank_of(value@) == Some(c),
                Err(e) => spec_rank_of(value@) is None && e == CardError::InvalidRank,
            },
    {
        if value.len() == 1 {
            let c = value[0];
            if c == 'A' {
                Ok(Card::Ace)
            } else if c == '2' {
                Ok(Card::Two)
            } else if c == '3' {
                Ok(Card::Three)
            } else if c == '4' {
                Ok(Card::Four)
            } else if c == '5' {
                Ok(Card::Five)
            } else if c == '6' {
                Ok(Card::Six)
            } else if c == '7' {
                Ok(Card::Seven)
            } else if c == '8' {
                Ok(Card::Eight)
            } else if c == '9' {
                Ok(Card::Nine)
            } else if c == 'J' {
                Ok(Card::Jack)
            } else if c == 'Q' {
                Ok(Card::Queen)
            } else if c == 'K' {
                Ok(Card::King)
            } else {
                Err(CardError::InvalidRank)
            }
        } else if value.len() == 2 {
            if value[0] == '1' && value[1] == '0' {
                Ok(Card::Ten)
            } else {
                Err(CardError::InvalidRank)
            }
        } else {
            Err(CardError::InvalidRank)
        }
    }
}

impl Hand {
    /// Map a suit letter, either case, to its suit.
    fn to_suit(suit: char) -> (r: Result<Suit, CardError>)
        ensures
            match r {
                Ok(s) => spec_suit_of(suit) == Some(s),
                Err(e) => spec_suit_of(suit) is None && e == CardError::InvalidSuit,
            },
    {
        if suit == 'H' || suit == 'h' {
            Ok(Suit::Hearts)
        } else if suit == 'D' || suit == 'd' {
            Ok(Suit::Diamonds)
        } else if suit == 'S' || suit == 's' {
            Ok(Suit::Spades)
        } else if suit == 'C' || suit == 'c' {
            Ok(Suit::Clubs)
        } else {
            Err(CardError::InvalidSuit)
        }
    }

    /// Parse one token into a card: leading rank text, then one suit letter.
    fn retrieve_hand(t: &Vec<char>) -> (r: Result<Hand, CardError>)
        ensures
            r == spec_parse_token(t@),
    {
        if t.len() == 0 {
            return Err(CardError::InvalidRank);
        }
        let m = t.len() - 1;
        proof {
            assert(t@.drop_last() =~= t@.subrange(0, m as int));
        }
        let card = match Card::from_value(&t.as_slice()[0..m]) {
            Ok(c) => c,
            Err(e) => {
                return Err(e);
            },
        };
        let suit = match Self::to_suit(t[m]) {
            Ok(s) => s,
            Err(e) => {
                return Err(e);
            },
        };
        Ok(Hand { suit, card })
    }
}

/// The encoding `hand_encode`, executably.
fn hand_encode_exec(h: &Hand) -> (r: u8)
    ensures
        r as int == hand_encode(*h),
{
    let s: u8 = match h.suit {
        Suit::Hearts => 0,
        Suit::Diamonds => 1,
        Suit::Spades => 2,
        Suit::Clubs => 3,
    };
    4 * h.card.value() + s
}

/// Sort cards by `hand_le`: rank descending, ties among equal ranks broken
/// by suit, so the result is the one sorted arrangement `spec_sorted_hand`
/// names.
fn sort_cards(cards: Vec<Hand>) -> (r: Vec<Hand>)
    ensures
        r@ == spec_sorted_hand(cards@),
{
    let mut rest = cards;
    let mut out: Vec<Hand> = Vec::new();
    let ghost orig = rest@;
    while rest.len() > 0
        invariant
            out@.to_multiset().add(rest@.to_multiset()) =~= orig.to_multiset(),
            sorted_by(out@, hand_le()),
            forall|a: int, b: int|
                0 <= a < out@.len() && 0 <= b < rest@.len() ==> hand_encode(out@[a]) >= hand_encode(
                    rest@[b],
                ),
        decreases rest@.len(),
    {
        let mut m: usize = 0;
        let mut j: usize = 1;
        while j < rest.len()
            invariant
                rest@.len() > 0,
                m < j <= rest@.len(),
                forall|t: int| 0 <= t < j ==> hand_encode(rest@[m as int]) >= hand_encode(rest@[t]),
            decreases rest@.len() - j,
        {
            if hand_encode_exec(&rest[j]) > hand_encode_exec(&rest[m]) {
                m = j;
            }
            j = j + 1;
        }
        let ghost rest_old = rest@;
        let ghost out_old = out@;
        let h = rest.remove(m);
        out.push(h);
        proof {
            assert(rest@ =~= rest_old.remove(m as int));
            assert(rest_old.to_multiset().contains(h));
            assert(out@.to_multiset().add(rest@.to_multiset()) =~= orig.to_multiset());
            assert forall|a: int, b: int|
                0 <= a < out@.len() && 0 <= b < rest@.len() implies hand_encode(out@[a])
                >= hand_encode(rest@[b]) by {
                if a < out_old.len() {
                    assert(out_old[a] == out@[a]);
                }
                if b < m as int {
                    assert(rest@[b] == rest_old[b]);
                } else {
                    assert(rest@[b] == rest_old[b + 1]);
                }
            }
            assert(sorted_by(out@, hand_le()));
        }
    }
    proof {
        lemma_hand_le_total_ordering();
        orig.lemma_sort_by_ensures(hand_le());
        assert(rest@.to_multiset() =~= Multiset::<Hand>::empty());
        assert(out@.to_multiset() =~= orig.to_multiset());
        vstd::seq_lib::lemma_sorted_unique(out@, orig.sort_by(hand_le()), hand_le());
        assert(out@ == spec_sorted_hand(orig));
    }
    out
}

impl Hand {
    /// Parse a whitespace-separated hand string into its five cards, sorted
    /// by rank descending. Fails with `WrongCardCount` unless the string
    /// holds exactly five tokens, and otherwise with the first token's
    /// failure, in token order.
    pub fn new_sorted(hands: &str) -> (r: Result<Vec<Hand>, CardError>)
        ensures
            match r {
                Ok(v) => {
                    &&& spec_parse_hand(hands@) is Ok
                    &&& v@ == spec_hand_of(hands@)
                    &&& v@.len() == 5
                    &&& sorted_desc(v@)
                    &&& v@.to_multiset() == spec_parse_hand(hands@)->Ok_0.to_multiset()
                },
                Err(e) => spec_parse_hand(hands@) == Err::<Seq<Hand>, CardError>(e),
            },
    {
        let toks = tokenize(hands);
        if toks.len() != 5 {
            return Err(CardError::WrongCardCount);
        }
        let ghost tv = toks.deep_view();
        let mut cards: Vec<Hand> = Vec::new();
        let mut k: usize = 0;
        proof {
            assert(tv.skip(0) =~~= tv);
            assert(cards@ =~= Seq::<Hand>::empty());
            let pr = spec_parse_tokens(tv);
            if pr is Ok {
                assert(cards@ + pr->Ok_0 =~= pr->Ok_0);
            }
        }
        while k < 5
            invariant
                tv == spec_tokens(hands@),
                tv == toks.deep_view(),
                toks@.len() == 5,
                tv.len() == 5,
                k <= 5,
                cards@.len() == k,
                spec_parse_tokens(tv) == (match spec_parse_tokens(tv.skip(k as int)) {
                    Ok(restcards) => Ok::<Seq<Hand>, CardError>(cards@ + restcards),
                    Err(e) => Err::<Seq<Hand>, CardError>(e),
                }),
            decreases 5 - k,
        {
            proof {
                assert(tv == toks.deep_view());
                assert(tv[k as int] == toks@[k as int].deep_view());
                assert(toks@[k as int].deep_view() =~= toks@[k as int]@);
                assert(tv.skip(k as int)[0] == tv[k as int]);
                assert(tv.skip(k as int).drop_first() =~~= tv.skip(k as int + 1));
            }
            match Self::retrieve_hand(&toks[k]) {
                Ok(h) => {
                    let ghost cards_old = cards@;
                    cards.push(h);
                    proof {
                        assert(spec_parse_token(tv.skip(k as int)[0]) == Ok::<Hand, CardError>(h));
                        assert forall|restcards: Seq<Hand>|
                            spec_parse_tokens(tv.skip(k as int + 1)) == Ok::<
                                Seq<Hand>,
                                CardError,
                            >(restcards) implies cards_old + (seq![h] + restcards) =~= cards@
                            + restcards by {}
                    }
                    k = k + 1;
                },
                Err(e) => {
                    proof {
                        assert(spec_parse_tokens(tv.skip(k as int)) == Err::<
                            Seq<Hand>,
                            CardError,
                        >(e));
                    }
                    return Err(e);
                },
            }
        }
        proof {
            assert(tv.skip(5) =~~= Seq::<Seq<char>>::empty());
            assert(cards@ + Seq::<Hand>::empty() =~= cards@);
            assert(spec_parse_tokens(tv) == Ok::<Seq<Hand>, CardError>(cards@));
        }
        let ghost parsed = cards@;
        let sorted = sort_cards(cards);
        proof {
            lemma_hand_le_total_ordering();
            parsed.lemma_sort_by_ensures(hand_le());
            lemma_hand_le_sorted_desc(sorted@);
            assert(sorted@.to_multiset().len() == sorted@.len());
            assert(parsed.to_multiset().len() == parsed.len());
        }
        Ok(sorted)
    }
}

} // verus!
