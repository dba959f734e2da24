//! Text helpers.

use vstd::prelude::*;

verus! {

/// `pattern` stands in `text` at `at`.
pub open spec fn occurs_at(text: Seq<char>, pattern: Seq<char>, at: int) -> bool {
    &&& 0 <= at
    &&& at + pattern.len() <= text.len()
    &&& text.subrange(at, at + pattern.len()) == pattern
}

/// `pattern` stands somewhere in `text`.
pub open spec fn occurs(text: Seq<char>, pattern: Seq<char>) -> bool {
    exists|at: int| occurs_at(text, pattern, at)
}

/// `pattern` stands in `text` at `at`, and nowhere before.
pub open spec fn first_at(text: Seq<char>, pattern: Seq<char>, at: int) -> bool {
    &&& occurs_at(text, pattern, at)
    &&& forall|earlier: int| earlier < at ==> !occurs_at(text, pattern, earlier)
}

/// The first place of `pattern` in `text`, if it stands there at all.
pub open spec fn position(text: Seq<char>, pattern: Seq<char>) -> Option<int> {
    if occurs(text, pattern) {
        Some(choose|at: int| first_at(text, pattern, at))
    } else {
        None
    }
}

/// There is one first place.
pub proof fn lemma_position(text: Seq<char>, pattern: Seq<char>, at: int)
    requires
        first_at(text, pattern, at),
    ensures
        position(text, pattern) == Some(at),
{
    let other = choose|other: int| first_at(text, pattern, other);
    assert(first_at(text, pattern, other));
}

/// What occurs has a first place.
pub proof fn lemma_first_exists(text: Seq<char>, pattern: Seq<char>)
    requires
        occurs(text, pattern),
    ensures
        position(text, pattern) matches Some(at) && first_at(text, pattern, at),
{
    let at = choose|at: int| occurs_at(text, pattern, at);
    lemma_first_below(text, pattern, at);
    let first = choose|first: int| first_at(text, pattern, first);
    lemma_position(text, pattern, first);
}

proof fn lemma_first_below(text: Seq<char>, pattern: Seq<char>, at: int)
    requires
        occurs_at(text, pattern, at),
    ensures
        exists|first: int| first_at(text, pattern, first),
    decreases at,
{
    if exists|earlier: int| earlier < at && occurs_at(text, pattern, earlier) {
        let earlier = choose|earlier: int| earlier < at && occurs_at(text, pattern, earlier);
        lemma_first_below(text, pattern, earlier);
    } else {
        assert(first_at(text, pattern, at));
    }
}

/// The decimal digits of `n`, without leading zeros.
pub open spec fn decimal(n: nat) -> Seq<char>
    decreases n,
{
    if n < 10 {
        seq![digit(n)]
    } else {
        decimal(n / 10).push(digit(n % 10))
    }
}

/// The character of one decimal digit.
pub open spec fn digit(d: nat) -> char {
    ('0' as nat + d) as char
}

/// The decimal digits of `n`, after a minus sign when it is negative.
pub open spec fn signed_decimal(n: int) -> Seq<char> {
    if n < 0 {
        seq!['-'] + decimal((-n) as nat)
    } else {
        decimal(n as nat)
    }
}

/// The characters of `s`.
pub(crate) fn chars_of(s: &str) -> (r: Vec<char>)
    ensures
        r@ == s@,
{
    let mut out: Vec<char> = Vec::new();
    for c in it: s.chars()
        invariant
            it.seq() == s@,
            out@ == s@.take(it.index() as int),
    {
        out.push(c);
    }
    assert(s@.take(s@.len() as int) == s@);
    out
}

/// Whether `pattern` stands in `text` at `at`.
fn matches_at(text: &Vec<char>, pattern: &Vec<char>, at: usize) -> (r: bool)
    requires
        at + pattern@.len() <= text@.len(),
    ensures
        r == occurs_at(text@, pattern@, at as int),
{
    let total: usize = text.len();
    let mut i: usize = 0;
    while i < pattern.len()
        invariant
            i <= pattern@.len(),
            at + pattern@.len() <= text@.len(),
            total == text@.len(),
            forall|j: int| 0 <= j < i ==> text@[at + j] == pattern@[j],
        decreases pattern@.len() - i,
    {
        if text[at + i] != pattern[i] {
            assert(text@.subrange(at as int, at + pattern@.len())[i as int] != pattern@[i as int]);
            return false;
        }
        i += 1;
    }
    assert(text@.subrange(at as int, at + pattern@.len()) =~= pattern@);
    true
}

/// The place, counted in characters, where `pattern` first stands in `text`.
pub(crate) fn find(text: &str, pattern: &str) -> (r: Option<usize>)
    ensures
        match r {
            Some(at) => position(text@, pattern@) == Some(at as int) && first_at(
                text@,
                pattern@,
                at as int,
            ),
            None => position(text@, pattern@) is None && !occurs(text@, pattern@),
        },
{
    let t: Vec<char> = chars_of(text);
    let p: Vec<char> = chars_of(pattern);
    let mut at: usize = 0;
    while at <= t.len() && p.len() <= t.len() - at
        invariant
            t@ == text@,
            p@ == pattern@,
            at <= t@.len() + 1,
            forall|earlier: int| earlier < at ==> !occurs_at(text@, pattern@, earlier),
        decreases t@.len() + 1 - at,
    {
        if matches_at(&t, &p, at) {
            proof {
                lemma_position(text@, pattern@, at as int);
            }
            return Some(at);
        }
        if at == usize::MAX {
            return None;
        }
        at += 1;
    }
    None
}

/// Whether `pattern` stands in `text`.
pub(crate) fn contains(text: &str, pattern: &str) -> (r: bool)
    ensures
        r == occurs(text@, pattern@),
{
    match find(text, pattern) {
        Some(at) => {
            assert(occurs_at(text@, pattern@, at as int));
            true
        },
        None => false,
    }
}

/// The text of one decimal digit.
fn digit_text(d: u64) -> (r: &'static str)
    requires
        d < 10,
    ensures
        r@ == seq![digit(d as nat)],
{
    proof {
        reveal_strlit("0");
        reveal_strlit("1");
        reveal_strlit("2");
        reveal_strlit("3");
        reveal_strlit("4");
        reveal_strlit("5");
        reveal_strlit("6");
        reveal_strlit("7");
        reveal_strlit("8");
        reveal_strlit("9");
    }
    match d {
        0 => "0",
        1 => "1",
        2 => "2",
        3 => "3",
        4 => "4",
        5 => "5",
        6 => "6",
        7 => "7",
        8 => "8",
        _ => "9",
    }
}

/// `n` in decimal.
pub(crate) fn decimal_text(n: u64) -> (r: String)
    ensures
        r@ == decimal(n as nat),
    decreases n,
{
    if n < 10 {
        digit_text(n).to_owned()
    } else {
        let mut out: String = decimal_text(n / 10);
        out.append(digit_text(n % 10));
        out
    }
}

/// `n` in decimal, with a sign when it is negative.
pub(crate) fn signed_decimal_text(n: i64) -> (r: String)
    ensures
        r@ == signed_decimal(n as int),
{
    if n < 0 {
        let magnitude: u64 = (-(n as i128)) as u64;
        proof {
            reveal_strlit("-");
            assert("-"@ == seq!['-']);
        }
        joined("-", decimal_text(magnitude).as_str())
    } else {
        decimal_text(n as u64)
    }
}

/// `head` followed by `tail`.
pub(crate) fn joined(head: &str, tail: &str) -> (r: String)
    ensures
        r@ == head@ + tail@,
{
    let mut out: String = head.to_owned();
    out.append(tail);
    out
}

/// The number that decimal digits stand for.
pub open spec fn number_of(digits: Seq<char>) -> int
    decreases digits.len(),
{
    if digits.len() == 0 {
        0
    } else {
        number_of(digits.drop_last()) * 10 + (digits.last() as int - '0' as int)
    }
}

/// `text` is how `n` is written: decimal digits that stand for it, without
/// leading zeros.
pub open spec fn writes(text: Seq<char>, n: int) -> bool {
    &&& text.len() > 0
    &&& forall|i: int| 0 <= i < text.len() ==> '0' <= #[trigger] text[i] <= '9'
    &&& text.len() > 1 ==> text[0] != '0'
    &&& number_of(text) == n
}

/// `text` is how `n` is written, after a minus sign exactly if it is
/// negative.
pub open spec fn reads_back(text: Seq<char>, n: int) -> bool {
    if n < 0 {
        text.len() > 0 && text[0] == '-' && writes(text.skip(1), -n)
    } else {
        writes(text, n)
    }
}

proof fn lemma_decimal(n: nat)
    ensures
        decimal(n).len() > 0,
        forall|i: int| 0 <= i < decimal(n).len() ==> '0' <= #[trigger] decimal(n)[i] <= '9',
        n > 0 ==> decimal(n)[0] != '0',
        n == 0 ==> decimal(n).len() == 1,
        number_of(decimal(n)) == n,
    decreases n,
{
    if n < 10 {
        assert(decimal(n).drop_last() == Seq::<char>::empty());
        assert(number_of(Seq::<char>::empty()) == 0);
    } else {
        lemma_decimal(n / 10);
        assert(decimal(n).drop_last() == decimal(n / 10));
    }
}

/// What is written in decimal reads back as the number, and is written in
/// one way only: without leading zeros.
pub proof fn law_decimals_read_back(n: int)
    ensures
        reads_back(signed_decimal(n), n),
{
    if n < 0 {
        lemma_decimal((-n) as nat);
        assert(signed_decimal(n).skip(1) == decimal((-n) as nat));
    } else {
        lemma_decimal(n as nat);
    }
}

proof fn lemma_occurs_at(text: Seq<char>, pattern: Seq<char>, at: int)
    requires
        0 <= at,
        at + pattern.len() <= text.len(),
    ensures
        occurs_at(text, pattern, at) <==> forall|j: int|
            0 <= j < pattern.len() ==> text[at + j] == #[trigger] pattern[j],
{
    let there = text.subrange(at, at + pattern.len());
    assert forall|j: int| 0 <= j < pattern.len() implies there[j] == text[at + j] by {}
    if forall|j: int| 0 <= j < pattern.len() ==> text[at + j] == #[trigger] pattern[j] {
        assert(there =~= pattern);
    }
}

/// A pattern is found exactly if it stands in the text, character by
/// character, and then at the first place where it does.
pub proof fn law_the_first_place_is_found(text: Seq<char>, pattern: Seq<char>, k: int)
    requires
        0 <= k,
        k + pattern.len() <= text.len(),
    ensures
        occurs(text, pattern) <==> position(text, pattern) is Some,
        (forall|j: int| 0 <= j < pattern.len() ==> text[k + j] == #[trigger] pattern[j]) ==> (
        position(text, pattern) matches Some(at) && 0 <= at <= k),
        position(text, pattern) == Some(k) ==> forall|j: int|
            0 <= j < pattern.len() ==> text[k + j] == #[trigger] pattern[j],
{
    lemma_occurs_at(text, pattern, k);
    if occurs(text, pattern) {
        lemma_first_exists(text, pattern);
    }
}

/// What is found is the first place where the pattern stands; numbers are
/// written as they read back; joined texts follow each other.
pub(crate) proof fn law_texts_are_found_written_and_joined(
    a: &str,
    b: &str,
    unsigned: u64,
    signed: i64,
    k: int,
)
    requires
        0 <= k,
        k + b@.len() <= a@.len(),
    ensures
        forall|r: Option<usize>| #[trigger]
            call_ensures(find, (a, b), r) ==> {
                &&& a@.subrange(k, k + b@.len()) == b@ ==> (r matches Some(at) && at <= k)
                &&& r == Some(k as usize) && k <= usize::MAX ==> a@.subrange(k, k + b@.len()) == b@
            },
        forall|r: bool| #[trigger]
            call_ensures(contains, (a, b), r) ==> {
                &&& a@.subrange(k, k + b@.len()) == b@ ==> r
                &&& r ==> exists|at: int|
                    0 <= at <= a@.len() - b@.len() && #[trigger] a@.subrange(at, at + b@.len())
                        == b@
            },
        forall|r: String| #[trigger]
            call_ensures(decimal_text, (unsigned,), r) ==> reads_back(r@, unsigned as int),
        forall|r: String| #[trigger]
            call_ensures(signed_decimal_text, (signed,), r) ==> reads_back(r@, signed as int),
        forall|r: String| #[trigger] call_ensures(joined, (a, b), r) ==> r@ == a@ + b@,
        forall|r: Vec<char>| #[trigger] call_ensures(chars_of, (a,), r) ==> r@ == a@,
{
    law_decimals_read_back(unsigned as int);
    law_decimals_read_back(signed as int);
    if a@.subrange(k, k + b@.len()) == b@ {
        assert(occurs_at(a@, b@, k));
    }
    if occurs(a@, b@) {
        let at = choose|at: int| occurs_at(a@, b@, at);
        assert(a@.subrange(at, at + b@.len()) == b@);
    }
}

} // verus!
