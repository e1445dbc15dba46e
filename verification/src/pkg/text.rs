//! Texts as sequences of characters.

use vstd::prelude::*;

verus! {

/// The characters of a text, in order.
pub fn chars_of(text: &str) -> (chars: Vec<char>)
    ensures
        chars@ == text@,
{
    let mut chars: Vec<char> = Vec::new();
    for c in it: text.chars()
        invariant
            chars@ == it.seq().take(it.index() as int),
            it.seq() == text@,
    {
        chars.push(c);
    }
    chars
}

/// Whether the characters are those of the text.
pub fn spells(chars: &Vec<char>, text: &str) -> (same: bool)
    ensures
        same == (chars@ == text@),
{
    let other = chars_of(text);
    if chars.len() != other.len() {
        return false;
    }
    let mut i: usize = 0;
    while i < chars.len()
        invariant
            i <= chars.len(),
            chars.len() == other.len(),
            other@ == text@,
            forall|j: int| 0 <= j < i ==> chars@[j] == other@[j],
        decreases chars.len() - i,
    {
        if chars[i] != other[i] {
            return false;
        }
        i += 1;
    }
    assert(chars@ =~= text@);
    true
}

/// Whether a character is one of the ten decimal digits.
pub open spec fn is_digit(c: char) -> bool {
    '0' <= c && c <= '9'
}

/// The number that a decimal digit stands for.
pub open spec fn digit_value(c: char) -> nat {
    (c as int - '0' as int) as nat
}

/// Whether a text is made of decimal digits alone.
pub open spec fn all_digits(text: Seq<char>) -> bool {
    forall|i: int| 0 <= i < text.len() ==> is_digit(#[trigger] text[i])
}

/// The number that a run of decimal digits denotes, the last digit counting
/// least.
pub open spec fn digits_value(digits: Seq<char>) -> nat
    decreases digits.len(),
{
    if digits.len() == 0 {
        0
    } else {
        10 * digits_value(digits.drop_last()) + digit_value(digits.last())
    }
}

/// The integer that a text denotes in decimal notation: an optional sign,
/// `+` or `-`, then one digit or more and nothing else. Any other text denotes
/// none.
pub open spec fn signed_decimal(text: Seq<char>) -> Option<int> {
    let signed = text.len() > 0 && (text[0] == '-' || text[0] == '+');
    let digits = if signed {
        text.drop_first()
    } else {
        text
    };
    if digits.len() > 0 && all_digits(digits) {
        if signed && text[0] == '-' {
            Some(-(digits_value(digits) as int))
        } else {
            Some(digits_value(digits) as int)
        }
    } else {
        None
    }
}

/// The signed 64-bit integer that a text is read as: what it denotes in
/// decimal notation, where that fits the type.
pub open spec fn integer_of(text: Seq<char>) -> Option<i64> {
    match signed_decimal(text) {
        Some(value) => if i64::MIN <= value <= i64::MAX {
            Some(value as i64)
        } else {
            None
        },
        None => None,
    }
}

/// The magnitude of the least signed 64-bit integer, one more than that of
/// the greatest.
pub const MAGNITUDE_LIMIT: u64 = 9_223_372_036_854_775_808;

/// A run of digits denotes at least what any of its prefixes denotes.
pub proof fn lemma_prefix_value(digits: Seq<char>, k: int)
    requires
        0 <= k <= digits.len(),
    ensures
        digits_value(digits.take(k)) <= digits_value(digits),
    decreases digits.len(),
{
    if k == digits.len() {
        assert(digits.take(k) =~= digits);
    } else {
        lemma_prefix_value(digits.drop_last(), k);
        assert(digits.drop_last().take(k) =~= digits.take(k));
    }
}

/// Reads a text as a signed 64-bit integer in decimal notation. A text that
/// is no such number, or whose number does not fit, is read as none.
pub fn parse_integer(text: &str) -> (parsed: Option<i64>)
    ensures
        parsed == integer_of(text@),
{
    let chars = chars_of(text);
    let n: usize = chars.len();
    if n == 0 {
        return None;
    }
    let negative = chars[0] == '-';
    let start: usize = if chars[0] == '-' || chars[0] == '+' {
        1
    } else {
        0
    };
    if start == n {
        return None;
    }
    let ghost digits = chars@.subrange(start as int, n as int);
    assert(digits =~= if start == 1 {
        text@.drop_first()
    } else {
        text@
    });
    let mut magnitude: u64 = 0;
    let mut i: usize = start;
    while i < n
        invariant
            start <= i <= n,
            n == chars.len(),
            chars@ == text@,
            start == 1 <==> text@[0] == '-' || text@[0] == '+',
            negative <==> text@[0] == '-',
            digits == chars@.subrange(start as int, n as int),
            digits == if start == 1 {
                text@.drop_first()
            } else {
                text@
            },
            all_digits(digits.take(i - start)),
            magnitude == digits_value(digits.take(i - start)),
            magnitude <= MAGNITUDE_LIMIT,
        decreases n - i,
    {
        let c = chars[i];
        assert(c == digits[i - start]);
        if !('0' <= c && c <= '9') {
            assert(!is_digit(digits[i - start]));
            return None;
        }
        let digit: u64 = (c as u32 - '0' as u32) as u64;
        proof {
            assert(digits.take(i + 1 - start).drop_last() =~= digits.take(i - start));
            assert(digits.take(i + 1 - start).last() == c);
            assert(digits_value(digits.take(i + 1 - start)) == 10 * magnitude + digit);
        }
        if magnitude > (MAGNITUDE_LIMIT - digit) / 10 {
            proof {
                lemma_prefix_value(digits, i + 1 - start);
                assert(digits_value(digits) > MAGNITUDE_LIMIT);
            }
            return None;
        }
        magnitude = 10 * magnitude + digit;
        i += 1;
    }
    assert(digits.take(n - start) =~= digits);
    if negative {
        if magnitude == MAGNITUDE_LIMIT {
            Some(i64::MIN)
        } else {
            Some(-(magnitude as i64))
        }
    } else if magnitude == MAGNITUDE_LIMIT {
        None
    } else {
        Some(magnitude as i64)
    }
}

/// The order of texts: character by character, the first difference
/// deciding, and a text before every longer one that begins with it.
pub open spec fn precedes(left: Seq<char>, right: Seq<char>) -> bool
    decreases left.len(),
{
    if right.len() == 0 {
        false
    } else if left.len() == 0 {
        true
    } else if left[0] != right[0] {
        left[0] < right[0]
    } else {
        precedes(left.drop_first(), right.drop_first())
    }
}

/// No text precedes itself.
pub proof fn lemma_precedes_irreflexive(text: Seq<char>)
    ensures
        !precedes(text, text),
    decreases text.len(),
{
    if text.len() > 0 {
        lemma_precedes_irreflexive(text.drop_first());
    }
}

/// What precedes a text precedes all that the text precedes.
pub proof fn lemma_precedes_transitive(a: Seq<char>, b: Seq<char>, c: Seq<char>)
    requires
        precedes(a, b),
        precedes(b, c),
    ensures
        precedes(a, c),
    decreases a.len(),
{
    if a.len() > 0 && a[0] == b[0] && b[0] == c[0] {
        lemma_precedes_transitive(a.drop_first(), b.drop_first(), c.drop_first());
    }
}

/// Of two different texts one precedes the other.
pub proof fn lemma_precedes_total(a: Seq<char>, b: Seq<char>)
    requires
        a != b,
    ensures
        precedes(a, b) || precedes(b, a),
    decreases a.len(),
{
    if a.len() > 0 && b.len() > 0 && a[0] == b[0] {
        if a.drop_first() == b.drop_first() {
            assert(a =~= seq![a[0]] + a.drop_first());
            assert(b =~= seq![b[0]] + b.drop_first());
        }
        lemma_precedes_total(a.drop_first(), b.drop_first());
    } else if a.len() == 0 && b.len() == 0 {
        assert(a =~= b);
    }
}

/// Whether the first text precedes the second in the order of texts.
pub fn text_precedes(left: &str, right: &str) -> (before: bool)
    ensures
        before == precedes(left@, right@),
{
    let a = chars_of(left);
    let b = chars_of(right);
    let mut i: usize = 0;
    assert(a@.skip(0) =~= a@ && b@.skip(0) =~= b@);
    while i < a.len() && i < b.len()
        invariant
            i <= a.len(),
            i <= b.len(),
            a@ == left@,
            b@ == right@,
            precedes(a@, b@) == precedes(a@.skip(i as int), b@.skip(i as int)),
        decreases a.len() - i,
    {
        proof {
            assert(a@.skip(i as int).drop_first() =~= a@.skip(i + 1));
            assert(b@.skip(i as int).drop_first() =~= b@.skip(i + 1));
            assert(a@.skip(i as int)[0] == a@[i as int]);
            assert(b@.skip(i as int)[0] == b@[i as int]);
        }
        if a[i] != b[i] {
            return a[i] < b[i];
        }
        i += 1;
    }
    i < b.len()
}

/// Whether each text of a list precedes all that come after it: the list is
/// in order and holds no text twice.
pub open spec fn increasing(texts: Seq<Seq<char>>) -> bool {
    forall|i: int, j: int|
        0 <= i < j < texts.len() ==> precedes(#[trigger] texts[i], #[trigger] texts[j])
}

/// A text put into a list in order, at the place before which all precede it
/// and from which on none does, leaves the list in order and adds the text
/// to what it holds.
pub proof fn lemma_insert_in_order(texts: Seq<Seq<char>>, place: int, text: Seq<char>)
    requires
        increasing(texts),
        0 <= place <= texts.len(),
        forall|j: int| 0 <= j < place ==> precedes(#[trigger] texts[j], text),
        place < texts.len() ==> !precedes(texts[place], text) && texts[place] != text,
    ensures
        increasing(texts.insert(place, text)),
        texts.insert(place, text).to_set() == texts.to_set().insert(text),
{
    let longer = texts.insert(place, text);
    texts.insert_ensures(place, text);
    assert forall|j: int| place <= j < texts.len() implies precedes(text, #[trigger] texts[j]) by {
        lemma_precedes_total(texts[place], text);
        if place < j {
            lemma_precedes_transitive(text, texts[place], texts[j]);
        }
    }
    assert forall|i: int, j: int| 0 <= i < j < longer.len() implies precedes(
        #[trigger] longer[i],
        #[trigger] longer[j],
    ) by {
        if i < place {
            assert(longer[i] == texts[i]);
        } else if i > place {
            assert(longer[i] == texts[i - 1]);
        }
        if j < place {
            assert(longer[j] == texts[j]);
        } else if j > place {
            assert(longer[j] == texts[j - 1]);
        }
    }
    assert forall|t: Seq<char>| longer.to_set().contains(t) <==> texts.to_set().insert(
        text,
    ).contains(t) by {
        if longer.contains(t) {
            let k = choose|k: int| 0 <= k < longer.len() && longer[k] == t;
            if k < place {
                assert(texts[k] == t);
            } else if k > place {
                assert(texts[k - 1] == t);
            }
        }
        if texts.contains(t) {
            let k = choose|k: int| 0 <= k < texts.len() && texts[k] == t;
            if k < place {
                assert(longer[k] == t);
            } else {
                assert(longer[k + 1] == t);
            }
        }
        if t == text {
            assert(longer[place] == t);
        }
    }
    assert(longer.to_set() =~= texts.to_set().insert(text));
}

/// A set of texts has one list in order: two lists in order that hold the
/// same texts are the same list.
pub proof fn lemma_increasing_unique(first: Seq<Seq<char>>, second: Seq<Seq<char>>)
    requires
        increasing(first),
        increasing(second),
        first.to_set() == second.to_set(),
    ensures
        first == second,
    decreases first.len(),
{
    if first.len() == 0 {
        if second.len() > 0 {
            assert(second.contains(second[0]));
            assert(first.to_set().contains(second[0]));
        }
        assert(first =~= second);
    } else {
        assert(first.contains(first[0]));
        assert(second.to_set().contains(first[0]));
        let k = choose|k: int| 0 <= k < second.len() && second[k] == first[0];
        assert(second.contains(second[0]));
        assert(first.to_set().contains(second[0]));
        let m = choose|m: int| 0 <= m < first.len() && first[m] == second[0];
        if k > 0 {
            assert(precedes(second[0], second[k]));
            if m > 0 {
                assert(precedes(first[0], first[m]));
                lemma_precedes_transitive(second[0], first[0], second[0]);
            }
            lemma_precedes_irreflexive(second[0]);
        }
        assert(first[0] == second[0]);
        let rest = first.drop_first();
        let other = second.drop_first();
        assert forall|i: int, j: int| 0 <= i < j < rest.len() implies precedes(
            #[trigger] rest[i],
            #[trigger] rest[j],
        ) by {
            assert(rest[i] == first[i + 1] && rest[j] == first[j + 1]);
        }
        assert forall|i: int, j: int| 0 <= i < j < other.len() implies precedes(
            #[trigger] other[i],
            #[trigger] other[j],
        ) by {
            assert(other[i] == second[i + 1] && other[j] == second[j + 1]);
        }
        assert forall|t: Seq<char>| rest.to_set().contains(t) <==> other.to_set().contains(t) by {
            lemma_precedes_irreflexive(t);
            if rest.contains(t) {
                let i = choose|i: int| 0 <= i < rest.len() && rest[i] == t;
                assert(first[i + 1] == t);
                assert(precedes(first[0], first[i + 1]));
                assert(first.contains(t));
                assert(second.to_set().contains(t));
                let j = choose|j: int| 0 <= j < second.len() && second[j] == t;
                assert(other[j - 1] == t);
            }
            if other.contains(t) {
                let i = choose|i: int| 0 <= i < other.len() && other[i] == t;
                assert(second[i + 1] == t);
                assert(precedes(second[0], second[i + 1]));
                assert(second.contains(t));
                assert(first.to_set().contains(t));
                let j = choose|j: int| 0 <= j < first.len() && first[j] == t;
                assert(rest[j - 1] == t);
            }
        }
        assert(rest.to_set() =~= other.to_set());
        lemma_increasing_unique(rest, other);
        assert(first =~= seq![first[0]] + rest);
        assert(second =~= seq![second[0]] + other);
    }
}

} // verus!
