//! Text as the explorer reads and writes it: decimal numerals, substring
//! search, lowercasing, and the conversion of character sequences to strings.

use vstd::prelude::*;

verus! {

/// The numeral character of the digit `d` (`0 <= d < 10`).
pub open spec fn digit_char(d: int) -> char
    recommends
        0 <= d < 10,
{
    (48 + d) as char
}

/// The decimal numeral of `n`, without leading zeros.
pub open spec fn decimal(n: nat) -> Seq<char>
    decreases n,
{
    if n < 10 {
        seq![digit_char(n as int)]
    } else {
        decimal(n / 10).push(digit_char((n % 10) as int))
    }
}

/// The number a string of decimal digits spells, most significant first.
pub open spec fn numeral_value(s: Seq<char>) -> int
    decreases s.len(),
{
    if s.len() == 0 {
        0
    } else {
        numeral_value(s.drop_last()) * 10 + ((s.last() as int) - 48)
    }
}

/// The characters `0` to `9`.
pub open spec fn is_digit(c: char) -> bool {
    48 <= (c as int) <= 57
}

/// A decimal numeral is made of digits, has no leading zero, and spells
/// the number it was made from.
pub proof fn law_decimal_reads_back(n: nat)
    ensures
        decimal(n).len() >= 1,
        forall|i: int| 0 <= i < decimal(n).len() ==> is_digit(#[trigger] decimal(n)[i]),
        n > 0 ==> decimal(n)[0] != '0',
        numeral_value(decimal(n)) == n,
    decreases n,
{
    if n < 10 {
        let s = decimal(n);
        assert(s.drop_last() =~= Seq::<char>::empty());
        assert(numeral_value(s.drop_last()) == 0);
        assert(((48 + n) as char) as int == 48 + n);
        assert(s.last() as int == 48 + n);
    } else {
        law_decimal_reads_back(n / 10);
        let s = decimal(n);
        let d = (n % 10) as int;
        assert(((48 + d) as char) as int == 48 + d);
        assert(s.drop_last() =~= decimal(n / 10));
        assert(s.last() as int == 48 + d);
        assert(numeral_value(s) == numeral_value(decimal(n / 10)) * 10 + d);
        assert(s[0] == decimal(n / 10)[0]);
        assert forall|i: int| 0 <= i < s.len() implies is_digit(#[trigger] s[i]) by {
            if i < s.len() - 1 {
                assert(s[i] == decimal(n / 10)[i]);
            }
        }
    }
}

/// `needle` occurs in `hay` at position `at`.
pub open spec fn occurs_at(hay: Seq<char>, needle: Seq<char>, at: int) -> bool {
    &&& 0 <= at
    &&& at + needle.len() <= hay.len()
    &&& hay.subrange(at, at + needle.len()) == needle
}

/// `needle` occurs somewhere in `hay` (the empty text occurs in every text).
pub open spec fn has_substring(hay: Seq<char>, needle: Seq<char>) -> bool {
    exists|at: int| occurs_at(hay, needle, at)
}

/// What `str::to_lowercase` gives for a text, as characters.
pub uninterp spec fn lowercase(s: Seq<char>) -> Seq<char>;

/// Every character of the text is ASCII.
pub open spec fn is_ascii_text(s: Seq<char>) -> bool {
    forall|i: int| 0 <= i < s.len() ==> (#[trigger] s[i] as int) < 128
}

/// The ASCII lowercase of a character: `A` to `Z` become `a` to `z`.
pub open spec fn ascii_lower_char(c: char) -> char {
    if 65 <= (c as int) <= 90 {
        ((c as int) + 32) as char
    } else {
        c
    }
}

/// The ASCII lowercase of a text, character by character.
pub open spec fn ascii_lowercase(s: Seq<char>) -> Seq<char> {
    s.map_values(|c: char| ascii_lower_char(c))
}

/// Lowercasing an ASCII text character by character keeps substrings: a
/// needle that occurs in a text still occurs in it once both are lowercased.
pub proof fn law_ascii_lowercase_keeps_substrings(hay: Seq<char>, needle: Seq<char>)
    requires
        has_substring(hay, needle),
    ensures
        has_substring(ascii_lowercase(hay), ascii_lowercase(needle)),
{
    let at = choose|at: int| occurs_at(hay, needle, at);
    let lh = ascii_lowercase(hay);
    let ln = ascii_lowercase(needle);
    assert(lh.subrange(at, at + ln.len()) =~= ln) by {
        assert forall|i: int| 0 <= i < ln.len() implies lh.subrange(at, at + ln.len())[i] == ln[i] by {
            assert(hay.subrange(at, at + needle.len())[i] == needle[i]);
        }
    }
    assert(occurs_at(lh, ln, at));
}

/// Where a needle stands in a text, the text contains it; and every
/// text contains itself and the empty text.
pub proof fn law_text_contains_itself(hay: Seq<char>)
    ensures
        has_substring(hay, hay),
        has_substring(hay, Seq::<char>::empty()),
        forall|i: int, j: int| 0 <= i <= j <= hay.len() ==> has_substring(hay, #[trigger] hay.subrange(i, j)),
{
    assert(hay.subrange(0, hay.len() as int) =~= hay);
    assert(occurs_at(hay, hay, 0));
    assert(hay.subrange(0, 0) =~= Seq::<char>::empty());
    assert(occurs_at(hay, Seq::<char>::empty(), 0));
    assert forall|i: int, j: int| 0 <= i <= j <= hay.len() implies has_substring(hay, #[trigger] hay.subrange(i, j)) by {
        assert(hay.subrange(i, i + hay.subrange(i, j).len()) =~= hay.subrange(i, j));
        assert(occurs_at(hay, hay.subrange(i, j), i));
    }
}

/// A text contains a needle only where some stretch of it equals the needle.
pub proof fn law_substring_has_a_place(hay: Seq<char>, needle: Seq<char>)
    requires
        has_substring(hay, needle),
    ensures
        needle.len() <= hay.len(),
        exists|i: int| 0 <= i <= hay.len() - needle.len() && #[trigger] hay.subrange(i, i + needle.len()) == needle,
{
    let at = choose|at: int| occurs_at(hay, needle, at);
    assert(hay.subrange(at, at + needle.len()) == needle);
}

/// The needle relation is transitive: a text that occurs in a needle that
/// occurs in a hay occurs in the hay.
pub proof fn law_substring_transitive(hay: Seq<char>, mid: Seq<char>, needle: Seq<char>)
    requires
        has_substring(hay, mid),
        has_substring(mid, needle),
    ensures
        has_substring(hay, needle),
{
    let a = choose|at: int| occurs_at(hay, mid, at);
    let b = choose|at: int| occurs_at(mid, needle, at);
    assert(hay.subrange(a + b, a + b + needle.len()) =~= needle) by {
        assert forall|i: int| 0 <= i < needle.len() implies hay.subrange(a + b, a + b + needle.len())[i]
            == needle[i] by {
            assert(hay.subrange(a, a + mid.len())[b + i] == mid[b + i]);
            assert(mid.subrange(b, b + needle.len())[i] == needle[i]);
        }
    }
    assert(occurs_at(hay, needle, a + b));
}

/// The numeral character of a digit.
pub fn digit(d: u64) -> (c: char)
    requires
        d < 10,
    ensures
        c == digit_char(d as int),
{
    let b: u8 = 48u8 + d as u8;
    b as char
}

/// The decimal numeral of `n`.
pub fn decimal_chars(n: u64) -> (s: Vec<char>)
    ensures
        s@ == decimal(n as nat),
    decreases n,
{
    if n < 10 {
        let mut s: Vec<char> = Vec::new();
        s.push(digit(n));
        s
    } else {
        let mut s = decimal_chars(n / 10);
        s.push(digit(n % 10));
        s
    }
}

/// Whether `needle` occurs in `hay`, as `str::contains` answers it.
pub fn contains_text(hay: &Vec<char>, needle: &Vec<char>) -> (b: bool)
    ensures
        b == has_substring(hay@, needle@),
{
    if needle.len() > hay.len() {
        assert forall|at: int| !occurs_at(hay@, needle@, at) by {}
        return false;
    }
    let last: usize = hay.len() - needle.len();
    assert(hay@.len() == hay.len());
    let mut at: usize = 0;
    loop
        invariant
            last == hay@.len() - needle@.len(),
            needle@.len() <= hay@.len(),
            hay@.len() <= usize::MAX,
            at <= last,
            forall|a: int| 0 <= a < at ==> !occurs_at(hay@, needle@, a),
        ensures
            forall|a: int| 0 <= a <= last ==> !occurs_at(hay@, needle@, a),
        decreases last - at,
    {
        let mut j: usize = 0;
        let mut same = true;
        while j < needle.len()
            invariant
                at <= last,
                last == hay@.len() - needle@.len(),
                needle@.len() <= hay@.len(),
                hay@.len() <= usize::MAX,
                j <= needle@.len(),
                same ==> forall|m: int| 0 <= m < j ==> hay@[at + m] == needle@[m],
                !same ==> !occurs_at(hay@, needle@, at as int),
            decreases needle@.len() - j,
        {
            let idx: usize = at + j;
            if same && hay[idx] != needle[j] {
                same = false;
                assert(hay@.subrange(at as int, at + needle@.len())[j as int] == hay@[idx as int]);
            }
            j += 1;
        }
        if same {
            assert(hay@.subrange(at as int, at + needle@.len()) =~= needle@);
            assert(occurs_at(hay@, needle@, at as int));
            return true;
        }
        if at == last {
            break;
        }
        at += 1;
    }
    assert forall|a: int| !occurs_at(hay@, needle@, a) by {}
    false
}

/// The lowercase form of a text: `str::to_lowercase` applied to the text
/// that the characters spell, read back as characters. The contract names the
/// result; of the Unicode case mapping it states only that an ASCII text is
/// lowercased character by character, `A` to `Z` becoming `a` to `z` and every
/// other character staying, as the documentation's `"HELLO"` example and its
/// pointer from `to_ascii_lowercase` show.
#[verifier::external_body]
pub(crate) fn to_lowercase_chars(s: &Vec<char>) -> (r: Vec<char>)
    ensures
        r@ == lowercase(s@),
        is_ascii_text(s@) ==> r@ == ascii_lowercase(s@),
{
    let text: String = s.iter().collect();
    text.to_lowercase().chars().collect()
}

/// The string that the characters spell, collected by `String`'s
/// `FromIterator<&char>`; the contract claims it holds exactly these
/// characters in this order.
#[verifier::external_body]
pub(crate) fn string_from_chars(s: &Vec<char>) -> (r: String)
    ensures
        r@ == s@,
{
    s.iter().collect()
}

} // verus!
