//! Splitting, trimming and reading of short texts.

use vstd::prelude::*;
use vstd::string::*;

verus! {

/// Whether a character is a given lower-case one, in either case.
pub open spec fn same_letter(c: char, lower: char) -> bool {
    c == lower || ('A' <= c <= 'Z' && c as int + 32 == lower as int)
}

/// Whether a text is a given lower-case word, in whatever case it is written.
pub open spec fn reads(s: Seq<char>, word: Seq<char>) -> bool {
    &&& s.len() == word.len()
    &&& forall|i: int| 0 <= i < s.len() ==> same_letter(#[trigger] s[i], word[i])
}

/// Whether a character is white space.
pub open spec fn is_white(c: char) -> bool {
    let n = c as int;
    ||| 0x9 <= n <= 0xd
    ||| n == 0x20
    ||| n == 0x85
    ||| n == 0xa0
    ||| n == 0x1680
    ||| 0x2000 <= n <= 0x200a
    ||| n == 0x2028
    ||| n == 0x2029
    ||| n == 0x202f
    ||| n == 0x205f
    ||| n == 0x3000
}

/// A text without white space in front.
pub open spec fn trimmed_front(s: Seq<char>) -> Seq<char>
    decreases s.len(),
{
    if s.len() > 0 && is_white(s[0]) {
        trimmed_front(s.skip(1))
    } else {
        s
    }
}

/// A text without white space at the end.
pub open spec fn trimmed_back(s: Seq<char>) -> Seq<char>
    decreases s.len(),
{
    if s.len() > 0 && is_white(s.last()) {
        trimmed_back(s.drop_last())
    } else {
        s
    }
}

/// A text without white space around it.
pub open spec fn trimmed(s: Seq<char>) -> Seq<char> {
    trimmed_back(trimmed_front(s))
}

/// The pieces of a text between separators.
pub open spec fn pieces(s: Seq<char>, separator: char) -> Seq<Seq<char>>
    decreases s.len(),
{
    if s.len() == 0 {
        seq![Seq::empty()]
    } else {
        let rest = pieces(s.drop_last(), separator);
        if s.last() == separator {
            rest.push(Seq::empty())
        } else {
            rest.drop_last().push(rest.last().push(s.last()))
        }
    }
}

/// The pieces that are not blank, without white space around them.
pub open spec fn not_blank(list: Seq<Seq<char>>) -> Seq<Seq<char>>
    decreases list.len(),
{
    if list.len() == 0 {
        Seq::empty()
    } else {
        let rest = not_blank(list.drop_last());
        let word = trimmed(list.last());
        if word.len() == 0 {
            rest
        } else {
            rest.push(word)
        }
    }
}

/// The words of a list that is separated by commas.
pub open spec fn words(s: Seq<char>) -> Seq<Seq<char>> {
    not_blank(pieces(s, ','))
}

/// The texts of a list.
pub open spec fn texts(list: Seq<&str>) -> Seq<Seq<char>> {
    Seq::new(list.len(), |i: int| list[i]@)
}

/// Tells whether a text is a given lower-case word.
pub fn reads_as(s: &str, word: &str) -> (yes: bool)
    ensures
        yes == reads(s@, word@),
{
    let n: usize = s.unicode_len();
    if n != word.unicode_len() {
        return false;
    }
    let mut i: usize = 0;
    while i < n
        invariant
            i <= n,
            n == s@.len(),
            n == word@.len(),
            forall|k: int| 0 <= k < i ==> same_letter(#[trigger] s@[k], word@[k]),
        decreases n - i,
    {
        let c: char = s.get_char(i);
        let w: char = word.get_char(i);
        if c != w && !('A' <= c && c <= 'Z' && c as u32 + 32 == w as u32) {
            assert(!same_letter(s@[i as int], word@[i as int]));
            return false;
        }
        i = i + 1;
    }
    true
}

/// Tells white space.
pub fn is_blank(c: char) -> (yes: bool)
    ensures
        yes == is_white(c),
{
    let n: u32 = c as u32;
    (0x9 <= n && n <= 0xd) || n == 0x20 || n == 0x85 || n == 0xa0 || n == 0x1680 || (0x2000 <= n
        && n <= 0x200a) || n == 0x2028 || n == 0x2029 || n == 0x202f || n == 0x205f || n == 0x3000
}

/// Removes white space around a text.
pub fn trim<'a>(s: &'a str) -> (t: &'a str)
    ensures
        t@ == trimmed(s@),
{
    let n: usize = s.unicode_len();
    let mut start: usize = 0;
    proof {
        assert(s@.skip(0) =~= s@);
    }
    while start < n && is_blank(s.get_char(start))
        invariant
            start <= n,
            n == s@.len(),
            trimmed_front(s@) == trimmed_front(s@.skip(start as int)),
        decreases n - start,
    {
        proof {
            assert(s@.skip(start as int)[0] == s@[start as int]);
            assert(s@.skip(start as int).skip(1) =~= s@.skip(start as int + 1));
        }
        start = start + 1;
    }
    let ghost front = s@.skip(start as int);
    proof {
        if start < n {
            assert(front[0] == s@[start as int]);
        }
        assert(trimmed_front(s@) == front);
        assert(front =~= s@.subrange(start as int, n as int));
    }
    let mut end: usize = n;
    while end > start && is_blank(s.get_char(end - 1))
        invariant
            start <= end <= n,
            n == s@.len(),
            trimmed_back(front) == trimmed_back(s@.subrange(start as int, end as int)),
        decreases end,
    {
        proof {
            let here = s@.subrange(start as int, end as int);
            assert(here.last() == s@[end as int - 1]);
            assert(here.drop_last() =~= s@.subrange(start as int, end as int - 1));
        }
        end = end - 1;
    }
    proof {
        let here = s@.subrange(start as int, end as int);
        if end > start {
            assert(here.last() == s@[end as int - 1]);
        }
    }
    s.substring_char(start, end)
}

/// Splits a text at separators.
pub fn split<'a>(s: &'a str, separator: char) -> (list: Vec<&'a str>)
    ensures
        texts(list@) == pieces(s@, separator),
{
    let n: usize = s.unicode_len();
    let mut list: Vec<&'a str> = Vec::new();
    let mut start: usize = 0;
    let mut i: usize = 0;
    proof {
        assert(s@.take(0) =~= Seq::empty());
        assert(s@.subrange(0, 0) =~= Seq::empty());
        assert(pieces(s@.take(0), separator) =~= texts(list@).push(s@.subrange(0, 0)));
    }
    while i < n
        invariant
            start <= i <= n,
            n == s@.len(),
            pieces(s@.take(i as int), separator) == texts(list@).push(
                s@.subrange(start as int, i as int),
            ),
        decreases n - i,
    {
        let c: char = s.get_char(i);
        let ghost before = texts(list@);
        let ghost here = s@.subrange(start as int, i as int);
        proof {
            assert(s@.take(i as int + 1).drop_last() =~= s@.take(i as int));
            assert(s@.take(i as int + 1).last() == c);
            assert(before.push(here).drop_last() =~= before);
        }
        if c == separator {
            list.push(s.substring_char(start, i));
            start = i + 1;
            proof {
                assert(texts(list@) =~= before.push(here));
                assert(s@.subrange(start as int, i as int + 1) =~= Seq::empty());
            }
        } else {
            proof {
                assert(s@.subrange(start as int, i as int + 1) =~= here.push(c));
            }
        }
        i = i + 1;
    }
    let ghost before = texts(list@);
    list.push(s.substring_char(start, n));
    proof {
        assert(s@.take(n as int) =~= s@);
        assert(texts(list@) =~= before.push(s@.subrange(start as int, n as int)));
    }
    list
}

/// Reads a list of words that is separated by commas.
pub fn split_words<'a>(s: &'a str) -> (list: Vec<&'a str>)
    ensures
        texts(list@) == words(s@),
{
    let parts: Vec<&'a str> = split(s, ',');
    let ghost all = texts(parts@);
    let mut list: Vec<&'a str> = Vec::new();
    let mut i: usize = 0;
    proof {
        assert(texts(list@) =~= Seq::empty());
        assert(all.take(0) =~= Seq::empty());
    }
    while i < parts.len()
        invariant
            i <= parts@.len(),
            all == texts(parts@),
            texts(list@) == not_blank(all.take(i as int)),
        decreases parts@.len() - i,
    {
        let word: &'a str = trim(parts[i]);
        let ghost before = texts(list@);
        proof {
            assert(all.take(i as int + 1).drop_last() =~= all.take(i as int));
            assert(all.take(i as int + 1).last() == parts@[i as int]@);
        }
        if word.unicode_len() > 0 {
            list.push(word);
            proof {
                assert(texts(list@) =~= before.push(word@));
            }
        }
        i = i + 1;
    }
    proof {
        assert(all.take(i as int) =~= all);
    }
    list
}

/// Tells whether two texts are the same.
pub fn same_text(a: &str, b: &str) -> (yes: bool)
    ensures
        yes == (a@ == b@),
{
    let n: usize = a.unicode_len();
    if n != b.unicode_len() {
        return false;
    }
    let mut i: usize = 0;
    while i < n
        invariant
            i <= n,
            n == a@.len(),
            n == b@.len(),
            forall|k: int| 0 <= k < i ==> a@[k] == b@[k],
        decreases n - i,
    {
        if a.get_char(i) != b.get_char(i) {
            assert(a@[i as int] != b@[i as int]);
            return false;
        }
        i = i + 1;
    }
    proof {
        assert(a@ =~= b@);
    }
    true
}

/// Whether a text has another one in it.
pub open spec fn has_within(s: Seq<char>, part: Seq<char>) -> bool {
    exists|i: int|
        0 <= i <= s.len() - part.len() && #[trigger] s.subrange(i, i + part.len()) == part
}

/// Tells whether a text has another one in it.
pub fn contains(s: &str, part: &str) -> (yes: bool)
    ensures
        yes == has_within(s@, part@),
{
    let n: usize = s.unicode_len();
    let m: usize = part.unicode_len();
    if n < m {
        return false;
    }
    let mut i: usize = 0;
    while i <= n - m
        invariant
            n == s@.len(),
            m == part@.len(),
            m <= n,
            i <= n - m + 1,
            forall|k: int| 0 <= k < i ==> #[trigger] s@.subrange(k, k + m) != part@,
        decreases n - m + 1 - i,
    {
        if same_text(s.substring_char(i, i + m), part) {
            assert(s@.subrange(i as int, i + part@.len()) == part@);
            return true;
        }
        if i == n - m {
            proof {
                assert forall|k: int| 0 <= k <= n - m implies #[trigger] s@.subrange(
                    k,
                    k + part@.len(),
                ) != part@ by {
                    if k != i {
                        assert(s@.subrange(k, k + m) != part@);
                    }
                }
            }
            return false;
        }
        i = i + 1;
    }
    false
}

/// Why a text is no number.
#[derive(Debug, Clone, Copy, PartialEq, Eq, Structural)]
pub enum NumberError {
    /// There is nothing to read.
    Empty,
    /// A character is not a decimal digit.
    InvalidDigit,
    /// The number exceeds its largest value.
    TooLarge,
}

impl NumberError {
    /// The error in words.
    pub open spec fn text(self) -> Seq<char> {
        match self {
            NumberError::Empty => "cannot parse integer from empty string"@,
            NumberError::InvalidDigit => "invalid digit found in string"@,
            NumberError::TooLarge => "number too large to fit in target type"@,
        }
    }

    /// Describes the error.
    pub fn describe(self) -> (text: &'static str)
        ensures
            text@ == self.text(),
    {
        match self {
            NumberError::Empty => "cannot parse integer from empty string",
            NumberError::InvalidDigit => "invalid digit found in string",
            NumberError::TooLarge => "number too large to fit in target type",
        }
    }
}

/// The number that decimal digits stand for, as far as it does not exceed the
/// largest value.
pub open spec fn digits_value(s: Seq<char>, max: u64) -> Result<u64, NumberError>
    decreases s.len(),
{
    if s.len() == 0 {
        Ok(0)
    } else {
        match digits_value(s.drop_last(), max) {
            Err(e) => Err(e),
            Ok(n) => {
                let c = s.last();
                if '0' <= c <= '9' {
                    let value = n * 10 + (c as int - 48);
                    if value > max {
                        Err(NumberError::TooLarge)
                    } else {
                        Ok(value as u64)
                    }
                } else {
                    Err(NumberError::InvalidDigit)
                }
            },
        }
    }
}

/// The number that a text stands for: decimal digits, with an optional plus
/// sign.
pub open spec fn number_value(s: Seq<char>, max: u64) -> Result<u64, NumberError> {
    if s.len() == 0 {
        Err(NumberError::Empty)
    } else if s[0] == '+' {
        if s.len() == 1 {
            Err(NumberError::InvalidDigit)
        } else {
            digits_value(s.skip(1), max)
        }
    } else {
        digits_value(s, max)
    }
}

/// A number that cannot be read does not become one by more digits.
proof fn lemma_digits_fail(s: Seq<char>, max: u64, n: int)
    requires
        0 <= n <= s.len(),
        digits_value(s.take(n), max) is Err,
    ensures
        digits_value(s, max) == digits_value(s.take(n), max),
    decreases s.len() - n,
{
    if n == s.len() {
        assert(s.take(n) =~= s);
    } else {
        assert(s.take(n + 1).drop_last() =~= s.take(n));
        lemma_digits_fail(s, max, n + 1);
    }
}

/// A number that was read does not exceed the largest value.
pub proof fn lemma_number_bound(s: Seq<char>, max: u64)
    ensures
        digits_value(s, max) matches Ok(n) ==> n <= max,
        number_value(s, max) matches Ok(n) ==> n <= max,
{
}

/// Reads a number.
pub fn read_number(s: &str, max: u64) -> (number: Result<u64, NumberError>)
    ensures
        number == number_value(s@, max),
{
    let n: usize = s.unicode_len();
    if n == 0 {
        return Err(NumberError::Empty);
    }
    let start: usize = if s.get_char(0) == '+' {
        1
    } else {
        0
    };
    if start == 1 && n == 1 {
        return Err(NumberError::InvalidDigit);
    }
    let ghost digits = s@.skip(start as int);
    proof {
        assert(s@.skip(0) =~= s@);
    }
    let mut value: u64 = 0;
    let mut i: usize = start;
    proof {
        assert(digits.take(0) =~= Seq::empty());
    }
    while i < n
        invariant
            start <= i <= n,
            n == s@.len(),
            digits == s@.skip(start as int),
            value <= max,
            digits_value(digits.take(i - start), max) == Ok::<u64, NumberError>(value),
            number_value(s@, max) == digits_value(digits, max),
        decreases n - i,
    {
        let c: char = s.get_char(i);
        proof {
            assert(digits.take(i - start + 1).drop_last() =~= digits.take(i - start));
            assert(digits.take(i - start + 1).last() == c);
        }
        if !('0' <= c && c <= '9') {
            proof {
                lemma_digits_fail(digits, max, i - start + 1);
            }
            return Err(NumberError::InvalidDigit);
        }
        let next: u128 = value as u128 * 10 + (c as u32 - 48) as u128;
        if next > max as u128 {
            proof {
                lemma_digits_fail(digits, max, i - start + 1);
            }
            return Err(NumberError::TooLarge);
        }
        value = next as u64;
        i = i + 1;
    }
    proof {
        assert(digits.take(n - start) =~= digits);
    }
    Ok(value)
}

/// The values that words stand for, or the place of the first one that stands
/// for none.
pub open spec fn values<K>(list: Seq<Seq<char>>, named: spec_fn(Seq<char>) -> Option<K>) -> Result<
    Seq<K>,
    int,
>
    decreases list.len(),
{
    if list.len() == 0 {
        Ok(Seq::empty())
    } else {
        match values(list.drop_last(), named) {
            Err(i) => Err(i),
            Ok(known) => match named(list.last()) {
                Some(k) => Ok(known.push(k)),
                None => Err(list.len() - 1),
            },
        }
    }
}

/// A list with an unknown word stays one with more words.
pub proof fn lemma_values_fail<K>(
    list: Seq<Seq<char>>,
    named: spec_fn(Seq<char>) -> Option<K>,
    n: int,
)
    requires
        0 <= n <= list.len(),
        values(list.take(n), named) is Err,
    ensures
        values(list, named) == values(list.take(n), named),
    decreases list.len() - n,
{
    if n == list.len() {
        assert(list.take(n) =~= list);
    } else {
        assert(list.take(n + 1).drop_last() =~= list.take(n));
        lemma_values_fail(list, named, n + 1);
    }
}

/// What a list of words stands for, one for one, exactly when every word
/// stands for something.
pub proof fn law_values<K>(list: Seq<Seq<char>>, named: spec_fn(Seq<char>) -> Option<K>)
    ensures
        match values(list, named) {
            Ok(known) => known.len() == list.len() && (forall|i: int|
                0 <= i < list.len() ==> named(#[trigger] list[i]) == Some(known[i])),
            Err(i) => 0 <= i < list.len() && named(list[i]) is None && (forall|k: int|
                0 <= k < i ==> named(#[trigger] list[k]) is Some),
        },
    decreases list.len(),
{
    if list.len() > 0 {
        let rest = list.drop_last();
        law_values(rest, named);
        assert forall|i: int| 0 <= i < rest.len() implies rest[i] == #[trigger] list[i] by {}
        match values(rest, named) {
            Err(i) => {
                assert(rest[i] == list[i]);
                assert forall|k: int| 0 <= k < i implies named(#[trigger] list[k]) is Some by {
                    assert(rest[k] == list[k]);
                }
            },
            Ok(known) => {
                assert forall|i: int| 0 <= i < rest.len() implies named(#[trigger] list[i])
                    == Some(known[i]) by {
                    assert(rest[i] == list[i]);
                }
            },
        }
    }
}

/// A decimal rendering reads back as the number.
pub proof fn law_decimal_reads_back(n: nat, max: u64)
    requires
        n <= max,
    ensures
        digits_value(crate::text::decimal(n), max) == Ok::<u64, NumberError>(n as u64),
        number_value(crate::text::decimal(n), max) == Ok::<u64, NumberError>(n as u64),
    decreases n,
{
    let s = crate::text::decimal(n);
    let d = crate::text::digit(n % 10);
    assert('0' <= d <= '9' && d as int - 48 == n % 10);
    assert(s.last() == d);
    if n >= 10 {
        law_decimal_reads_back(n / 10, max);
        assert(n == (n / 10) * 10 + n % 10);
        assert(s.drop_last() =~= crate::text::decimal(n / 10));
        lemma_decimal_starts(n / 10);
        assert(s[0] == crate::text::decimal(n / 10)[0]);
    } else {
        assert(s.drop_last() =~= Seq::empty());
        assert(digits_value(s.drop_last(), max) == Ok::<u64, NumberError>(0));
    }
    assert(digits_value(s, max) == Ok::<u64, NumberError>(n as u64));
    lemma_decimal_starts(n);
}

/// A decimal rendering starts with a digit.
proof fn lemma_decimal_starts(n: nat)
    ensures
        crate::text::decimal(n).len() > 0,
        '0' <= crate::text::decimal(n)[0] <= '9',
    decreases n,
{
    if n >= 10 {
        lemma_decimal_starts(n / 10);
    }
}

/// A decimal rendering consists of digits at both ends.
pub proof fn lemma_decimal_ends(n: nat)
    ensures
        crate::text::decimal(n).len() > 0,
        '0' <= crate::text::decimal(n)[0] <= '9',
        '0' <= crate::text::decimal(n).last() <= '9',
    decreases n,
{
    lemma_decimal_starts(n);
}

} // verus!
