//! Reading and writing decimal numbers, and finding characters in text.
//!
//! Numbers are read the way Rust's integer parsing reads them: an optional
//! sign, then at least one ASCII digit and nothing else, and the value must
//! fit the type.

use vstd::prelude::*;
use vstd::string::StringExecFns;

verus! {

/// Whether `c` is one of the ASCII digits `0` to `9`.
pub open spec fn is_digit(c: char) -> bool {
    '0' <= c && c <= '9'
}

/// The value of an ASCII digit.
pub open spec fn digit_value(c: char) -> int {
    c as int - '0' as int
}

/// Whether `s` holds ASCII digits only.
pub open spec fn all_digits(s: Seq<char>) -> bool {
    forall|i: int| 0 <= i < s.len() ==> is_digit(#[trigger] s[i])
}

/// The number that a string of digits denotes in base ten.
pub open spec fn digits_value(s: Seq<char>) -> int
    decreases s.len(),
{
    if s.len() == 0 {
        0
    } else {
        digits_value(s.drop_last()) * 10 + digit_value(s.last())
    }
}

/// The number that `s` denotes when read as an unsigned decimal no larger
/// than `max`: an optional `+`, then one or more digits.
pub open spec fn unsigned_value(s: Seq<char>, max: int) -> Option<int> {
    let digits = if s.len() > 0 && s[0] == '+' {
        s.drop_first()
    } else {
        s
    };
    if digits.len() > 0 && all_digits(digits) && digits_value(digits) <= max {
        Some(digits_value(digits))
    } else {
        None
    }
}

/// The number that `s` denotes when read as a signed decimal between `min`
/// and `max`: an optional `+` or `-`, then one or more digits.
pub open spec fn signed_value(s: Seq<char>, min: int, max: int) -> Option<int> {
    let negative = s.len() > 0 && s[0] == '-';
    let digits = if s.len() > 0 && (s[0] == '+' || s[0] == '-') {
        s.drop_first()
    } else {
        s
    };
    let value = if negative {
        -digits_value(digits)
    } else {
        digits_value(digits)
    };
    if digits.len() > 0 && all_digits(digits) && min <= value <= max {
        Some(value)
    } else {
        None
    }
}

/// What `s` denotes as a `u16`, if anything.
pub open spec fn u16_value(s: Seq<char>) -> Option<u16> {
    match unsigned_value(s, 65535) {
        Some(v) => Some(v as u16),
        None => None,
    }
}

/// What `s` denotes as an `i32`, if anything.
pub open spec fn i32_value(s: Seq<char>) -> Option<i32> {
    match signed_value(s, -2147483648, 2147483647) {
        Some(v) => Some(v as i32),
        None => None,
    }
}

/// The decimal digit for a value below ten.
pub open spec fn digit_char(d: int) -> char {
    (d + '0' as int) as char
}

/// The decimal digits of `n`, without leading zeros.
pub open spec fn decimal_digits(n: nat) -> Seq<char>
    decreases n,
{
    if n < 10 {
        seq![digit_char(n as int)]
    } else {
        decimal_digits(n / 10).push(digit_char((n % 10) as int))
    }
}

/// The position of the first `c` in `s`, or the length of `s` if there is none.
pub open spec fn first_index_of(s: Seq<char>, c: char) -> int
    decreases s.len(),
{
    if s.len() == 0 {
        0
    } else if s[0] == c {
        0
    } else {
        1 + first_index_of(s.drop_first(), c)
    }
}

/// The position just after the last `c` in `s`, or 0 if there is none.
pub open spec fn after_last_index_of(s: Seq<char>, c: char) -> int
    decreases s.len(),
{
    if s.len() == 0 {
        0
    } else if s.last() == c {
        s.len() as int
    } else {
        after_last_index_of(s.drop_last(), c)
    }
}

/// `first_index_of` is the least position that holds `c`.
pub proof fn lemma_first_index_of(s: Seq<char>, c: char)
    ensures
        0 <= first_index_of(s, c) <= s.len(),
        forall|i: int| 0 <= i < first_index_of(s, c) ==> s[i] != c,
        first_index_of(s, c) < s.len() ==> s[first_index_of(s, c)] == c,
    decreases s.len(),
{
    if s.len() > 0 && s[0] != c {
        let rest = s.drop_first();
        lemma_first_index_of(rest, c);
        assert forall|i: int| 0 <= i < first_index_of(s, c) implies s[i] != c by {
            if i > 0 {
                assert(s[i] == rest[i - 1]);
            }
        }
    }
}

/// A position that holds `c` and has no `c` before it is `first_index_of`;
/// so is the length when `c` does not occur.
pub proof fn lemma_first_index_is(s: Seq<char>, c: char, k: int)
    requires
        0 <= k <= s.len(),
        forall|i: int| 0 <= i < k ==> s[i] != c,
        k < s.len() ==> s[k] == c,
    ensures
        first_index_of(s, c) == k,
{
    lemma_first_index_of(s, c);
    let f = first_index_of(s, c);
    if f < k {
        assert(s[f] != c);
    } else if k < f {
        assert(s[k] != c);
    }
}

/// `after_last_index_of` is just past the greatest position that holds `c`.
pub proof fn lemma_after_last_index_of(s: Seq<char>, c: char)
    ensures
        0 <= after_last_index_of(s, c) <= s.len(),
        forall|i: int| after_last_index_of(s, c) <= i < s.len() ==> s[i] != c,
        after_last_index_of(s, c) > 0 ==> s[after_last_index_of(s, c) - 1] == c,
    decreases s.len(),
{
    if s.len() > 0 && s.last() != c {
        let rest = s.drop_last();
        lemma_after_last_index_of(rest, c);
        assert forall|i: int| after_last_index_of(s, c) <= i < s.len() implies s[i] != c by {
            if i < rest.len() {
                assert(s[i] == rest[i]);
            }
        }
    }
}

/// A position whose predecessor holds `c`, with no `c` from it on, is
/// `after_last_index_of`; so is 0 when `c` does not occur.
pub proof fn lemma_after_last_index_is(s: Seq<char>, c: char, k: int)
    requires
        0 <= k <= s.len(),
        forall|i: int| k <= i < s.len() ==> s[i] != c,
        k > 0 ==> s[k - 1] == c,
    ensures
        after_last_index_of(s, c) == k,
{
    lemma_after_last_index_of(s, c);
    let f = after_last_index_of(s, c);
    if f < k {
        assert(s[k - 1] != c);
    } else if k < f {
        assert(s[f - 1] != c);
    }
}

/// Appending a digit multiplies the value by ten and adds the digit.
pub proof fn lemma_digits_value_push(s: Seq<char>, c: char)
    ensures
        digits_value(s.push(c)) == digits_value(s) * 10 + digit_value(c),
{
    assert(s.push(c).drop_last() =~= s);
}

/// The value of a digit string is never negative.
pub proof fn lemma_digits_value_nonnegative(s: Seq<char>)
    requires
        all_digits(s),
    ensures
        digits_value(s) >= 0,
    decreases s.len(),
{
    if s.len() > 0 {
        lemma_digits_value_nonnegative(s.drop_last());
    }
}

/// A digit string denotes at least what any of its prefixes denotes.
pub proof fn lemma_digits_value_grows(s: Seq<char>, k: int)
    requires
        all_digits(s),
        0 <= k <= s.len(),
    ensures
        digits_value(s.take(k)) <= digits_value(s),
    decreases s.len() - k,
{
    if k == s.len() {
        assert(s.take(k) =~= s);
    } else {
        lemma_digits_value_grows(s, k + 1);
        assert(s.take(k + 1).drop_last() =~= s.take(k));
        assert(all_digits(s.take(k))) by {
            assert forall|i: int| 0 <= i < s.take(k).len() implies is_digit(
                #[trigger] s.take(k)[i],
            ) by {
                assert(s.take(k)[i] == s[i]);
            }
        }
        lemma_digits_value_nonnegative(s.take(k));
        assert(is_digit(s[k]));
        assert(s.take(k + 1).last() == s[k]);
    }
}

/// The characters of a string, one vector element each.
pub fn chars_of(s: &str) -> (v: Vec<char>)
    ensures
        v@ == s@,
{
    let mut v: Vec<char> = Vec::new();
    for c in it: s.chars()
        invariant
            v@ == it.seq().take(it.index() as int),
            it.seq() == s@,
    {
        v.push(c);
    }
    v
}

/// Reads the digit string `chars[from..to]`, giving up once the value
/// exceeds `max`.
fn read_digits(chars: &Vec<char>, from: usize, to: usize, max: u32) -> (r: Option<u32>)
    requires
        from <= to <= chars@.len(),
    ensures
        r is Some <==> (all_digits(chars@.subrange(from as int, to as int)) && digits_value(
            chars@.subrange(from as int, to as int),
        ) <= max),
        r is Some ==> r->Some_0 == digits_value(chars@.subrange(from as int, to as int)),
{
    let ghost whole = chars@.subrange(from as int, to as int);
    let mut acc: u32 = 0;
    let mut i: usize = from;
    while i < to
        invariant
            from <= i <= to <= chars@.len(),
            whole == chars@.subrange(from as int, to as int),
            all_digits(whole.take(i - from)),
            acc == digits_value(whole.take(i - from)),
            acc <= max,
        decreases to - i,
    {
        let c = chars[i];
        let ghost k = (i - from) as int;
        proof {
            assert(whole[k] == c);
            assert(whole.take(k + 1) =~= whole.take(k).push(c));
            lemma_digits_value_push(whole.take(k), c);
        }
        if !('0' <= c && c <= '9') {
            proof {
                assert(!is_digit(whole[k]));
            }
            return None;
        }
        let d: u32 = (c as u32) - ('0' as u32);
        let next: u64 = (acc as u64) * 10 + (d as u64);
        if next > max as u64 {
            proof {
                if all_digits(whole) {
                    lemma_digits_value_grows(whole, k + 1);
                }
            }
            return None;
        }
        acc = next as u32;
        proof {
            assert forall|j: int| 0 <= j < whole.take(k + 1).len() implies is_digit(
                #[trigger] whole.take(k + 1)[j],
            ) by {
                if j < k {
                    assert(whole.take(k + 1)[j] == whole.take(k)[j]);
                }
            }
        }
        i += 1;
    }
    proof {
        assert(whole.take(to - from) =~= whole);
    }
    Some(acc)
}

/// Reads `chars[from..to]` as a `u16`.
pub fn parse_u16_in(chars: &Vec<char>, from: usize, to: usize) -> (r: Option<u16>)
    requires
        from <= to <= chars@.len(),
    ensures
        r == u16_value(chars@.subrange(from as int, to as int)),
{
    let ghost s = chars@.subrange(from as int, to as int);
    let start = if from < to && chars[from] == '+' {
        from + 1
    } else {
        from
    };
    proof {
        if start > from {
            assert(s[0] == '+');
            assert(s.drop_first() =~= chars@.subrange(start as int, to as int));
        } else {
            assert(from < to ==> s[0] == chars@[from as int]);
        }
    }
    if start == to {
        return None;
    }
    match read_digits(chars, start, to, 65535) {
        Some(v) => Some(v as u16),
        None => None,
    }
}

/// Reads `chars[from..to]` as an `i32`.
pub fn parse_i32_in(chars: &Vec<char>, from: usize, to: usize) -> (r: Option<i32>)
    requires
        from <= to <= chars@.len(),
    ensures
        r == i32_value(chars@.subrange(from as int, to as int)),
{
    let ghost s = chars@.subrange(from as int, to as int);
    let negative = from < to && chars[from] == '-';
    let start = if from < to && (chars[from] == '+' || chars[from] == '-') {
        from + 1
    } else {
        from
    };
    proof {
        if start > from {
            assert(s[0] == chars@[from as int]);
            assert(s.drop_first() =~= chars@.subrange(start as int, to as int));
        } else {
            assert(from < to ==> s[0] == chars@[from as int]);
        }
    }
    if start == to {
        return None;
    }
    let ghost digits = chars@.subrange(start as int, to as int);
    if negative {
        match read_digits(chars, start, to, 2147483648) {
            Some(v) => {
                proof {
                    lemma_digits_value_nonnegative(digits);
                }
                if v == 2147483648 {
                    Some(i32::MIN)
                } else {
                    Some(-(v as i32))
                }
            },
            None => {
                proof {
                    if all_digits(digits) {
                        lemma_digits_value_nonnegative(digits);
                    }
                }
                None
            },
        }
    } else {
        match read_digits(chars, start, to, 2147483647) {
            Some(v) => Some(v as i32),
            None => {
                proof {
                    if all_digits(digits) {
                        lemma_digits_value_nonnegative(digits);
                    }
                }
                None
            },
        }
    }
}

/// Reads a whole string as a `u16`.
pub fn parse_u16(s: &str) -> (r: Option<u16>)
    ensures
        r == u16_value(s@),
{
    let chars = chars_of(s);
    proof {
        assert(chars@.subrange(0, chars@.len() as int) =~= s@);
    }
    parse_u16_in(&chars, 0, chars.len())
}

/// The first position at or after `from` and before `to` that holds `c`, or
/// `to` if there is none.
pub fn find_char(chars: &Vec<char>, from: usize, to: usize, c: char) -> (k: usize)
    requires
        from <= to <= chars@.len(),
    ensures
        from <= k <= to,
        k - from == first_index_of(chars@.subrange(from as int, to as int), c),
{
    let ghost s = chars@.subrange(from as int, to as int);
    let mut k: usize = from;
    while k < to && chars[k] != c
        invariant
            from <= k <= to <= chars@.len(),
            s == chars@.subrange(from as int, to as int),
            forall|i: int| 0 <= i < k - from ==> s[i] != c,
        decreases to - k,
    {
        k += 1;
    }
    proof {
        lemma_first_index_is(s, c, k - from);
    }
    k
}

/// The position just after the last `c` in `chars[from..to]`, or `from` if
/// there is none.
pub fn find_after_last_char(chars: &Vec<char>, from: usize, to: usize, c: char) -> (k: usize)
    requires
        from <= to <= chars@.len(),
    ensures
        from <= k <= to,
        k - from == after_last_index_of(chars@.subrange(from as int, to as int), c),
{
    let ghost s = chars@.subrange(from as int, to as int);
    let mut k: usize = to;
    while k > from && chars[k - 1] != c
        invariant
            from <= k <= to <= chars@.len(),
            s == chars@.subrange(from as int, to as int),
            forall|i: int| k - from <= i < s.len() ==> s[i] != c,
        decreases k,
    {
        k -= 1;
    }
    proof {
        lemma_after_last_index_is(s, c, k - from);
    }
    k
}

/// The decimal digits of a number are digits, and denote that number.
pub proof fn lemma_decimal_digits_value(n: nat)
    ensures
        decimal_digits(n).len() > 0,
        all_digits(decimal_digits(n)),
        digits_value(decimal_digits(n)) == n,
    decreases n,
{
    if n < 10 {
        let s = decimal_digits(n);
        assert(s.drop_last() =~= Seq::<char>::empty());
        assert(digits_value(s.drop_last()) == 0);
    } else {
        lemma_decimal_digits_value(n / 10);
        let head = decimal_digits(n / 10);
        let c = digit_char((n % 10) as int);
        lemma_digits_value_push(head, c);
        assert forall|i: int| 0 <= i < head.push(c).len() implies is_digit(
            #[trigger] head.push(c)[i],
        ) by {
            if i < head.len() {
                assert(head.push(c)[i] == head[i]);
            }
        }
    }
}

/// Reading back the decimal digits of a number gives the number.
pub proof fn lemma_read_back_u16(n: u16)
    ensures
        u16_value(decimal_digits(n as nat)) == Some(n),
{
    lemma_decimal_digits_value(n as nat);
    assert(is_digit(decimal_digits(n as nat)[0]));
}

/// The text of one decimal digit.
fn digit_text(d: u16) -> (t: &'static str)
    requires
        d < 10,
    ensures
        t@ == seq![digit_char(d as int)],
{
    proof {
        reveal_strlit("0");
        reveal_strlit("1");
        reveal_strlit("2");
        reveal_strlit("3");
        reveal_strlit("4");
        reveal_strlit("5");
        reveal_strlit("6");
        reveal_strlit("7");
        reveal_strlit("8");
        reveal_strlit("9");
    }
    let t = if d == 0 {
        "0"
    } else if d == 1 {
        "1"
    } else if d == 2 {
        "2"
    } else if d == 3 {
        "3"
    } else if d == 4 {
        "4"
    } else if d == 5 {
        "5"
    } else if d == 6 {
        "6"
    } else if d == 7 {
        "7"
    } else if d == 8 {
        "8"
    } else {
        "9"
    };
    assert(t@ =~= seq![digit_char(d as int)]);
    t
}

/// Writes a number in decimal, without leading zeros.
pub fn u32_to_string(n: u32) -> (s: String)
    ensures
        s@ == decimal_digits(n as nat),
    decreases n,
{
    if n < 10 {
        String::from_str(digit_text(n as u16))
    } else {
        let mut s = u32_to_string(n / 10);
        s.append(digit_text((n % 10) as u16));
        s
    }
}

/// Writes a number in decimal, without leading zeros.
pub fn u16_to_string(n: u16) -> (s: String)
    ensures
        s@ == decimal_digits(n as nat),
{
    u32_to_string(n as u32)
}

/// The decimal digits of `n`, after a `-` where it is negative.
pub open spec fn signed_digits(n: int) -> Seq<char> {
    if n < 0 {
        seq!['-'] + decimal_digits((-n) as nat)
    } else {
        decimal_digits(n as nat)
    }
}

/// Writes a number in decimal, with a `-` before it where it is negative.
pub fn i32_to_string(n: i32) -> (s: String)
    ensures
        s@ == signed_digits(n as int),
{
    if n < 0 {
        proof {
            reveal_strlit("-");
            assert("-"@ =~= seq!['-']);
        }
        let mut s = String::from_str("-");
        let size: u32 = if n == i32::MIN {
            2147483648
        } else {
            (-n) as u32
        };
        let digits = u32_to_string(size);
        s.append(digits.as_str());
        s
    } else {
        u32_to_string(n as u32)
    }
}

} // verus!
