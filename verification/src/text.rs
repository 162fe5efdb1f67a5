//! Strings as character sequences: building and comparing them, ASCII
//! lower case, substring search, decimal numbers written and read, and the
//! tail of a long message.
use vstd::prelude::*;
use vstd::string::*;

verus! {

/// `String::push` appends one character.
pub assume_specification[ String::push ](s: &mut String, ch: char)
    ensures
        final(s)@ == old(s)@.push(ch),
;

/// The characters of a string, in order.
pub fn chars_of(s: &str) -> (v: Vec<char>)
    ensures
        v@ == s@,
{
    let n: usize = s.unicode_len();
    let mut v: Vec<char> = Vec::new();
    let mut i: usize = 0;
    while i < n
        invariant
            n == s@.len(),
            i <= n,
            v@ == s@.subrange(0, i as int),
        decreases n - i,
    {
        v.push(s.get_char(i));
        i = i + 1;
    }
    v
}

/// A string made of the given characters.
pub fn string_of(v: &Vec<char>) -> (s: String)
    ensures
        s@ == v@,
{
    let mut s = String::new();
    let mut i: usize = 0;
    while i < v.len()
        invariant
            i <= v.len(),
            s@ == v@.subrange(0, i as int),
        decreases v.len() - i,
    {
        s.push(v[i]);
        i = i + 1;
    }
    s
}

/// The characters of a string literal, as an owned string.
pub fn text(s: &str) -> (r: String)
    ensures
        r@ == s@,
{
    String::from_str(s)
}

/// Whether two strings hold the same characters.
pub fn same_text(a: &str, b: &str) -> (r: bool)
    ensures
        r == (a@ == b@),
{
    let n: usize = a.unicode_len();
    let m: usize = b.unicode_len();
    if n != m {
        return false;
    }
    let mut i: usize = 0;
    while i < n
        invariant
            n == a@.len(),
            m == b@.len(),
            n == m,
            i <= n,
            a@.subrange(0, i as int) == b@.subrange(0, i as int),
        decreases n - i,
    {
        if a.get_char(i) != b.get_char(i) {
            return false;
        }
        assert(a@.subrange(0, i + 1) == a@.subrange(0, i as int).push(a@[i as int]));
        assert(b@.subrange(0, i + 1) == b@.subrange(0, i as int).push(b@[i as int]));
        i = i + 1;
    }
    assert(a@ == a@.subrange(0, n as int));
    assert(b@ == b@.subrange(0, n as int));
    true
}

/// Whether two character vectors are equal.
pub fn same_chars(a: &Vec<char>, b: &Vec<char>) -> (r: bool)
    ensures
        r == (a@ == b@),
{
    if a.len() != b.len() {
        return false;
    }
    let mut i: usize = 0;
    while i < a.len()
        invariant
            a.len() == b.len(),
            i <= a.len(),
            a@.subrange(0, i as int) == b@.subrange(0, i as int),
        decreases a.len() - i,
    {
        if a[i] != b[i] {
            return false;
        }
        assert(a@.subrange(0, i + 1) == a@.subrange(0, i as int).push(a@[i as int]));
        assert(b@.subrange(0, i + 1) == b@.subrange(0, i as int).push(b@[i as int]));
        i = i + 1;
    }
    assert(a@ == a@.subrange(0, a.len() as int));
    assert(b@ == b@.subrange(0, b.len() as int));
    true
}

/// ASCII upper-case letters become lower case; every other character stays.
pub open spec fn ascii_lower(c: char) -> char {
    if 'A' <= c && c <= 'Z' {
        ((c as int) + 32) as char
    } else {
        c
    }
}

pub open spec fn ascii_lower_seq(s: Seq<char>) -> Seq<char> {
    Seq::new(s.len(), |i: int| ascii_lower(s[i]))
}

/// An ASCII letter in lower case; any other character as it is.
pub fn ascii_lower_char(c: char) -> (r: char)
    ensures
        r == ascii_lower(c),
{
    if 'A' <= c && c <= 'Z' {
        ((c as u8) + 32) as char
    } else {
        c
    }
}

/// `to_ascii_lowercase` on a character sequence.
pub fn ascii_lower_chars(s: &Vec<char>) -> (r: Vec<char>)
    ensures
        r@ == ascii_lower_seq(s@),
{
    let mut r: Vec<char> = Vec::new();
    let mut i: usize = 0;
    while i < s.len()
        invariant
            i <= s.len(),
            r@ == ascii_lower_seq(s@.subrange(0, i as int)),
        decreases s.len() - i,
    {
        r.push(ascii_lower_char(s[i]));
        i = i + 1;
        assert(r@ =~= ascii_lower_seq(s@.subrange(0, i as int)));
    }
    assert(s@.subrange(0, s.len() as int) == s@);
    r
}

/// Whether `pat` occurs in `s` starting at `i`.
pub open spec fn occurs_at(s: Seq<char>, pat: Seq<char>, i: int) -> bool {
    0 <= i && i + pat.len() <= s.len() && s.subrange(i, i + pat.len()) == pat
}

/// Whether `pat` occurs anywhere in `s` (`str::contains`).
pub open spec fn contains_seq(s: Seq<char>, pat: Seq<char>) -> bool {
    exists|i: int| occurs_at(s, pat, i)
}

/// Whether `pat` occurs in `s`.
pub fn contains_chars(s: &Vec<char>, pat: &Vec<char>) -> (r: bool)
    ensures
        r == contains_seq(s@, pat@),
{
    if pat.len() > s.len() {
        assert(forall|i: int| !occurs_at(s@, pat@, i));
        return false;
    }
    let last: usize = s.len() - pat.len();
    let mut i: usize = 0;
    while i <= last
        invariant
            last == s.len() - pat.len(),
            pat.len() <= s.len(),
            i <= last + 1,
            forall|k: int| 0 <= k < i ==> !occurs_at(s@, pat@, k),
        decreases last + 1 - i,
    {
        let mut j: usize = 0;
        let mut ok = true;
        while j < pat.len()
            invariant
                i <= last,
                last == s.len() - pat.len(),
                j <= pat.len(),
                ok ==> s@.subrange(i as int, i + j) == pat@.subrange(0, j as int),
                !ok ==> !occurs_at(s@, pat@, i as int),
            decreases pat.len() - j,
        {
            if ok && s[i + j] != pat[j] {
                ok = false;
                assert(s@.subrange(i as int, i + pat.len())[j as int] == s@[i + j]);
            }
            if ok {
                assert(s@.subrange(i as int, i + j + 1) == s@.subrange(i as int, i + j).push(s@[i + j]));
                assert(pat@.subrange(0, j + 1) == pat@.subrange(0, j as int).push(pat@[j as int]));
            }
            j = j + 1;
        }
        if ok {
            assert(pat@.subrange(0, pat.len() as int) == pat@);
            assert(occurs_at(s@, pat@, i as int));
            return true;
        }
        if i == last {
            assert forall|k: int| !occurs_at(s@, pat@, k) by {
                if 0 <= k && k + pat.len() <= s.len() {
                    assert(k <= i);
                }
            }
            return false;
        }
        i = i + 1;
    }
    false
}

/// The decimal digit for `d` (0..=9).
pub open spec fn digit_char(d: int) -> char {
    if d == 0 {
        '0'
    } else if d == 1 {
        '1'
    } else if d == 2 {
        '2'
    } else if d == 3 {
        '3'
    } else if d == 4 {
        '4'
    } else if d == 5 {
        '5'
    } else if d == 6 {
        '6'
    } else if d == 7 {
        '7'
    } else if d == 8 {
        '8'
    } else {
        '9'
    }
}

/// `n` written in decimal, without leading zeros (what `to_string` writes).
pub open spec fn decimal(n: nat) -> Seq<char>
    decreases n,
{
    if n < 10 {
        seq![digit_char(n as int)]
    } else {
        decimal(n / 10).push(digit_char((n % 10) as int))
    }
}

fn digit_of(d: u64) -> (c: char)
    requires
        d < 10,
    ensures
        c == digit_char(d as int),
{
    if d == 0 {
        '0'
    } else if d == 1 {
        '1'
    } else if d == 2 {
        '2'
    } else if d == 3 {
        '3'
    } else if d == 4 {
        '4'
    } else if d == 5 {
        '5'
    } else if d == 6 {
        '6'
    } else if d == 7 {
        '7'
    } else if d == 8 {
        '8'
    } else {
        '9'
    }
}

/// The decimal digits of `n`.
pub fn decimal_chars(n: u64) -> (r: Vec<char>)
    ensures
        r@ == decimal(n as nat),
    decreases n,
{
    if n < 10 {
        let mut r = Vec::new();
        r.push(digit_of(n));
        assert(r@ =~= seq![digit_char(n as int)]);
        r
    } else {
        let mut r = decimal_chars(n / 10);
        r.push(digit_of(n % 10));
        r
    }
}

/// `decimal(n)` is made of digits.
pub proof fn lemma_decimal_digits(n: nat)
    ensures
        decimal(n).len() >= 1,
        forall|k: int| 0 <= k < decimal(n).len() ==> is_digit(#[trigger] decimal(n)[k]),
    decreases n,
{
    if n >= 10 {
        lemma_decimal_digits(n / 10);
        let d = decimal(n / 10);
        assert forall|k: int| 0 <= k < decimal(n).len() implies is_digit(#[trigger] decimal(n)[k]) by {
            if k < d.len() {
                assert(decimal(n)[k] == d[k]);
            }
        }
    }
}

proof fn lemma_digit_char_value(d: int)
    requires
        0 <= d < 10,
    ensures
        (digit_char(d) as int) - ('0' as int) == d,
{
}

/// Reading `decimal(n)` back gives `n`, so different numbers are written
/// differently.
pub proof fn lemma_decimal_value(n: nat)
    ensures
        digits_value(decimal(n)) == n,
    decreases n,
{
    if n < 10 {
        lemma_digit_char_value(n as int);
        assert(decimal(n).drop_last() =~= Seq::<char>::empty());
        assert(digits_value(Seq::<char>::empty()) == 0);
        assert(decimal(n).last() == digit_char(n as int));
    } else {
        lemma_decimal_value(n / 10);
        lemma_digit_char_value((n % 10) as int);
        assert(decimal(n).drop_last() =~= decimal(n / 10));
        assert(decimal(n).last() == digit_char((n % 10) as int));
        assert((n / 10) * 10 + n % 10 == n);
    }
}

/// `n` as a decimal string.
pub fn decimal_string(n: u64) -> (r: String)
    ensures
        r@ == decimal(n as nat),
{
    string_of(&decimal_chars(n))
}

/// The value of a sequence of decimal digits.
pub open spec fn digits_value(s: Seq<char>) -> nat
    decreases s.len(),
{
    if s.len() == 0 {
        0
    } else {
        digits_value(s.drop_last()) * 10 + ((s.last() as int) - ('0' as int)) as nat
    }
}

pub open spec fn is_digit(c: char) -> bool {
    '0' <= c && c <= '9'
}

pub open spec fn all_digits(s: Seq<char>) -> bool {
    forall|i: int| 0 <= i < s.len() ==> is_digit(#[trigger] s[i])
}

/// The text after an optional leading `+`.
pub open spec fn unsigned_body(s: Seq<char>) -> Seq<char> {
    if s.len() > 0 && s[0] == '+' {
        s.drop_first()
    } else {
        s
    }
}

/// What `str::parse::<u64>` gives: an optional leading `+`, then one or more
/// ASCII digits whose value fits in 64 bits.
pub open spec fn parse_u64_spec(s: Seq<char>) -> Option<u64> {
    let body = unsigned_body(s);
    if body.len() == 0 || !all_digits(body) {
        None
    } else if digits_value(body) > u64::MAX {
        None
    } else {
        Some(digits_value(body) as u64)
    }
}

proof fn lemma_digits_value_grows(s: Seq<char>, i: int)
    requires
        0 <= i <= s.len(),
        forall|k: int| 0 <= k < s.len() ==> is_digit(#[trigger] s[k]),
    ensures
        digits_value(s.subrange(0, i)) <= digits_value(s),
    decreases s.len() - i,
{
    if i < s.len() {
        lemma_digits_value_grows(s, i + 1);
        let p = s.subrange(0, i + 1);
        assert(p.drop_last() == s.subrange(0, i));
    } else {
        assert(s.subrange(0, i) == s);
    }
}

/// One more digit: the value of `s[0..j+1]` from that of `s[0..j]`.
proof fn lemma_digits_step(s: Seq<char>, j: int)
    requires
        0 <= j < s.len(),
        is_digit(s[j]),
    ensures
        digits_value(s.subrange(0, j + 1)) == digits_value(s.subrange(0, j)) * 10 + ((s[j] as int)
            - ('0' as int)),
{
    let p = s.subrange(0, j + 1);
    assert(p.drop_last() =~= s.subrange(0, j));
    assert(p.last() == s[j]);
}

/// The value of the digits `v[start..]`, where it fits in 64 bits.
fn digits_value_u64(v: &Vec<char>, start: usize) -> (r: Option<u64>)
    requires
        start <= v.len(),
        forall|j: int| start <= j < v.len() ==> is_digit(#[trigger] v@[j]),
    ensures
        ({
            let body = v@.subrange(start as int, v.len() as int);
            if digits_value(body) > u64::MAX {
                r is None
            } else {
                r == Some(digits_value(body) as u64)
            }
        }),
{
    let ghost body = v@.subrange(start as int, v.len() as int);
    assert forall|j: int| 0 <= j < body.len() implies is_digit(#[trigger] body[j]) by {
        assert(body[j] == v@[start + j]);
    }
    let mut acc: u64 = 0;
    let mut i: usize = start;
    assert(body.subrange(0, 0) =~= Seq::<char>::empty());
    while i < v.len()
        invariant
            start <= i <= v.len(),
            body == v@.subrange(start as int, v.len() as int),
            forall|j: int| 0 <= j < body.len() ==> is_digit(#[trigger] body[j]),
            acc == digits_value(body.subrange(0, i - start)),
        decreases v.len() - i,
    {
        let c = v[i];
        proof {
            assert(body[i - start] == c);
            assert(is_digit(body[i - start]));
            lemma_digits_step(body, i - start);
        }
        let d: u64 = (c as u32 - '0' as u32) as u64;
        match acc.checked_mul(10) {
            None => {
                proof {
                    lemma_digits_value_grows(body, i + 1 - start);
                }
                return None;
            },
            Some(m) => match m.checked_add(d) {
                None => {
                    proof {
                        lemma_digits_value_grows(body, i + 1 - start);
                    }
                    return None;
                },
                Some(n) => {
                    acc = n;
                },
            },
        }
        i = i + 1;
    }
    assert(body.subrange(0, body.len() as int) == body);
    Some(acc)
}

/// `str::parse::<u64>`.
pub fn parse_u64(s: &str) -> (r: Option<u64>)
    ensures
        r == parse_u64_spec(s@),
{
    let v = chars_of(s);
    let start: usize = if v.len() > 0 && v[0] == '+' {
        1
    } else {
        0
    };
    let ghost body = unsigned_body(s@);
    assert(body == v@.subrange(start as int, v.len() as int));
    if start == v.len() {
        return None;
    }
    let mut k: usize = start;
    while k < v.len()
        invariant
            start <= k <= v.len(),
            body == v@.subrange(start as int, v.len() as int),
            v@ == s@,
            body == unsigned_body(s@),
            forall|j: int| start <= j < k ==> is_digit(#[trigger] v@[j]),
        decreases v.len() - k,
    {
        if !(v[k] >= '0' && v[k] <= '9') {
            assert(body[k - start] == v@[k as int]);
            assert(!is_digit(body[k - start]));
            assert(exists|j: int| 0 <= j < body.len() && !is_digit(#[trigger] body[j]));
            return None;
        }
        k = k + 1;
    }
    assert(forall|j: int| 0 <= j < body.len() ==> is_digit(#[trigger] body[j])) by {
        assert forall|j: int| 0 <= j < body.len() implies is_digit(#[trigger] body[j]) by {
            assert(body[j] == v@[start + j]);
        }
    }
    digits_value_u64(&v, start)
}

/// The last `n` characters of `s` (all of it where it is shorter).
pub open spec fn tail_of(s: Seq<char>, n: nat) -> Seq<char> {
    if s.len() <= n {
        s
    } else {
        s.subrange(s.len() - n, s.len() as int)
    }
}

/// The last `n` characters of a string.
pub fn tail_chars(s: &str, n: usize) -> (r: String)
    ensures
        r@ == tail_of(s@, n as nat),
{
    let v = chars_of(s);
    let from: usize = if v.len() <= n {
        0
    } else {
        v.len() - n
    };
    let mut r = String::new();
    let mut i: usize = from;
    while i < v.len()
        invariant
            from <= i <= v.len(),
            r@ == v@.subrange(from as int, i as int),
        decreases v.len() - i,
    {
        r.push(v[i]);
        i = i + 1;
    }
    assert(v@.subrange(0, v.len() as int) == v@);
    r
}

} // verus!
