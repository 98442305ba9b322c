//! Text helpers: decimal and list rendering for messages, reading integers
//! as `str::parse` does, trimming, and the UTF-8 byte counts of strings.
use vstd::prelude::*;
use vstd::string::*;

verus! {

/// The ASCII character of a decimal digit.
pub open spec fn digit_char(d: nat) -> char {
    if d == 0 {
        '0'
    } else if d == 1 {
        '1'
    } else if d == 2 {
        '2'
    } else if d == 3 {
        '3'
    } else if d == 4 {
        '4'
    } else if d == 5 {
        '5'
    } else if d == 6 {
        '6'
    } else if d == 7 {
        '7'
    } else if d == 8 {
        '8'
    } else {
        '9'
    }
}

/// The decimal rendering of a natural number, without leading zeros.
pub open spec fn decimal(n: nat) -> Seq<char>
    decreases n,
{
    if n < 10 {
        seq![digit_char(n)]
    } else {
        decimal(n / 10).push(digit_char(n % 10))
    }
}

/// The items of a list of numbers separated by `", "`.
pub open spec fn list_items(s: Seq<usize>) -> Seq<char>
    decreases s.len(),
{
    if s.len() == 0 {
        seq![]
    } else if s.len() == 1 {
        decimal(s[0] as nat)
    } else {
        list_items(s.drop_last()) + ", "@ + decimal(s.last() as nat)
    }
}

/// The debug rendering of a list of numbers, such as `[2, 3]`.
pub open spec fn debug_list(s: Seq<usize>) -> Seq<char> {
    "["@ + list_items(s) + "]"@
}

fn digit_str(d: usize) -> (r: &'static str)
    requires
        d < 10,
    ensures
        r@ == seq![digit_char(d as nat)],
{
    proof {
        reveal_strlit("0");
        reveal_strlit("1");
        reveal_strlit("2");
        reveal_strlit("3");
        reveal_strlit("4");
        reveal_strlit("5");
        reveal_strlit("6");
        reveal_strlit("7");
        reveal_strlit("8");
        reveal_strlit("9");
    }
    if d == 0 {
        "0"
    } else if d == 1 {
        "1"
    } else if d == 2 {
        "2"
    } else if d == 3 {
        "3"
    } else if d == 4 {
        "4"
    } else if d == 5 {
        "5"
    } else if d == 6 {
        "6"
    } else if d == 7 {
        "7"
    } else if d == 8 {
        "8"
    } else {
        "9"
    }
}

/// Appends the decimal rendering of `n`.
pub fn push_decimal(out: &mut String, n: usize)
    ensures
        final(out)@ == old(out)@ + decimal(n as nat),
    decreases n,
{
    if n >= 10 {
        push_decimal(out, n / 10);
    }
    out.append(digit_str(n % 10));
}

/// Appends the debug rendering of a list of numbers.
pub fn push_debug_list(out: &mut String, items: &[usize])
    ensures
        final(out)@ == old(out)@ + debug_list(items@),
{
    let ghost start = out@;
    out.append("[");
    let n = items.len();
    let mut i: usize = 0;
    while i < n
        invariant
            n == items@.len(),
            i <= n,
            out@ == start + "["@ + list_items(items@.take(i as int)),
        decreases n - i,
    {
        proof {
            assert(items@.take(i + 1).drop_last() =~= items@.take(i as int));
            assert(items@.take(i + 1).last() == items@[i as int]);
        }
        if i > 0 {
            out.append(", ");
        }
        push_decimal(out, items[i]);
        proof {
            if i == 0 {
                assert(items@.take(1) =~= seq![items@[0]]);
            }
        }
        i += 1;
    }
    assert(items@.take(n as int) =~= items@);
    out.append("]");
}

/// Decimal rendering as a fresh string.
pub fn decimal_string(n: usize) -> (r: String)
    ensures
        r@ == decimal(n as nat),
{
    let mut out = String::new();
    push_decimal(&mut out, n);
    assert(out@ =~= decimal(n as nat));
    out
}

/// The Unicode `White_Space` property, which `char::is_whitespace` reports.
pub open spec fn is_whitespace_char(c: char) -> bool {
    let u = c as u32;
    ||| 0x09 <= u <= 0x0d
    ||| u == 0x20
    ||| u == 0x85
    ||| u == 0xa0
    ||| u == 0x1680
    ||| 0x2000 <= u <= 0x200a
    ||| u == 0x2028
    ||| u == 0x2029
    ||| u == 0x202f
    ||| u == 0x205f
    ||| u == 0x3000
}

/// Every character is whitespace: the string is empty once trimmed.
pub open spec fn is_blank(s: Seq<char>) -> bool {
    forall|i: int| 0 <= i < s.len() ==> is_whitespace_char(#[trigger] s[i])
}

fn char_is_whitespace(c: char) -> (b: bool)
    ensures
        b == is_whitespace_char(c),
{
    let u = c as u32;
    (0x09 <= u && u <= 0x0d) || u == 0x20 || u == 0x85 || u == 0xa0 || u == 0x1680 || (0x2000 <= u
        && u <= 0x200a) || u == 0x2028 || u == 0x2029 || u == 0x202f || u == 0x205f || u == 0x3000
}

/// Returns true when the string holds nothing but whitespace.
pub fn blank(s: &str) -> (b: bool)
    ensures
        b == is_blank(s@),
{
    let n = s.unicode_len();
    let mut i: usize = 0;
    while i < n
        invariant
            n == s@.len(),
            i <= n,
            forall|j: int| 0 <= j < i ==> is_whitespace_char(#[trigger] s@[j]),
        decreases n - i,
    {
        let c = s.get_char(i);
        if !char_is_whitespace(c) {
            return false;
        }
        i += 1;
    }
    true
}

/// Character-by-character string equality.
pub fn str_equal(a: &str, b: &str) -> (r: bool)
    ensures
        r == (a@ == b@),
{
    let n = a.unicode_len();
    let m = b.unicode_len();
    if n != m {
        return false;
    }
    let mut i: usize = 0;
    while i < n
        invariant
            n == a@.len(),
            n == b@.len(),
            i <= n,
            forall|j: int| 0 <= j < i ==> a@[j] == b@[j],
        decreases n - i,
    {
        if a.get_char(i) != b.get_char(i) {
            return false;
        }
        i += 1;
    }
    assert(a@ =~= b@);
    true
}


/// The characters of a string, in order.
pub fn chars_of(s: &str) -> (v: Vec<char>)
    ensures
        v@ == s@,
{
    broadcast use vstd::string::group_string_axioms;

    let mut v: Vec<char> = Vec::new();
    for c in it: s.chars()
        invariant
            v@ == it.seq().take(it.index() as int),
    {
        v.push(c);
    }
    v
}


/// An ASCII decimal digit.
pub open spec fn is_digit(c: char) -> bool {
    '0' <= c <= '9'
}

/// The number written by a string of decimal digits.
pub open spec fn digits_value(s: Seq<char>) -> nat
    decreases s.len(),
{
    if s.len() == 0 {
        0
    } else {
        digits_value(s.drop_last()) * 10 + ((s.last() as u32) - ('0' as u32)) as nat
    }
}

/// The digits of an unsigned integer literal: an optional leading `+` is dropped.
pub open spec fn unsigned_digits(s: Seq<char>) -> Seq<char> {
    if s.len() > 0 && s[0] == '+' {
        s.drop_first()
    } else {
        s
    }
}

/// The value `str::parse::<usize>` gives: one or more decimal digits after an
/// optional `+`, within the range of `usize`.
pub open spec fn parsed_usize(s: Seq<char>) -> Option<nat> {
    let d = unsigned_digits(s);
    if d.len() > 0 && (forall|i: int| 0 <= i < d.len() ==> is_digit(#[trigger] d[i])) && digits_value(
        d,
    ) <= usize::MAX {
        Some(digits_value(d))
    } else {
        None
    }
}

proof fn lemma_digits_prefix_le(s: Seq<char>, k: int)
    requires
        0 <= k <= s.len(),
        forall|i: int| 0 <= i < s.len() ==> is_digit(#[trigger] s[i]),
    ensures
        digits_value(s.take(k)) <= digits_value(s),
    decreases s.len(),
{
    if k < s.len() {
        let t = s.drop_last();
        assert(t.take(k) =~= s.take(k));
        assert forall|i: int| 0 <= i < t.len() implies is_digit(#[trigger] t[i]) by {
            assert(t[i] == s[i]);
        }
        lemma_digits_prefix_le(t, k);
    } else {
        assert(s.take(k) =~= s);
    }
}

/// Reads the integer written by the characters `cs[from..to]`, as
/// `str::parse::<usize>` does.
pub fn read_usize_in(cs: &Vec<char>, from: usize, to: usize) -> (r: Option<usize>)
    requires
        from <= to <= cs@.len(),
    ensures
        match r {
            Some(n) => parsed_usize(cs@.subrange(from as int, to as int)) == Some(n as nat),
            None => parsed_usize(cs@.subrange(from as int, to as int)) is None,
        },
{
    let ghost value = cs@.subrange(from as int, to as int);
    let mut start = from;
    if from < to && cs[from] == '+' {
        start = from + 1;
    }
    let ghost d = unsigned_digits(value);
    assert(d =~= cs@.subrange(start as int, to as int));
    if start >= to {
        return None;
    }
    let mut i = start;
    while i < to
        invariant
            from <= start <= i <= to <= cs@.len(),
            forall|j: int| start <= j < i ==> is_digit(#[trigger] cs@[j]),
            value == cs@.subrange(from as int, to as int),
            d == unsigned_digits(value),
            d =~= cs@.subrange(start as int, to as int),
        decreases to - i,
    {
        let c = cs[i];
        if !('0' <= c && c <= '9') {
            assert(!is_digit(d[i - start]));
            return None;
        }
        i += 1;
    }
    assert forall|j: int| 0 <= j < d.len() implies is_digit(#[trigger] d[j]) by {
        assert(d[j] == cs@[j + start]);
    }
    let mut acc: usize = 0;
    let mut k = start;
    while k < to
        invariant
            from <= start <= k <= to <= cs@.len(),
            value == cs@.subrange(from as int, to as int),
            d == unsigned_digits(value),
            d =~= cs@.subrange(start as int, to as int),
            forall|j: int| 0 <= j < d.len() ==> is_digit(#[trigger] d[j]),
            acc == digits_value(d.take(k - start)),
        decreases to - k,
    {
        let c = cs[k];
        proof {
            assert(c == d[k - start]);
            assert(d.take(k + 1 - start).drop_last() =~= d.take(k - start));
            assert(d.take(k + 1 - start).last() == c);
        }
        let digit = (c as u32 - '0' as u32) as usize;
        assert(digits_value(d.take(k + 1 - start)) == acc * 10 + digit);
        let next = match acc.checked_mul(10) {
            Some(m) => m.checked_add(digit),
            None => None,
        };
        match next {
            Some(v) => {
                acc = v;
            },
            None => {
                proof {
                    lemma_digits_prefix_le(d, k + 1 - start);
                }
                return None;
            },
        }
        k += 1;
    }
    assert(d.take(to - start) =~= d);
    Some(acc)
}

/// Reads the integer a string writes, as `str::parse::<usize>` does.
pub fn read_usize(value: &str) -> (r: Option<usize>)
    ensures
        match r {
            Some(n) => parsed_usize(value@) == Some(n as nat),
            None => parsed_usize(value@) is None,
        },
{
    let cs = chars_of(value);
    assert(cs@.subrange(0, cs@.len() as int) =~= value@);
    read_usize_in(&cs, 0, cs.len())
}


/// Whitespace removed from the front, as `str::trim_start` does.
pub open spec fn trim_start(s: Seq<char>) -> Seq<char>
    decreases s.len(),
{
    if s.len() > 0 && is_whitespace_char(s[0]) {
        trim_start(s.drop_first())
    } else {
        s
    }
}

/// Whitespace removed from the back, as `str::trim_end` does.
pub open spec fn trim_end(s: Seq<char>) -> Seq<char>
    decreases s.len(),
{
    if s.len() > 0 && is_whitespace_char(s.last()) {
        trim_end(s.drop_last())
    } else {
        s
    }
}

/// Whitespace removed from both ends, as `str::trim` does.
pub open spec fn trimmed(s: Seq<char>) -> Seq<char> {
    trim_end(trim_start(s))
}

/// The bounds of `cs[from..to]` once whitespace is removed from both ends.
pub fn trim_bounds(cs: &Vec<char>, from: usize, to: usize) -> (r: (usize, usize))
    requires
        from <= to <= cs@.len(),
    ensures
        from <= r.0 <= r.1 <= to,
        cs@.subrange(r.0 as int, r.1 as int) == trimmed(cs@.subrange(from as int, to as int)),
{
    let mut a = from;
    while a < to && char_is_whitespace(cs[a])
        invariant
            from <= a <= to <= cs@.len(),
            trim_start(cs@.subrange(from as int, to as int)) == trim_start(
                cs@.subrange(a as int, to as int),
            ),
        decreases to - a,
    {
        assert(cs@.subrange(a as int, to as int).drop_first() =~= cs@.subrange(
            a + 1,
            to as int,
        ));
        a += 1;
    }
    assert(trim_start(cs@.subrange(a as int, to as int)) == cs@.subrange(a as int, to as int));
    let mut b = to;
    while b > a && char_is_whitespace(cs[b - 1])
        invariant
            from <= a <= b <= to <= cs@.len(),
            trim_end(cs@.subrange(a as int, to as int)) == trim_end(
                cs@.subrange(a as int, b as int),
            ),
        decreases b - a,
    {
        assert(cs@.subrange(a as int, b as int).drop_last() =~= cs@.subrange(
            a as int,
            b - 1,
        ));
        b -= 1;
    }
    (a, b)
}

/// Bytes in the UTF-8 encoding of a character sequence.
pub open spec fn utf8_len(cs: Seq<char>) -> nat {
    vstd::utf8::encode_utf8(cs).len()
}

/// Encoding a concatenation concatenates the encodings.
pub proof fn lemma_encode_concat(a: Seq<char>, b: Seq<char>)
    ensures
        vstd::utf8::encode_utf8(a + b) == vstd::utf8::encode_utf8(a) + vstd::utf8::encode_utf8(b),
    decreases a.len(),
{
    if a.len() == 0 {
        assert(a + b =~= b);
        assert(vstd::utf8::encode_utf8(a) + vstd::utf8::encode_utf8(b) =~= vstd::utf8::encode_utf8(
            b,
        ));
    } else {
        assert((a + b).drop_first() =~= a.drop_first() + b);
        assert((a + b)[0] == a[0]);
        lemma_encode_concat(a.drop_first(), b);
        let head = vstd::utf8::encode_scalar(a[0] as u32);
        assert(vstd::utf8::encode_utf8(a + b) == head + vstd::utf8::encode_utf8(
            a.drop_first() + b,
        ));
        assert(vstd::utf8::encode_utf8(a) == head + vstd::utf8::encode_utf8(a.drop_first()));
        assert(head + (vstd::utf8::encode_utf8(a.drop_first()) + vstd::utf8::encode_utf8(b))
            =~= (head + vstd::utf8::encode_utf8(a.drop_first())) + vstd::utf8::encode_utf8(b));
    }
}

/// A single character encodes as its scalar.
proof fn lemma_encode_single(c: char)
    ensures
        vstd::utf8::encode_utf8(seq![c]) == vstd::utf8::encode_scalar(c as u32),
{
    let one = seq![c];
    let none = Seq::<char>::empty();
    assert(one.drop_first() =~= none);
    assert(vstd::utf8::encode_utf8(none) =~= Seq::<u8>::empty());
    assert(one[0] == c);
    assert(vstd::utf8::encode_utf8(one) == vstd::utf8::encode_scalar(c as u32)
        + vstd::utf8::encode_utf8(one.drop_first()));
    assert(vstd::utf8::encode_scalar(c as u32) + Seq::<u8>::empty() =~= vstd::utf8::encode_scalar(
        c as u32,
    ));
}

/// The encoding of one more character is longer by that character's width.
pub proof fn lemma_utf8_len_push(cs: Seq<char>, c: char)
    ensures
        utf8_len(cs.push(c)) == utf8_len(cs) + vstd::utf8::encode_scalar(c as u32).len(),
{
    lemma_encode_concat(cs, seq![c]);
    assert(cs + seq![c] =~= cs.push(c));
    lemma_encode_single(c);
}

/// The end of the encoding of every prefix falls on a character boundary.
pub proof fn lemma_prefix_boundary(cs: Seq<char>, k: int)
    requires
        0 <= k <= cs.len(),
    ensures
        vstd::utf8::is_char_boundary(vstd::utf8::encode_utf8(cs), utf8_len(cs.take(k)) as int),
    decreases cs.len(),
{
    broadcast use vstd::utf8::encode_utf8_valid_utf8;

    let bytes = vstd::utf8::encode_utf8(cs);
    if k == 0 {
        assert(cs.take(0) =~= Seq::<char>::empty());
    } else {
        vstd::utf8::encode_utf8_first_scalar(cs);
        let rest = cs.drop_first();
        let head = vstd::utf8::encode_scalar(cs[0] as u32);
        assert(vstd::utf8::pop_first_scalar(bytes) =~= vstd::utf8::encode_utf8(rest));
        lemma_prefix_boundary(rest, k - 1);
        assert(cs.take(k) =~= seq![cs[0]] + rest.take(k - 1));
        lemma_encode_concat(seq![cs[0]], rest.take(k - 1));
        lemma_encode_single(cs[0]);
        assert(rest =~= rest.take(k - 1) + rest.skip(k - 1));
        lemma_encode_concat(rest.take(k - 1), rest.skip(k - 1));
        assert(utf8_len(cs.take(k)) == head.len() + utf8_len(rest.take(k - 1)));
        assert(utf8_len(cs.take(k)) <= bytes.len());
        assert(head.len() > 0);
    }
}

/// The width in bytes of a character's UTF-8 encoding.
pub fn char_width(c: char) -> (w: usize)
    ensures
        w == vstd::utf8::encode_scalar(c as u32).len(),
        1 <= w <= 4,
{
    broadcast use vstd::utf8::char_is_scalar;

    let u = c as u32;
    if u <= 0x7f {
        1
    } else if u <= 0x7ff {
        2
    } else if u <= 0xffff {
        3
    } else {
        4
    }
}

/// Splits a string after its first `k` characters, which take `at` bytes.
pub fn split_chars<'a>(s: &'a str, Ghost(k): Ghost<int>, at: usize) -> (r: (&'a str, &'a str))
    requires
        0 <= k <= s@.len(),
        at == utf8_len(s@.take(k)),
    ensures
        r.0@ == s@.take(k),
        r.1@ == s@.skip(k),
{
    broadcast use vstd::utf8::encode_utf8_decode_utf8;

    proof {
        lemma_prefix_boundary(s@, k);
        assert(s@.take(k) + s@.skip(k) =~= s@);
        lemma_encode_concat(s@.take(k), s@.skip(k));
    }
    let r = s.split_at(at);
    proof {
        let bytes = vstd::utf8::encode_utf8(s@);
        assert(r.0.spec_bytes() =~= vstd::utf8::encode_utf8(s@.take(k)));
        assert(r.1.spec_bytes() =~= vstd::utf8::encode_utf8(s@.skip(k)));
        assert(vstd::utf8::decode_utf8(vstd::utf8::encode_utf8(r.0@)) == r.0@);
        assert(vstd::utf8::decode_utf8(vstd::utf8::encode_utf8(r.1@)) == r.1@);
    }
    r
}

} // verus!
