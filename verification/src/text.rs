//! Character-level helpers shared by the modules that read and write text.

use vstd::prelude::*;
use vstd::string::*;
use crate::text_map::{lemma_text_order, place_of, Place};

verus! {

/// `String::push` appends exactly one character to the end of the string.
pub assume_specification[ String::push ](s: &mut String, c: char)
    ensures
        final(s)@ == old(s)@.push(c),
;

/// Whether `a` and `b` hold the same characters.
pub fn same_text(a: &str, b: &str) -> (r: bool)
    ensures
        r == (a@ == b@),
{
    match place_of(a, b) {
        Place::Same => true,
        Place::Before => {
            proof {
                lemma_text_order(a@, b@, a@);
            }
            false
        },
        Place::After => {
            proof {
                lemma_text_order(b@, a@, b@);
            }
            false
        },
    }
}

/// Whether `x` occurs in `s` starting at position `pos`.
pub open spec fn has_at(s: Seq<char>, pos: int, x: Seq<char>) -> bool {
    &&& 0 <= pos
    &&& pos + x.len() <= s.len()
    &&& forall|i: int| 0 <= i < x.len() ==> s[pos + i] == #[trigger] x[i]
}

/// A text that occurs at `pos` has its first part at `pos` and the rest
/// right behind it.
pub proof fn lemma_has_at_split(s: Seq<char>, pos: int, a: Seq<char>, b: Seq<char>)
    requires
        has_at(s, pos, a + b),
    ensures
        has_at(s, pos, a),
        has_at(s, pos + a.len(), b),
{
    let x = a + b;
    assert forall|i: int| 0 <= i < a.len() implies s[pos + i] == #[trigger] a[i] by {
        assert(x[i] == a[i]);
    }
    assert forall|i: int| 0 <= i < b.len() implies s[pos + a.len() + i] == #[trigger] b[i] by {
        assert(x[a.len() + i] == b[i]);
    }
}

/// A one-character text that occurs at `pos` is the character at `pos`.
pub proof fn lemma_has_at_one(s: Seq<char>, pos: int, c: char)
    requires
        has_at(s, pos, seq![c]),
    ensures
        0 <= pos < s.len(),
        s[pos] == c,
{
    assert(seq![c][0] == c);
}

/// The characters of `s`, one element per character.
pub fn to_chars(s: &str) -> (r: Vec<char>)
    ensures
        r@ == s@,
{
    broadcast use vstd::string::group_string_axioms;

    let mut r: Vec<char> = Vec::new();
    for c in it: s.chars()
        invariant
            it.seq() == s@,
            r@ == it.seq().take(it.index()),
    {
        r.push(c);
    }
    r
}

/// The text made of the characters `v[from..to]`.
pub fn from_chars(v: &Vec<char>, from: usize, to: usize) -> (r: String)
    requires
        from <= to <= v.len(),
    ensures
        r@ == v@.subrange(from as int, to as int),
{
    let mut r = String::new();
    let mut i: usize = from;
    while i < to
        invariant
            from <= i <= to <= v.len(),
            r@ == v@.subrange(from as int, i as int),
        decreases to - i,
    {
        r.push(v[i]);
        i += 1;
    }
    r
}

/// The texts that the strings of `v` hold, in order.
pub open spec fn texts_of(v: Seq<String>) -> Seq<Seq<char>> {
    Seq::new(v.len(), |i: int| v[i]@)
}

/// The character for the digit `d` in bases up to sixteen, in lower case.
pub open spec fn digit_char(d: int) -> char {
    if d == 0 {
        '0'
    } else if d == 1 {
        '1'
    } else if d == 2 {
        '2'
    } else if d == 3 {
        '3'
    } else if d == 4 {
        '4'
    } else if d == 5 {
        '5'
    } else if d == 6 {
        '6'
    } else if d == 7 {
        '7'
    } else if d == 8 {
        '8'
    } else if d == 9 {
        '9'
    } else if d == 10 {
        'a'
    } else if d == 11 {
        'b'
    } else if d == 12 {
        'c'
    } else if d == 13 {
        'd'
    } else if d == 14 {
        'e'
    } else {
        'f'
    }
}

/// The decimal digits of `n`, most significant first, without padding.
pub open spec fn decimal_digits(n: nat) -> Seq<char>
    decreases n,
{
    if n < 10 {
        seq![digit_char(n as int)]
    } else {
        decimal_digits(n / 10).push(digit_char((n % 10) as int))
    }
}

/// The hexadecimal digits of `n` in lower case, most significant first,
/// without padding.
pub open spec fn hex_digits(n: nat) -> Seq<char>
    decreases n,
{
    if n < 16 {
        seq![digit_char(n as int)]
    } else {
        hex_digits(n / 16).push(digit_char((n % 16) as int))
    }
}

/// The decimal text of `n`, with a leading `-` if it is negative.
pub open spec fn decimal_of(n: int) -> Seq<char> {
    if n < 0 {
        seq!['-'] + decimal_digits((-n) as nat)
    } else {
        decimal_digits(n as nat)
    }
}

/// The character for the digit `d`.
pub fn digit(d: u8) -> (c: char)
    requires
        d < 16,
    ensures
        c == digit_char(d as int),
{
    if d == 0 {
        '0'
    } else if d == 1 {
        '1'
    } else if d == 2 {
        '2'
    } else if d == 3 {
        '3'
    } else if d == 4 {
        '4'
    } else if d == 5 {
        '5'
    } else if d == 6 {
        '6'
    } else if d == 7 {
        '7'
    } else if d == 8 {
        '8'
    } else if d == 9 {
        '9'
    } else if d == 10 {
        'a'
    } else if d == 11 {
        'b'
    } else if d == 12 {
        'c'
    } else if d == 13 {
        'd'
    } else if d == 14 {
        'e'
    } else {
        'f'
    }
}

/// Appends the decimal digits of `n` to `out`.
pub fn push_decimal(n: u128, out: &mut String)
    ensures
        final(out)@ == old(out)@ + decimal_digits(n as nat),
    decreases n,
{
    if n >= 10 {
        push_decimal(n / 10, out);
    }
    out.push(digit((n % 10) as u8));
    assert(final(out)@ =~= old(out)@ + decimal_digits(n as nat));
}

/// Appends the hexadecimal digits of `n` to `out`.
pub fn push_hex(n: u128, out: &mut String)
    ensures
        final(out)@ == old(out)@ + hex_digits(n as nat),
    decreases n,
{
    if n >= 16 {
        push_hex(n / 16, out);
    }
    out.push(digit((n % 16) as u8));
    assert(final(out)@ =~= old(out)@ + hex_digits(n as nat));
}

/// Appends the decimal text of `n` to `out`.
pub fn push_i32(n: i32, out: &mut String)
    ensures
        final(out)@ == old(out)@ + decimal_of(n as int),
{
    if n < 0 {
        out.push('-');
        let magnitude: i64 = 0 - (n as i64);
        push_decimal(magnitude as u128, out);
        assert(final(out)@ =~= old(out)@ + decimal_of(n as int));
    } else {
        push_decimal(n as u128, out);
    }
}

/// The value of the decimal digit `c`, if it is one.
pub open spec fn digit_value(c: char) -> Option<int> {
    if c == '0' {
        Some(0)
    } else if c == '1' {
        Some(1)
    } else if c == '2' {
        Some(2)
    } else if c == '3' {
        Some(3)
    } else if c == '4' {
        Some(4)
    } else if c == '5' {
        Some(5)
    } else if c == '6' {
        Some(6)
    } else if c == '7' {
        Some(7)
    } else if c == '8' {
        Some(8)
    } else if c == '9' {
        Some(9)
    } else {
        None
    }
}

/// The number that the decimal digits `s` stand for: `None` if `s` is
/// empty or holds anything but digits.
pub open spec fn natural_of(s: Seq<char>) -> Option<int>
    decreases s.len(),
{
    if s.len() == 0 {
        None
    } else {
        match digit_value(s.last()) {
            None => None,
            Some(d) => if s.len() == 1 {
                Some(d)
            } else {
                match natural_of(s.drop_last()) {
                    None => None,
                    Some(n) => Some(n * 10 + d),
                }
            },
        }
    }
}

/// The number that `s` stands for: decimal digits, with `+` or `-` in
/// front if one likes.
pub open spec fn integer_of(s: Seq<char>) -> Option<int> {
    if s.len() > 0 && s[0] == '-' {
        match natural_of(s.skip(1)) {
            Some(n) => Some(-n),
            None => None,
        }
    } else if s.len() > 0 && s[0] == '+' {
        natural_of(s.skip(1))
    } else {
        natural_of(s)
    }
}

/// The number that `s` stands for, if it is one that an `i32` can hold.
pub open spec fn i32_of(s: Seq<char>) -> Option<i32> {
    match integer_of(s) {
        Some(n) => if i32::MIN <= n <= i32::MAX {
            Some(n as i32)
        } else {
            None
        },
        None => None,
    }
}

/// A number only grows with more digits.
pub proof fn lemma_natural_grows(s: Seq<char>, k: int)
    requires
        0 < k <= s.len(),
        natural_of(s) is Some,
    ensures
        natural_of(s.take(k)) is Some,
        0 <= natural_of(s.take(k))->0 <= natural_of(s)->0,
    decreases s.len() - k,
{
    if k == s.len() {
        assert(s.take(k) =~= s);
        lemma_natural_sign(s);
    } else {
        assert(s.drop_last().take(k) =~= s.take(k));
        lemma_natural_grows(s.drop_last(), k);
        lemma_natural_sign(s);
    }
}

/// A number read from digits is not negative.
pub proof fn lemma_natural_sign(s: Seq<char>)
    requires
        natural_of(s) is Some,
    ensures
        natural_of(s)->0 >= 0,
    decreases s.len(),
{
    if s.len() > 1 {
        lemma_natural_sign(s.drop_last());
    }
}

/// The value of the decimal digit `c`.
pub fn digit_of(c: char) -> (r: Option<i64>)
    ensures
        match r {
            Some(d) => digit_value(c) == Some(d as int),
            None => digit_value(c) is None,
        },
{
    if c == '0' {
        Some(0)
    } else if c == '1' {
        Some(1)
    } else if c == '2' {
        Some(2)
    } else if c == '3' {
        Some(3)
    } else if c == '4' {
        Some(4)
    } else if c == '5' {
        Some(5)
    } else if c == '6' {
        Some(6)
    } else if c == '7' {
        Some(7)
    } else if c == '8' {
        Some(8)
    } else if c == '9' {
        Some(9)
    } else {
        None
    }
}

/// Reads a whole number from `s`.
pub fn read_i32(s: &str) -> (r: Option<i32>)
    ensures
        r == i32_of(s@),
{
    let chars = to_chars(s);
    let n = chars.len();
    let negative = n > 0 && chars[0] == '-';
    let start: usize = if n > 0 && (chars[0] == '-' || chars[0] == '+') {
        1
    } else {
        0
    };
    let ghost digits = chars@.skip(start as int);
    assert(start == 0 ==> digits =~= chars@);
    let ghost whole = if negative {
        match natural_of(digits) {
            Some(v) => Some(-v),
            None => None,
        }
    } else {
        natural_of(digits)
    };
    assert(integer_of(s@) == whole);
    if start == n {
        return None;
    }
    let mut acc: i64 = 0;
    let mut i: usize = start;
    while i < n
        invariant
            start <= i <= n == chars.len(),
            start < n,
            digits == chars@.skip(start as int),
            integer_of(s@) == whole,
            whole == if negative {
                match natural_of(digits) {
                    Some(v) => Some(-v),
                    None => None,
                }
            } else {
                natural_of(digits)
            },
            0 <= acc <= 0x8000_0000,
            i > start ==> natural_of(digits.take(i - start)) == Some(acc as int),
            i == start ==> acc == 0,
        decreases n - i,
    {
        let ghost front = digits.take(i - start + 1);
        assert(front.last() == chars@[i as int]);
        assert(front.drop_last() =~= digits.take(i - start));
        match digit_of(chars[i]) {
            None => {
                proof {
                    assert(natural_of(front) is None);
                    if natural_of(digits) is Some {
                        lemma_natural_grows(digits, i - start + 1);
                    }
                }
                return None;
            },
            Some(d) => {
                acc = acc * 10 + d;
                assert(natural_of(front) == Some(acc as int));
                if acc > 0x8000_0000 {
                    proof {
                        if natural_of(digits) is Some {
                            lemma_natural_grows(digits, i - start + 1);
                        }
                    }
                    return None;
                }
            },
        }
        i += 1;
    }
    assert(digits.take(n - start) =~= digits);
    if negative {
        Some((0 - acc) as i32)
    } else if acc > 0x7fff_ffff {
        None
    } else {
        Some(acc as i32)
    }
}

/// The texts `parts` in order, with `sep` between neighbours.
pub open spec fn join_texts(parts: Seq<Seq<char>>, sep: Seq<char>) -> Seq<char>
    decreases parts.len(),
{
    if parts.len() == 0 {
        Seq::empty()
    } else if parts.len() == 1 {
        parts[0]
    } else {
        join_texts(parts.drop_last(), sep) + sep + parts.last()
    }
}

/// Joins the strings of `parts` with `sep` between neighbours.
pub fn join(parts: &Vec<String>, sep: &str) -> (r: String)
    ensures
        r@ == join_texts(texts_of(parts@), sep@),
{
    let mut r = String::new();
    let mut i: usize = 0;
    assert(texts_of(parts@).take(0) =~= Seq::empty());
    while i < parts.len()
        invariant
            i <= parts.len(),
            r@ == join_texts(texts_of(parts@).take(i as int), sep@),
        decreases parts.len() - i,
    {
        let ghost front = texts_of(parts@).take(i + 1);
        assert(front.drop_last() =~= texts_of(parts@).take(i as int));
        assert(front.last() == parts@[i as int]@);
        if i > 0 {
            r.append(sep);
        }
        r.append(parts[i].as_str());
        assert(r@ =~= join_texts(front, sep@));
        i += 1;
    }
    assert(texts_of(parts@).take(i as int) =~= texts_of(parts@));
    r
}

/// The parts of `s` between the occurrences of `sep`: one more part than
/// there are occurrences, each free of `sep`.
pub open spec fn pieces(s: Seq<char>, sep: char) -> Seq<Seq<char>>
    decreases s.len(),
{
    if s.len() == 0 {
        seq![Seq::empty()]
    } else {
        let before = pieces(s.drop_last(), sep);
        if s.last() == sep {
            before.push(Seq::empty())
        } else {
            before.drop_last().push(before.last().push(s.last()))
        }
    }
}

/// There is always at least one part.
pub proof fn lemma_pieces_len(s: Seq<char>, sep: char)
    ensures
        pieces(s, sep).len() >= 1,
    decreases s.len(),
{
    if s.len() > 0 {
        lemma_pieces_len(s.drop_last(), sep);
    }
}

/// A text without `sep` is its own single part, and only such a text has
/// a single part.
pub proof fn lemma_pieces_whole(s: Seq<char>, sep: char)
    ensures
        pieces(s, sep).len() == 1 <==> !s.contains(sep),
        !s.contains(sep) ==> pieces(s, sep) == seq![s],
    decreases s.len(),
{
    if s.len() == 0 {
        assert(s =~= Seq::<char>::empty());
        assert(pieces(s, sep) =~= seq![s]);
    } else {
        let front = s.drop_last();
        lemma_pieces_whole(front, sep);
        lemma_pieces_len(front, sep);
        if s.last() == sep {
            assert(s[s.len() - 1] == sep);
        } else {
            if s.contains(sep) {
                let k = choose|k: int| 0 <= k < s.len() && s[k] == sep;
                assert(front[k] == sep);
            }
            if front.contains(sep) {
                let k = choose|k: int| 0 <= k < front.len() && front[k] == sep;
                assert(s[k] == sep);
            }
            if !s.contains(sep) {
                assert(front.push(s.last()) =~= s);
                assert(pieces(s, sep) =~= seq![s]);
            }
        }
    }
}

/// Splits `s` at every occurrence of `sep`.
pub fn split(s: &str, sep: char) -> (r: Vec<String>)
    ensures
        texts_of(r@) == pieces(s@, sep),
{
    let chars = to_chars(s);
    let mut parts: Vec<String> = Vec::new();
    let mut current = String::new();
    let mut i: usize = 0;
    assert(chars@.take(0) =~= Seq::empty());
    assert(texts_of(parts@).push(current@) =~= pieces(chars@.take(0), sep));
    while i < chars.len()
        invariant
            i <= chars.len(),
            texts_of(parts@).push(current@) == pieces(chars@.take(i as int), sep),
        decreases chars.len() - i,
    {
        let c = chars[i];
        let ghost before = pieces(chars@.take(i as int), sep);
        let ghost closed = texts_of(parts@);
        assert(chars@.take(i + 1).drop_last() =~= chars@.take(i as int));
        assert(before.drop_last() =~= closed);
        if c == sep {
            let mut part = String::new();
            core::mem::swap(&mut part, &mut current);
            parts.push(part);
            assert(texts_of(parts@) =~= closed.push(part@));
        } else {
            current.push(c);
        }
        i += 1;
    }
    assert(chars@.take(i as int) =~= chars@);
    let ghost closed = texts_of(parts@);
    parts.push(current);
    assert(texts_of(parts@) =~= closed.push(current@));
    parts
}

} // verus!
