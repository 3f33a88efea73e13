//! Text and numbers as sequences: conversions, splitting, parsing, printing.

use vstd::prelude::*;
use vstd::utf8::{decode_utf8, valid_utf8};

pub mod laws;

verus! {

/// `String::push`: the string grows by one character at its end.
pub assume_specification[ String::push ](s: &mut String, c: char)
    ensures
        final(s)@ == old(s)@.push(c),
;

/// `String::from_utf8`: text comes back if and only if the bytes are valid
/// UTF-8, and it is then the text that the bytes encode.
#[verifier::external_body]
pub(crate) fn utf8_text(bytes: Vec<u8>) -> (text: Option<String>)
    ensures
        text is Some <==> valid_utf8(bytes@),
        text matches Some(s) ==> s@ == decode_utf8(bytes@),
{
    String::from_utf8(bytes).ok()
}

/// The characters of a string.
pub(crate) fn chars_of(s: &str) -> (chars: Vec<char>)
    ensures
        chars@ == s@,
{
    broadcast use vstd::string::axiom_spec_iter;

    let mut chars: Vec<char> = Vec::new();
    for c in it: s.chars()
        invariant
            it.seq() == s@,
            chars@ == s@.subrange(0, it.index() as int),
    {
        chars.push(c);
    }
    proof {
        assert(s@.subrange(0, s@.len() as int) =~= s@);
    }
    chars
}

/// The string made of some characters.
pub(crate) fn string_of(chars: &[char]) -> (s: String)
    ensures
        s@ == chars@,
{
    let mut s = String::new();
    let mut i: usize = 0;
    while i < chars.len()
        invariant
            i <= chars@.len(),
            s@ == chars@.subrange(0, i as int),
        decreases chars@.len() - i,
    {
        s.push(chars[i]);
        i = i + 1;
    }
    proof {
        assert(chars@.subrange(0, i as int) =~= chars@);
    }
    s
}

/// The first position at or after `from` that holds `c`, or the length.
pub open spec fn find(s: Seq<char>, c: char, from: int) -> int
    decreases s.len() - from,
{
    if from >= s.len() {
        s.len() as int
    } else if s[from] == c {
        from
    } else {
        find(s, c, from + 1)
    }
}

/// What [`find`] returns, said of the positions: the result holds `c` (or is the
/// length), and nothing between `from` and it does.
pub proof fn find_is_first(s: Seq<char>, c: char, from: int)
    requires
        0 <= from <= s.len(),
    ensures
        from <= find(s, c, from) <= s.len(),
        find(s, c, from) < s.len() ==> s[find(s, c, from)] == c,
        forall|i: int| from <= i < find(s, c, from) ==> #[trigger] s[i] != c,
    decreases s.len() - from,
{
    if from < s.len() && s[from] != c {
        find_is_first(s, c, from + 1);
    }
}

/// The first position at or after `from` that holds `c`, or the length.
pub(crate) fn find_char(s: &[char], c: char, from: usize) -> (i: usize)
    requires
        from <= s@.len(),
    ensures
        i == find(s@, c, from as int),
        from <= i <= s@.len(),
        i < s@.len() ==> s@[i as int] == c,
{
    let mut i: usize = from;
    while i < s.len() && s[i] != c
        invariant
            from <= i <= s@.len(),
            find(s@, c, i as int) == find(s@, c, from as int),
        decreases s@.len() - i,
    {
        i = i + 1;
    }
    i
}

/// A text cut at the first `sep`: what stands before it and what stands behind
/// it. Nothing where `sep` does not occur.
pub open spec fn split_once(s: Seq<char>, sep: char) -> Option<(Seq<char>, Seq<char>)> {
    let i = find(s, sep, 0);
    if i < s.len() {
        Some((s.subrange(0, i), s.subrange(i + 1, s.len() as int)))
    } else {
        None
    }
}

pub(crate) fn cut_at<'a>(s: &'a [char], sep: char) -> (parts: Option<(&'a [char], &'a [char])>)
    ensures
        parts is Some <==> split_once(s@, sep) is Some,
        parts matches Some(p) ==> split_once(s@, sep) == Some((p.0@, p.1@)),
{
    let i: usize = find_char(s, sep, 0);
    if i < s.len() {
        Some(
            (
                vstd::slice::slice_subrange(s, 0, i),
                vstd::slice::slice_subrange(s, i + 1, s.len()),
            ),
        )
    } else {
        None
    }
}

/// A text cut at every `sep`: always at least one piece.
pub open spec fn split(s: Seq<char>, sep: char) -> Seq<Seq<char>>
    decreases s.len(),
{
    let i = find(s, sep, 0);
    if 0 <= i < s.len() {
        seq![s.subrange(0, i)] + split(s.subrange(i + 1, s.len() as int), sep)
    } else {
        seq![s]
    }
}

pub(crate) proof fn split_unfold(s: Seq<char>, sep: char)
    ensures
        ({
            let i = find(s, sep, 0);
            &&& 0 <= i <= s.len()
            &&& i < s.len() ==> split(s, sep) == seq![s.subrange(0, i)] + split(
                s.subrange(i + 1, s.len() as int),
                sep,
            )
            &&& i >= s.len() ==> split(s, sep) == seq![s]
        }),
{
    find_is_first(s, sep, 0);
}

pub(crate) fn split_chars<'a>(s: &'a [char], sep: char) -> (parts: Vec<&'a [char]>)
    ensures
        parts@.len() == split(s@, sep).len(),
        parts@.len() >= 1,
        forall|i: int| 0 <= i < parts@.len() ==> (#[trigger] parts@[i])@ == split(s@, sep)[i],
{
    let mut parts: Vec<&'a [char]> = Vec::new();
    let mut rest: &'a [char] = s;
    let ghost mut done: Seq<Seq<char>> = Seq::empty();
    proof {
        assert(done + split(s@, sep) =~= split(s@, sep));
    }
    loop
        invariant
            parts@.len() == done.len(),
            forall|i: int| 0 <= i < parts@.len() ==> (#[trigger] parts@[i])@ == done[i],
            done + split(rest@, sep) == split(s@, sep),
        decreases rest@.len(),
    {
        proof {
            split_unfold(rest@, sep);
        }
        let i: usize = find_char(rest, sep, 0);
        if i < rest.len() {
            let head = vstd::slice::slice_subrange(rest, 0, i);
            let tail = vstd::slice::slice_subrange(rest, i + 1, rest.len());
            parts.push(head);
            proof {
                assert(done + (seq![head@] + split(tail@, sep)) =~= done.push(head@) + split(
                    tail@,
                    sep,
                ));
                done = done.push(head@);
            }
            rest = tail;
        } else {
            parts.push(rest);
            proof {
                assert(done + seq![rest@] =~= done.push(rest@));
            }
            return parts;
        }
    }
}

/// Whether two texts are the same.
pub(crate) fn same_chars(a: &[char], b: &[char]) -> (v: bool)
    ensures
        v == (a@ == b@),
{
    if a.len() != b.len() {
        return false;
    }
    let mut i: usize = 0;
    while i < a.len()
        invariant
            i <= a@.len() == b@.len(),
            forall|k: int| 0 <= k < i ==> a@[k] == b@[k],
        decreases a@.len() - i,
    {
        if a[i] != b[i] {
            return false;
        }
        i = i + 1;
    }
    proof {
        assert(a@ =~= b@);
    }
    true
}

/// Whether a text is the given literal.
pub(crate) fn is_text(s: &[char], literal: &str) -> (v: bool)
    ensures
        v == (s@ == literal@),
{
    let chars = chars_of(literal);
    same_chars(s, chars.as_slice())
}

/// Whether two strings hold the same text.
pub(crate) fn same_text(a: &str, b: &str) -> (v: bool)
    ensures
        v == (a@ == b@),
{
    let x = chars_of(a);
    let y = chars_of(b);
    same_chars(x.as_slice(), y.as_slice())
}

/// What follows a prefix, if the text starts with it.
pub open spec fn after_prefix(s: Seq<char>, prefix: Seq<char>) -> Option<Seq<char>> {
    if prefix.is_prefix_of(s) {
        Some(s.subrange(prefix.len() as int, s.len() as int))
    } else {
        None
    }
}

pub(crate) fn strip_prefix<'a>(s: &'a [char], prefix: &str) -> (rest: Option<&'a [char]>)
    ensures
        rest is Some <==> after_prefix(s@, prefix@) is Some,
        rest matches Some(r) ==> after_prefix(s@, prefix@) == Some(r@),
{
    let p = chars_of(prefix);
    if p.len() > s.len() {
        return None;
    }
    let mut i: usize = 0;
    while i < p.len()
        invariant
            p@ == prefix@,
            i <= p@.len() <= s@.len(),
            forall|k: int| 0 <= k < i ==> p@[k] == s@[k],
        decreases p@.len() - i,
    {
        if p[i] != s[i] {
            proof {
                assert(s@.subrange(0, p@.len() as int)[i as int] == s@[i as int]);
            }
            return None;
        }
        i = i + 1;
    }
    proof {
        assert(p@ =~= s@.subrange(0, p@.len() as int));
    }
    Some(vstd::slice::slice_subrange(s, p.len(), s.len()))
}

/// The value of a digit in a base up to sixteen, upper or lower case.
pub open spec fn digit_value(c: char, base: nat) -> Option<nat> {
    let v: int = if '0' <= c <= '9' {
        c as int - 48
    } else if 'a' <= c <= 'f' {
        c as int - 87
    } else if 'A' <= c <= 'F' {
        c as int - 55
    } else {
        99
    };
    if v < base {
        Some(v as nat)
    } else {
        None
    }
}

/// The value of a run of digits; nothing where one of them is not a digit.
pub open spec fn digits_value(s: Seq<char>, base: nat) -> Option<nat>
    decreases s.len(),
{
    if s.len() == 0 {
        Some(0)
    } else {
        match (digits_value(s.drop_last(), base), digit_value(s.last(), base)) {
            (Some(high), Some(low)) => Some(high * base + low),
            _ => None,
        }
    }
}

/// An unsigned number no larger than `max`: an optional `+`, then at least one digit.
pub open spec fn parse_unsigned(s: Seq<char>, base: nat, max: nat) -> Option<nat> {
    let digits = if s.len() > 0 && s[0] == '+' {
        s.subrange(1, s.len() as int)
    } else {
        s
    };
    match digits_value(digits, base) {
        Some(v) => if digits.len() > 0 && v <= max {
            Some(v)
        } else {
            None
        },
        None => None,
    }
}

/// A signed 32-bit number: an optional sign, then at least one digit.
pub open spec fn parse_signed(s: Seq<char>) -> Option<int> {
    if s.len() > 0 && s[0] == '-' {
        let digits = s.subrange(1, s.len() as int);
        match digits_value(digits, 10) {
            Some(v) => if digits.len() > 0 && v <= 0x8000_0000 {
                Some(-(v as int))
            } else {
                None
            },
            None => None,
        }
    } else {
        match parse_unsigned(s, 10, 0x7fff_ffff) {
            Some(v) => Some(v as int),
            None => None,
        }
    }
}

fn digit_of(c: char, base: u64) -> (d: Option<u64>)
    requires
        base == 10 || base == 16,
    ensures
        d is Some <==> digit_value(c, base as nat) is Some,
        d matches Some(v) ==> digit_value(c, base as nat) == Some(v as nat) && v < base,
{
    let v: u64 = if '0' <= c && c <= '9' {
        (c as u32 - 48) as u64
    } else if 'a' <= c && c <= 'f' {
        (c as u32 - 87) as u64
    } else if 'A' <= c && c <= 'F' {
        (c as u32 - 55) as u64
    } else {
        99
    };
    if v < base {
        Some(v)
    } else {
        None
    }
}

/// A prefix that is no number, or is larger than `max`, stays so.
proof fn lemma_digits_prefix(s: Seq<char>, base: nat, n: int, max: nat)
    requires
        0 <= n <= s.len(),
        base >= 1,
        digits_value(s.subrange(0, n), base) matches Some(v) ==> v > max,
    ensures
        digits_value(s, base) matches Some(v) ==> v > max,
    decreases s.len() - n,
{
    if n == s.len() {
        assert(s.subrange(0, n) =~= s);
    } else {
        let t = s.subrange(0, n + 1);
        assert(t.drop_last() =~= s.subrange(0, n));
        match (digits_value(t.drop_last(), base), digit_value(t.last(), base)) {
            (Some(high), Some(low)) => {
                assert(high * base + low > max) by (nonlinear_arith)
                    requires
                        high > max,
                        base >= 1,
                        low >= 0,
                ;
            },
            _ => {},
        }
        lemma_digits_prefix(s, base, n + 1, max);
    }
}

fn parse_digits(s: &[char], base: u64, max: u64) -> (v: Option<u64>)
    requires
        base == 10 || base == 16,
        max <= 0xffff_ffff,
    ensures
        v matches Some(x) ==> x <= max && digits_value(s@, base as nat) == Some(x as nat),
        v is None ==> (digits_value(s@, base as nat) matches Some(x) ==> x > max),
{
    let mut value: u64 = 0;
    let mut i: usize = 0;
    while i < s.len()
        invariant
            i <= s@.len(),
            base == 10 || base == 16,
            value <= max <= 0xffff_ffff,
            digits_value(s@.subrange(0, i as int), base as nat) == Some(value as nat),
        decreases s@.len() - i,
    {
        proof {
            assert(s@.subrange(0, i + 1).drop_last() =~= s@.subrange(0, i as int));
            assert(value * base <= 0xffff_ffff * 16) by (nonlinear_arith)
                requires
                    value <= 0xffff_ffff,
                    base <= 16,
            ;
        }
        match digit_of(s[i], base) {
            None => {
                proof {
                    lemma_digits_prefix(s@, base as nat, i + 1, max as nat);
                }
                return None;
            },
            Some(d) => {
                let next: u64 = value * base + d;
                if next > max {
                    proof {
                        lemma_digits_prefix(s@, base as nat, i + 1, max as nat);
                    }
                    return None;
                }
                value = next;
            },
        }
        i = i + 1;
    }
    proof {
        assert(s@.subrange(0, i as int) =~= s@);
    }
    Some(value)
}

pub(crate) fn parse_number(s: &[char], base: u64, max: u64) -> (v: Option<u64>)
    requires
        base == 10 || base == 16,
        max <= 0xffff_ffff,
    ensures
        v is Some <==> parse_unsigned(s@, base as nat, max as nat) is Some,
        v matches Some(x) ==> x <= max && parse_unsigned(s@, base as nat, max as nat) == Some(
            x as nat,
        ),
{
    let digits = if s.len() > 0 && s[0] == '+' {
        vstd::slice::slice_subrange(s, 1, s.len())
    } else {
        s
    };
    if digits.len() == 0 {
        return None;
    }
    parse_digits(digits, base, max)
}

/// An unsigned decimal number of 32 bits.
pub(crate) fn parse_u32(s: &[char]) -> (v: Option<u32>)
    ensures
        v is Some <==> parse_unsigned(s@, 10, 0xffff_ffff) is Some,
        v matches Some(x) ==> parse_unsigned(s@, 10, 0xffff_ffff) == Some(x as nat),
{
    match parse_number(s, 10, 0xffff_ffff) {
        Some(x) => Some(x as u32),
        None => None,
    }
}

/// A signed decimal number of 32 bits.
pub(crate) fn parse_i32(s: &[char]) -> (v: Option<i32>)
    ensures
        v is Some <==> parse_signed(s@) is Some,
        v matches Some(x) ==> parse_signed(s@) == Some(x as int),
{
    if s.len() > 0 && s[0] == '-' {
        let digits = vstd::slice::slice_subrange(s, 1, s.len());
        if digits.len() == 0 {
            return None;
        }
        match parse_digits(digits, 10, 0x8000_0000) {
            Some(x) => Some((-(x as i64)) as i32),
            None => None,
        }
    } else {
        match parse_number(s, 10, 0x7fff_ffff) {
            Some(x) => Some(x as i32),
            None => None,
        }
    }
}

/// The decimal digits of a number, as ASCII bytes.
pub open spec fn decimal(n: nat) -> Seq<u8>
    decreases n,
{
    if n < 10 {
        seq![(48 + n) as u8]
    } else {
        decimal(n / 10).push((48 + n % 10) as u8)
    }
}

/// Appends the decimal digits of `n`.
pub(crate) fn push_decimal(buf: &mut Vec<u8>, n: u64)
    ensures
        final(buf)@ == old(buf)@ + decimal(n as nat),
    decreases n,
{
    if n >= 10 {
        push_decimal(buf, n / 10);
        proof {
            assert(buf@.push((48 + n % 10) as u8) =~= old(buf)@ + decimal(n as nat));
        }
        buf.push(48 + (n % 10) as u8);
    } else {
        proof {
            assert(buf@.push((48 + n) as u8) =~= old(buf)@ + decimal(n as nat));
        }
        buf.push(48 + n as u8);
    }
}

/// The decimal digits of a number, as characters.
pub open spec fn decimal_text(n: nat) -> Seq<char>
    decreases n,
{
    if n < 10 {
        seq![(48 + n) as char]
    } else {
        decimal_text(n / 10).push((48 + n % 10) as char)
    }
}

/// Appends the decimal digits of `n` to a string.
pub(crate) fn append_decimal(s: &mut String, n: u64)
    ensures
        final(s)@ == old(s)@ + decimal_text(n as nat),
    decreases n,
{
    let digit: u8 = 48 + (n % 10) as u8;
    if n >= 10 {
        append_decimal(s, n / 10);
    }
    proof {
        assert(s@.push(digit as char) =~= old(s)@ + decimal_text(n as nat));
    }
    s.push(digit as char);
}

/// Appends some characters to a string.
pub(crate) fn append_chars(s: &mut String, chars: &[char])
    ensures
        final(s)@ == old(s)@ + chars@,
{
    let mut i: usize = 0;
    while i < chars.len()
        invariant
            i <= chars@.len(),
            s@ == old(s)@ + chars@.subrange(0, i as int),
        decreases chars@.len() - i,
    {
        proof {
            assert((old(s)@ + chars@.subrange(0, i as int)).push(chars@[i as int]) =~= old(s)@
                + chars@.subrange(0, i + 1));
        }
        s.push(chars[i]);
        i = i + 1;
    }
    proof {
        assert(chars@.subrange(0, i as int) =~= chars@);
    }
}

/// Appends a text to a string.
pub(crate) fn append_text(s: &mut String, text: &str)
    ensures
        final(s)@ == old(s)@ + text@,
{
    let chars = chars_of(text);
    append_chars(s, chars.as_slice());
}

/// A string with the given text.
pub(crate) fn owned(text: &str) -> (s: String)
    ensures
        s@ == text@,
{
    let chars = chars_of(text);
    string_of(chars.as_slice())
}

/// Two texts, one behind the other.
pub(crate) fn joined(a: &str, b: &[char]) -> (s: String)
    ensures
        s@ == a@ + b@,
{
    let mut s = owned(a);
    append_chars(&mut s, b);
    s
}

/// One lower-case hexadecimal digit, as an ASCII byte.
pub open spec fn hex_digit(v: nat) -> u8 {
    if v < 10 {
        (48 + v) as u8
    } else {
        (87 + v) as u8
    }
}

/// Four lower-case hexadecimal digits.
pub open spec fn hex4(n: nat) -> Seq<u8> {
    seq![
        hex_digit((n / 4096) % 16),
        hex_digit((n / 256) % 16),
        hex_digit((n / 16) % 16),
        hex_digit(n % 16),
    ]
}

fn hex_digit_of(v: u16) -> (d: u8)
    requires
        v < 16,
    ensures
        d == hex_digit(v as nat),
{
    if v < 10 {
        48 + v as u8
    } else {
        87 + v as u8
    }
}

/// Appends the four hexadecimal digits of `n`.
pub(crate) fn push_hex4(buf: &mut Vec<u8>, n: u16)
    ensures
        final(buf)@ == old(buf)@ + hex4(n as nat),
{
    buf.push(hex_digit_of((n / 4096) % 16));
    buf.push(hex_digit_of((n / 256) % 16));
    buf.push(hex_digit_of((n / 16) % 16));
    buf.push(hex_digit_of(n % 16));
    proof {
        assert(buf@ =~= old(buf)@ + hex4(n as nat));
    }
}

/// Appends some bytes.
pub(crate) fn push_bytes(buf: &mut Vec<u8>, bytes: &[u8])
    ensures
        final(buf)@ == old(buf)@ + bytes@,
{
    let mut i: usize = 0;
    while i < bytes.len()
        invariant
            i <= bytes@.len(),
            buf@ == old(buf)@ + bytes@.subrange(0, i as int),
        decreases bytes@.len() - i,
    {
        proof {
            assert((old(buf)@ + bytes@.subrange(0, i as int)).push(bytes@[i as int]) =~= old(buf)@
                + bytes@.subrange(0, i + 1));
        }
        buf.push(bytes[i]);
        i = i + 1;
    }
    proof {
        assert(bytes@.subrange(0, i as int) =~= bytes@);
    }
}

/// Appends the UTF-8 bytes of a text.
pub(crate) fn push_text(buf: &mut Vec<u8>, text: &str)
    ensures
        final(buf)@ == old(buf)@ + vstd::utf8::encode_utf8(text@),
{
    push_bytes(buf, text.as_bytes());
}

/// A copy of some bytes.
pub(crate) fn copy_bytes(bytes: &[u8]) -> (copy: Vec<u8>)
    ensures
        copy@ == bytes@,
{
    let mut copy: Vec<u8> = Vec::new();
    push_bytes(&mut copy, bytes);
    proof {
        assert(Seq::<u8>::empty() + bytes@ =~= bytes@);
    }
    copy
}

/// Whether `part` stands at position `i`.
pub open spec fn occurs_at(s: Seq<char>, part: Seq<char>, i: int) -> bool {
    0 <= i && i + part.len() <= s.len() && s.subrange(i, i + part.len()) == part
}

/// The first position at or after `from` at which `part` stands, if there is one.
pub open spec fn find_part(s: Seq<char>, part: Seq<char>, from: int) -> Option<int>
    decreases s.len() + 1 - from,
{
    if from < 0 || from + part.len() > s.len() {
        None
    } else if occurs_at(s, part, from) {
        Some(from)
    } else {
        find_part(s, part, from + 1)
    }
}

/// What [`find_part`] returns, said of the positions: `part` stands at the result and
/// nowhere between `from` and it; where there is none, nowhere at or after `from`.
pub proof fn find_part_is_first(s: Seq<char>, part: Seq<char>, from: int)
    requires
        0 <= from,
    ensures
        find_part(s, part, from) matches Some(i) ==> from <= i && occurs_at(s, part, i) && forall|
            k: int,
        |
            from <= k < i ==> !#[trigger] occurs_at(s, part, k),
        find_part(s, part, from) is None ==> forall|k: int|
            from <= k ==> !#[trigger] occurs_at(s, part, k),
    decreases s.len() + 1 - from,
{
    if from + part.len() <= s.len() && !occurs_at(s, part, from) {
        find_part_is_first(s, part, from + 1);
    }
}

/// Whether `part` stands at position `i`.
fn is_at(s: &[char], part: &[char], i: usize) -> (v: bool)
    requires
        i + part@.len() <= s@.len(),
    ensures
        v == occurs_at(s@, part@, i as int),
{
    let end: usize = s.len();
    let mut k: usize = 0;
    while k < part.len()
        invariant
            i + part@.len() <= s@.len() == end,
            k <= part@.len(),
            forall|j: int| 0 <= j < k ==> s@[i + j] == #[trigger] part@[j],
        decreases part@.len() - k,
    {
        if s[i + k] != part[k] {
            proof {
                assert(s@.subrange(i as int, i + part@.len())[k as int] == s@[i + k]);
            }
            return false;
        }
        k = k + 1;
    }
    proof {
        assert(s@.subrange(i as int, i + part@.len()) =~= part@);
    }
    true
}

/// The first position at or after `from` at which `part` stands.
pub(crate) fn find_text(s: &[char], part: &[char], from: usize) -> (at: Option<usize>)
    requires
        from <= s@.len(),
    ensures
        at is Some <==> find_part(s@, part@, from as int) is Some,
        at matches Some(i) ==> find_part(s@, part@, from as int) == Some(i as int) && from <= i && i
            + part@.len() <= s@.len(),
{
    let mut i: usize = from;
    while i <= s.len() && s.len() - i >= part.len()
        invariant
            from <= i,
            i <= s@.len() + 1,
            find_part(s@, part@, i as int) == find_part(s@, part@, from as int),
        decreases s@.len() + 1 - i,
    {
        if is_at(s, part, i) {
            return Some(i);
        }
        if i == s.len() {
            proof {
                assert(find_part(s@, part@, i + 1) is None);
            }
            return None;
        }
        i = i + 1;
    }
    None
}

/// Whether a text holds `part`.
pub(crate) fn holds_text(s: &[char], part: &str) -> (v: bool)
    ensures
        v == (find_part(s@, part@, 0) is Some),
{
    let chars = chars_of(part);
    find_text(s, chars.as_slice(), 0).is_some()
}

/// Whether a text starts with `prefix`.
pub(crate) fn starts_with(s: &[char], prefix: &str) -> (v: bool)
    ensures
        v == prefix@.is_prefix_of(s@),
{
    strip_prefix(s, prefix).is_some()
}

/// How often a character occurs.
pub open spec fn occurrences(s: Seq<char>, c: char) -> nat
    decreases s.len(),
{
    if s.len() == 0 {
        0
    } else {
        occurrences(s.drop_last(), c) + (if s.last() == c {
            1nat
        } else {
            0nat
        })
    }
}

pub(crate) fn count_char(s: &[char], c: char) -> (n: usize)
    ensures
        n == occurrences(s@, c),
{
    let mut n: usize = 0;
    let mut i: usize = 0;
    while i < s.len()
        invariant
            n <= i <= s@.len(),
            n == occurrences(s@.subrange(0, i as int), c),
        decreases s@.len() - i,
    {
        proof {
            assert(s@.subrange(0, i + 1).drop_last() =~= s@.subrange(0, i as int));
        }
        if s[i] == c {
            n = n + 1;
        }
        i = i + 1;
    }
    proof {
        assert(s@.subrange(0, i as int) =~= s@);
    }
    n
}

/// Whether a character has Unicode's property `White_Space`.
pub open spec fn is_white(c: char) -> bool {
    let n = c as u32;
    9 <= n <= 13 || n == 0x20 || n == 0x85 || n == 0xA0 || n == 0x1680 || 0x2000 <= n <= 0x200A
        || n == 0x2028 || n == 0x2029 || n == 0x202F || n == 0x205F || n == 0x3000
}

fn is_whitespace(c: char) -> (v: bool)
    ensures
        v == is_white(c),
{
    let n: u32 = c as u32;
    (9 <= n && n <= 13) || n == 0x20 || n == 0x85 || n == 0xA0 || n == 0x1680 || (0x2000 <= n && n
        <= 0x200A) || n == 0x2028 || n == 0x2029 || n == 0x202F || n == 0x205F || n == 0x3000
}

/// A text without the white space at its start.
pub open spec fn trimmed_start(s: Seq<char>) -> Seq<char>
    decreases s.len(),
{
    if s.len() > 0 && is_white(s[0]) {
        trimmed_start(s.drop_first())
    } else {
        s
    }
}

/// A text without the white space at its end.
pub open spec fn trimmed_end(s: Seq<char>) -> Seq<char>
    decreases s.len(),
{
    if s.len() > 0 && is_white(s.last()) {
        trimmed_end(s.drop_last())
    } else {
        s
    }
}

/// A text without the white space around it.
pub open spec fn trimmed(s: Seq<char>) -> Seq<char> {
    trimmed_end(trimmed_start(s))
}

proof fn lemma_trimmed_start(s: Seq<char>)
    ensures
        trimmed_start(s).len() <= s.len(),
        trimmed_start(s).len() > 0 ==> !is_white(trimmed_start(s)[0]),
    decreases s.len(),
{
    if s.len() > 0 && is_white(s[0]) {
        lemma_trimmed_start(s.drop_first());
    }
}

proof fn lemma_trimmed_end(s: Seq<char>)
    ensures
        trimmed_end(s).len() <= s.len(),
        trimmed_end(s).len() > 0 ==> trimmed_end(s)[0] == s[0] && !is_white(trimmed_end(s).last()),
    decreases s.len(),
{
    if s.len() > 0 && is_white(s.last()) {
        lemma_trimmed_end(s.drop_last());
    }
}

/// A trimmed text has no white space around it, and trimming it again changes nothing.
pub proof fn trimming_is_idempotent(s: Seq<char>)
    ensures
        trimmed(s).len() <= s.len(),
        trimmed(s).len() > 0 ==> !is_white(trimmed(s)[0]) && !is_white(trimmed(s).last()),
        trimmed(trimmed(s)) == trimmed(s),
{
    lemma_trimmed_start(s);
    lemma_trimmed_end(trimmed_start(s));
}

pub(crate) fn trim_start<'a>(s: &'a [char]) -> (rest: &'a [char])
    ensures
        rest@ == trimmed_start(s@),
        rest@.len() <= s@.len(),
        rest@ == s@.subrange(s@.len() - rest@.len(), s@.len() as int),
{
    let mut i: usize = 0;
    proof {
        assert(s@.subrange(0, s@.len() as int) =~= s@);
    }
    while i < s.len() && is_whitespace(s[i])
        invariant
            i <= s@.len(),
            trimmed_start(s@.subrange(i as int, s@.len() as int)) == trimmed_start(s@),
        decreases s@.len() - i,
    {
        proof {
            assert(s@.subrange(i as int, s@.len() as int).drop_first() =~= s@.subrange(
                i + 1,
                s@.len() as int,
            ));
        }
        i = i + 1;
    }
    vstd::slice::slice_subrange(s, i, s.len())
}

pub(crate) fn trim_end<'a>(s: &'a [char]) -> (rest: &'a [char])
    ensures
        rest@ == trimmed_end(s@),
        rest@.len() <= s@.len(),
        rest@ == s@.subrange(0, rest@.len() as int),
{
    let mut end: usize = s.len();
    proof {
        assert(s@.subrange(0, end as int) =~= s@);
    }
    while end > 0 && is_whitespace(s[end - 1])
        invariant
            end <= s@.len(),
            trimmed_end(s@.subrange(0, end as int)) == trimmed_end(s@),
        decreases end,
    {
        proof {
            assert(s@.subrange(0, end as int).drop_last() =~= s@.subrange(0, end - 1));
        }
        end = end - 1;
    }
    vstd::slice::slice_subrange(s, 0, end)
}

pub(crate) fn trim<'a>(s: &'a [char]) -> (rest: &'a [char])
    ensures
        rest@ == trimmed(s@),
        rest@.len() <= s@.len(),
{
    trim_end(trim_start(s))
}

/// Whether a text comes before another in the order of its characters, or is it.
pub open spec fn text_le(a: Seq<char>, b: Seq<char>) -> bool
    decreases a.len(),
{
    if a.len() == 0 {
        true
    } else if b.len() == 0 {
        false
    } else if a[0] != b[0] {
        a[0] < b[0]
    } else {
        text_le(a.drop_first(), b.drop_first())
    }
}

/// The order of texts is total and transitive, and texts that come before each other
/// are the same.
pub proof fn text_order(a: Seq<char>, b: Seq<char>, c: Seq<char>)
    ensures
        text_le(a, b) || text_le(b, a),
        text_le(a, b) && text_le(b, a) ==> a == b,
        text_le(a, b) && text_le(b, c) ==> text_le(a, c),
    decreases a.len() + b.len() + c.len(),
{
    if a.len() > 0 && b.len() > 0 && c.len() > 0 {
        text_order(a.drop_first(), b.drop_first(), c.drop_first());
    } else if a.len() > 0 && b.len() > 0 {
        text_order(a.drop_first(), b.drop_first(), c);
    }
    if text_le(a, b) && text_le(b, a) {
        if a.len() == 0 || b.len() == 0 {
            assert(a =~= b);
        } else {
            assert(a.drop_first() == b.drop_first());
            assert(a =~= seq![a[0]] + a.drop_first());
            assert(b =~= seq![b[0]] + b.drop_first());
        }
    }
}

/// Whether a text comes before another, or is it.
pub(crate) fn is_text_le(a: &str, b: &str) -> (v: bool)
    ensures
        v == text_le(a@, b@),
{
    let x = chars_of(a);
    let y = chars_of(b);
    let mut i: usize = 0;
    proof {
        assert(x@.subrange(0, x@.len() as int) =~= x@);
        assert(y@.subrange(0, y@.len() as int) =~= y@);
    }
    while i < x.len()
        invariant
            i <= x@.len(),
            i <= y@.len(),
            text_le(
                x@.subrange(i as int, x@.len() as int),
                y@.subrange(i as int, y@.len() as int),
            ) == text_le(a@, b@),
        decreases x@.len() - i,
    {
        let ghost p = x@.subrange(i as int, x@.len() as int);
        let ghost q = y@.subrange(i as int, y@.len() as int);
        if i >= y.len() {
            return false;
        }
        if x[i] != y[i] {
            return x[i] < y[i];
        }
        proof {
            assert(p.drop_first() =~= x@.subrange(i + 1, x@.len() as int));
            assert(q.drop_first() =~= y@.subrange(i + 1, y@.len() as int));
        }
        i = i + 1;
    }
    true
}

/// The texts of some strings.
pub open spec fn texts(lines: Seq<String>) -> Seq<Seq<char>> {
    Seq::new(lines.len(), |i: int| lines[i]@)
}

/// The lines of a text. A line ends with a line feed, which a carriage return may
/// come before; the last one may also end with the text.
pub open spec fn text_lines(s: Seq<char>) -> Seq<Seq<char>>
    decreases s.len(),
{
    let end = find(s, '\n', 0);
    if 0 <= end < s.len() {
        seq![without_return(s.subrange(0, end))] + text_lines(
            s.subrange(end + 1, s.len() as int),
        )
    } else if s.len() > 0 {
        seq![s]
    } else {
        Seq::empty()
    }
}

/// A line without the carriage return at its end.
pub open spec fn without_return(line: Seq<char>) -> Seq<char> {
    if line.len() > 0 && line.last() == '\r' {
        line.drop_last()
    } else {
        line
    }
}

/// The lines of a text.
pub(crate) fn split_lines(text: &[char]) -> (lines: Vec<String>)
    ensures
        texts(lines@) == text_lines(text@),
{
    let mut lines: Vec<String> = Vec::new();
    let mut rest: &[char] = text;
    proof {
        assert(texts(lines@) + text_lines(text@) =~= text_lines(text@));
    }
    loop
        invariant
            texts(lines@) + text_lines(rest@) == text_lines(text@),
        decreases rest@.len(),
    {
        let ghost done = texts(lines@);
        let end: usize = find_char(rest, '\n', 0);
        if end < rest.len() {
            let line_end: usize = if end > 0 && rest[end - 1] == '\r' {
                end - 1
            } else {
                end
            };
            let line = string_of(vstd::slice::slice_subrange(rest, 0, line_end));
            let tail = vstd::slice::slice_subrange(rest, end + 1, rest.len());
            proof {
                let raw = rest@.subrange(0, end as int);
                assert(line@ =~= without_return(raw));
                assert(done + (seq![line@] + text_lines(tail@)) =~= done.push(line@) + text_lines(
                    tail@,
                ));
            }
            lines.push(line);
            proof {
                assert(texts(lines@) =~= done.push(line@));
            }
            rest = tail;
        } else {
            if rest.len() > 0 {
                let line = string_of(rest);
                lines.push(line);
                proof {
                    assert(texts(lines@) =~= done.push(line@));
                    assert(done + seq![line@] =~= done.push(line@));
                }
            } else {
                proof {
                    assert(done + Seq::<Seq<char>>::empty() =~= done);
                }
            }
            return lines;
        }
    }
}

} // verus!
