//! How texts are cut and put together again, and how numbers are written and read.

use super::{
    after_prefix, decimal, decimal_text, digit_value, digits_value, find, find_is_first, is_white,
    parse_signed, parse_unsigned, split, split_once, split_unfold, text_le, text_lines, trimmed,
    trimmed_end, trimmed_start, without_return,
};
use vstd::prelude::*;

verus! {

/// Whether a character does not occur in a text.
pub open spec fn is_free_of(s: Seq<char>, c: char) -> bool {
    forall|i: int| 0 <= i < s.len() ==> #[trigger] s[i] != c
}

/// Pieces with a separator between them.
pub open spec fn listed(pieces: Seq<Seq<char>>, sep: char) -> Seq<char>
    decreases pieces.len(),
{
    if pieces.len() == 0 {
        Seq::empty()
    } else if pieces.len() == 1 {
        pieces[0]
    } else {
        pieces[0].push(sep) + listed(pieces.drop_first(), sep)
    }
}

/// The first place of a character that stands right behind a text without it.
pub(crate) proof fn lemma_find_behind(head: Seq<char>, c: char, tail: Seq<char>)
    requires
        is_free_of(head, c),
    ensures
        find(head.push(c) + tail, c, 0) == head.len(),
{
    let s = head.push(c) + tail;
    find_is_first(s, c, 0);
    let at = find(s, c, 0);
    assert(s[head.len() as int] == c);
    if at < head.len() {
        assert(s[at] == head[at]);
    }
}

pub(crate) proof fn lemma_find_none(s: Seq<char>, c: char)
    requires
        is_free_of(s, c),
    ensures
        find(s, c, 0) == s.len(),
{
    find_is_first(s, c, 0);
}

/// What is put together with a separator that does not occur in the pieces is cut into
/// those pieces again.
pub proof fn cutting_undoes_listing(pieces: Seq<Seq<char>>, sep: char)
    requires
        pieces.len() > 0,
        forall|i: int| 0 <= i < pieces.len() ==> is_free_of(#[trigger] pieces[i], sep),
    ensures
        split(listed(pieces, sep), sep) == pieces,
    decreases pieces.len(),
{
    let s = listed(pieces, sep);
    split_unfold(s, sep);
    if pieces.len() == 1 {
        assert(is_free_of(pieces[0], sep));
        lemma_find_none(s, sep);
        assert(seq![s] =~= pieces);
    } else {
        let rest = pieces.drop_first();
        assert forall|i: int| 0 <= i < rest.len() implies is_free_of(#[trigger] rest[i], sep) by {
            assert(is_free_of(pieces[i + 1], sep));
        }
        cutting_undoes_listing(rest, sep);
        assert(is_free_of(pieces[0], sep));
        lemma_find_behind(pieces[0], sep, listed(rest, sep));
        let i = pieces[0].len() as int;
        assert(s.subrange(0, i) =~= pieces[0]);
        assert(s.subrange(i + 1, s.len() as int) =~= listed(rest, sep));
        assert(seq![pieces[0]] + rest =~= pieces);
    }
}

/// A text is cut at the first separator: what stands before it has none.
pub proof fn cutting_once_undoes_joining(head: Seq<char>, sep: char, tail: Seq<char>)
    requires
        is_free_of(head, sep),
    ensures
        split_once(head.push(sep) + tail, sep) == Some((head, tail)),
        split_once(head, sep) is None,
{
    let s = head.push(sep) + tail;
    lemma_find_behind(head, sep, tail);
    lemma_find_none(head, sep);
    assert(s.subrange(0, head.len() as int) =~= head);
    assert(s.subrange(head.len() as int + 1, s.len() as int) =~= tail);
}

/// The digits of a number are digits, the first of them no zero unless it is the only one,
/// and their value is the number.
pub proof fn a_written_number_is_the_number(n: nat)
    ensures
        decimal_text(n).len() > 0,
        digits_value(decimal_text(n), 10) == Some(n),
        forall|i: int| 0 <= i < decimal_text(n).len() ==> '0' <= #[trigger] decimal_text(n)[i] <= '9',
        n > 0 ==> decimal_text(n)[0] != '0',
    decreases n,
{
    reveal_with_fuel(digits_value, 2);
    if n < 10 {
        let s = decimal_text(n);
        assert(s.drop_last() =~= Seq::empty());
        assert(s.last() == (48 + n) as char);
        assert(digit_value(s.last(), 10) == Some(n));
    } else {
        a_written_number_is_the_number(n / 10);
        let s = decimal_text(n);
        assert(s.drop_last() =~= decimal_text(n / 10));
        let d = (48 + n % 10) as char;
        assert(s.last() == d);
        assert(digit_value(d, 10) == Some(n % 10));
        assert((n / 10) * 10 + n % 10 == n);
        assert(s[0] == decimal_text(n / 10)[0]);
    }
}

/// The bytes of a written number are its characters.
pub proof fn a_number_has_the_same_digits_in_bytes(n: nat)
    ensures
        decimal(n).len() == decimal_text(n).len(),
        forall|i: int|
            0 <= i < decimal(n).len() ==> #[trigger] decimal(n)[i] as char == decimal_text(n)[i],
        forall|i: int| 0 <= i < decimal(n).len() ==> 0x30 <= #[trigger] decimal(n)[i] <= 0x39,
    decreases n,
{
    if n >= 10 {
        a_number_has_the_same_digits_in_bytes(n / 10);
    }
}

/// A number that is written is read back, with a sign before it where it has one.
pub proof fn a_written_number_is_read_back(n: nat, max: nat)
    ensures
        n <= max ==> parse_unsigned(decimal_text(n), 10, max) == Some(n),
        n > max ==> parse_unsigned(decimal_text(n), 10, max) is None,
        n <= 0x7fff_ffff ==> parse_signed(decimal_text(n)) == Some(n as int),
        n <= 0x8000_0000 ==> parse_signed(seq!['-'] + decimal_text(n)) == Some(-(n as int)),
        n <= max ==> parse_unsigned(seq!['+'] + decimal_text(n), 10, max) == Some(n),
{
    a_written_number_is_the_number(n);
    let s = decimal_text(n);
    assert('0' <= s[0] <= '9');
    let minus = seq!['-'] + s;
    let plus = seq!['+'] + s;
    assert(minus.subrange(1, minus.len() as int) =~= s);
    assert(plus.subrange(1, plus.len() as int) =~= s);
}

/// A text behind a prefix is what follows it.
pub proof fn a_prefix_is_taken_off(prefix: Seq<char>, rest: Seq<char>)
    ensures
        after_prefix(prefix + rest, prefix) == Some(rest),
{
    let s = prefix + rest;
    assert(s.subrange(0, prefix.len() as int) =~= prefix);
    assert(s.subrange(prefix.len() as int, s.len() as int) =~= rest);
}

/// Texts are ordered by the first character in which they differ, and a text comes before
/// what goes on behind it.
pub proof fn the_first_difference_decides(
    common: Seq<char>,
    a: char,
    b: char,
    x: Seq<char>,
    y: Seq<char>,
)
    requires
        a < b,
    ensures
        text_le(common + seq![a] + x, common + seq![b] + y),
        !text_le(common + seq![b] + y, common + seq![a] + x),
        text_le(common, common + x),
        x.len() > 0 ==> !text_le(common + x, common),
    decreases common.len(),
{
    let p = common + seq![a] + x;
    let q = common + seq![b] + y;
    let longer = common + x;
    if common.len() > 0 {
        let rest = common.drop_first();
        the_first_difference_decides(rest, a, b, x, y);
        assert(p.drop_first() =~= rest + seq![a] + x);
        assert(q.drop_first() =~= rest + seq![b] + y);
        assert(longer.drop_first() =~= rest + x);
    } else {
        assert(p[0] == a && q[0] == b);
        assert(longer =~= x);
    }
}

/// Trimming takes off white space, all of it at both ends, and nothing else.
pub proof fn only_white_space_is_trimmed(s: Seq<char>) -> (ends: (int, int))
    ensures
        0 <= ends.0 <= ends.1 <= s.len(),
        trimmed(s) == s.subrange(ends.0, ends.1),
        forall|i: int| 0 <= i < ends.0 ==> is_white(#[trigger] s[i]),
        forall|i: int| ends.1 <= i < s.len() ==> is_white(#[trigger] s[i]),
        trimmed(s).len() > 0 ==> !is_white(trimmed(s)[0]) && !is_white(trimmed(s).last()),
{
    let a = lemma_start(s);
    let t = trimmed_start(s);
    let n = lemma_end_of(t);
    assert(trimmed(s) =~= s.subrange(a, a + n));
    assert forall|i: int| a + n <= i < s.len() implies is_white(#[trigger] s[i]) by {
        assert(t[i - a] == s[i]);
    }
    if trimmed(s).len() > 0 {
        assert(trimmed(s)[0] == t[0]);
    }
    (a, a + n)
}

proof fn lemma_start(s: Seq<char>) -> (a: int)
    ensures
        0 <= a <= s.len(),
        trimmed_start(s) == s.subrange(a, s.len() as int),
        forall|i: int| 0 <= i < a ==> is_white(#[trigger] s[i]),
        a < s.len() ==> !is_white(s[a]),
    decreases s.len(),
{
    if s.len() > 0 && is_white(s[0]) {
        let rest = s.drop_first();
        let b = lemma_start(rest);
        assert(trimmed_start(s) =~= s.subrange(b + 1, s.len() as int));
        assert forall|i: int| 0 <= i < b + 1 implies is_white(#[trigger] s[i]) by {
            if i > 0 {
                assert(rest[i - 1] == s[i]);
            }
        }
        b + 1
    } else {
        assert(s.subrange(0, s.len() as int) =~= s);
        0
    }
}

proof fn lemma_end_of(s: Seq<char>) -> (n: int)
    ensures
        0 <= n <= s.len(),
        trimmed_end(s) == s.subrange(0, n),
        forall|i: int| n <= i < s.len() ==> is_white(#[trigger] s[i]),
        n > 0 ==> !is_white(s[n - 1]),
    decreases s.len(),
{
    if s.len() > 0 && is_white(s.last()) {
        let init = s.drop_last();
        let n = lemma_end_of(init);
        assert(trimmed_end(s) =~= s.subrange(0, n));
        assert forall|i: int| n <= i < s.len() implies is_white(#[trigger] s[i]) by {
            if i < init.len() {
                assert(init[i] == s[i]);
            }
        }
        n
    } else {
        assert(s.subrange(0, s.len() as int) =~= s);
        s.len() as int
    }
}

/// The lines of a text are what stands between its line feeds: each line that ends with one,
/// with or without a carriage return before it, and what follows.
pub proof fn lines_end_with_line_feeds(line: Seq<char>, rest: Seq<char>)
    requires
        is_free_of(line, '\n'),
        line.len() == 0 || line.last() != '\r',
    ensures
        text_lines(line.push('\n') + rest) == seq![line] + text_lines(rest),
        text_lines(line.push('\r').push('\n') + rest) == seq![line] + text_lines(rest),
        line.len() > 0 ==> text_lines(line) == seq![line],
        text_lines(Seq::empty()).len() == 0,
{
    let plain = line.push('\n') + rest;
    lemma_find_behind(line, '\n', rest);
    assert(plain.subrange(0, line.len() as int) =~= line);
    assert(plain.subrange(line.len() as int + 1, plain.len() as int) =~= rest);
    let returned = line.push('\r');
    let other = returned.push('\n') + rest;
    assert(is_free_of(returned, '\n'));
    lemma_find_behind(returned, '\n', rest);
    assert(other.subrange(0, returned.len() as int) =~= returned);
    assert(other.subrange(returned.len() as int + 1, other.len() as int) =~= rest);
    assert(without_return(returned) =~= line);
    lemma_find_none(line, '\n');
}

} // verus!
