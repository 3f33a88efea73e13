//! Control sequences as a program writes them.

use super::csi::{csi_params, csi_params_from};
use super::model::TerminalModel;
use super::parser::{is_private, CsiParts};
use super::rendition::{more_digits, sgr_groups, sgr_groups_from};
use crate::text::decimal;
use vstd::prelude::*;

verus! {

/// Numbers as they are written, with semicolons between them.
pub open spec fn numbers_text(numbers: Seq<u16>) -> Seq<u8>
    decreases numbers.len(),
{
    if numbers.len() == 0 {
        Seq::empty()
    } else if numbers.len() == 1 {
        decimal(numbers[0] as nat)
    } else {
        decimal(numbers[0] as nat) + (seq![0x3bu8] + numbers_text(numbers.drop_first()))
    }
}

/// A control sequence: `ESC [`, a prefix such as `?`, numbers, bytes between, and the last
/// byte.
pub open spec fn sequence(prefix: Option<u8>, numbers: Seq<u16>, between: Seq<u8>, last: u8) -> Seq<
    u8,
> {
    seq![0x1bu8, 0x5b] + ((match prefix {
        Some(b) => seq![b],
        None => Seq::empty(),
    }) + numbers_text(numbers) + between + seq![last])
}

/// A control sequence with numbers only.
pub open spec fn plain_sequence(numbers: Seq<u16>, last: u8) -> Seq<u8> {
    sequence(None, numbers, Seq::empty(), last)
}

/// A terminal that waits for no rest of a sequence.
pub open spec fn is_ready(m: TerminalModel) -> bool {
    m.pending_escape.len() == 0
}

/// What a terminal is after it was sent some bytes.
pub open spec fn sent(m: TerminalModel, bytes: Seq<u8>) -> TerminalModel {
    m.fed(bytes).0
}

proof fn lemma_digits(n: nat)
    ensures
        decimal(n).len() > 0,
        forall|i: int| 0 <= i < decimal(n).len() ==> 0x30 <= #[trigger] decimal(n)[i] <= 0x39,
        n < 10 ==> decimal(n).len() == 1,
        n < 100 ==> decimal(n).len() <= 2,
        n < 1000 ==> decimal(n).len() <= 3,
        n < 10000 ==> decimal(n).len() <= 4,
        n < 100000 ==> decimal(n).len() <= 5,
    decreases n,
{
    if n >= 10 {
        lemma_digits(n / 10);
    }
}

/// Digits in front of other bytes are read as the number.
pub(crate) proof fn lemma_params_number(n: nat, rest: Seq<u8>, has: bool)
    requires
        n <= 65535,
    ensures
        csi_params_from(decimal(n) + rest, 0, has) == csi_params_from(rest, n as u16, true),
        forall|group: Seq<u16>| #[trigger]
            sgr_groups_from(decimal(n) + rest, group, 0) == sgr_groups_from(rest, group, n as u16),
    decreases n,
{
    let d = (48 + n % 10) as u8;
    if n < 10 {
        let s = decimal(n) + rest;
        assert(s[0] == (48 + n) as u8);
        assert(s.drop_first() =~= rest);
        assert(more_digits(0, s[0]) == n);
    } else {
        let tail = seq![d] + rest;
        lemma_params_number(n / 10, tail, has);
        assert(decimal(n) + rest =~= decimal(n / 10) + tail);
        assert(tail[0] == d);
        assert(tail.drop_first() =~= rest);
        assert((n / 10) * 10 + n % 10 == n);
        assert(more_digits((n / 10) as u16, d) == n);
        assert forall|group: Seq<u16>| #[trigger]
            sgr_groups_from(decimal(n) + rest, group, 0) == sgr_groups_from(
            rest,
            group,
            n as u16,
        ) by {
            assert(sgr_groups_from(decimal(n / 10) + tail, group, 0) == sgr_groups_from(
                tail,
                group,
                (n / 10) as u16,
            ));
        }
    }
}

/// The groups that numbers make, each by itself.
pub open spec fn singles(numbers: Seq<u16>) -> Seq<Seq<u16>> {
    if numbers.len() == 0 {
        seq![seq![0u16]]
    } else {
        Seq::new(numbers.len(), |i: int| seq![numbers[i]])
    }
}

/// Numbers that are written are read back.
pub(crate) proof fn lemma_numbers(numbers: Seq<u16>)
    ensures
        csi_params(numbers_text(numbers)) == numbers,
        sgr_groups(numbers_text(numbers)) == singles(numbers),
    decreases numbers.len(),
{
    reveal_with_fuel(csi_params_from, 2);
    reveal_with_fuel(sgr_groups_from, 2);
    let e = Seq::<u16>::empty();
    if numbers.len() == 0 {
        assert(numbers =~= e);
        assert(e.push(0) =~= seq![0u16]);
    } else if numbers.len() == 1 {
        let n = numbers[0] as nat;
        lemma_params_number(n, Seq::empty(), false);
        assert(decimal(n) + Seq::empty() =~= decimal(n));
        assert(seq![numbers[0]] =~= numbers);
        assert(e.push(numbers[0]) =~= seq![numbers[0]]);
        assert(singles(numbers) =~= seq![seq![numbers[0]]]);
        assert(sgr_groups_from(decimal(n) + Seq::empty(), e, 0) == sgr_groups_from(
            Seq::empty(),
            e,
            numbers[0],
        ));
    } else {
        let n = numbers[0] as nat;
        let rest = numbers.drop_first();
        lemma_numbers(rest);
        let tail = seq![0x3bu8] + numbers_text(rest);
        lemma_params_number(n, tail, false);
        assert(tail[0] == 0x3b);
        assert(tail.drop_first() =~= numbers_text(rest));
        assert(seq![numbers[0]] + rest =~= numbers);
        assert(e.push(numbers[0]) =~= seq![numbers[0]]);
        assert(seq![seq![numbers[0]]] + singles(rest) =~= singles(numbers));
        assert(sgr_groups_from(decimal(n) + tail, e, 0) == sgr_groups_from(tail, e, numbers[0]));
    }
}

proof fn lemma_text_shape(numbers: Seq<u16>)
    ensures
        forall|i: int|
            0 <= i < numbers_text(numbers).len() ==> 0x30 <= #[trigger] numbers_text(numbers)[i]
                <= 0x3b,
        numbers_text(numbers).len() <= 6 * numbers.len(),
        numbers.len() > 0 ==> numbers_text(numbers).len() < 6 * numbers.len(),
    decreases numbers.len(),
{
    if numbers.len() > 0 {
        lemma_digits(numbers[0] as nat);
        lemma_text_shape(numbers.drop_first());
    }
}

proof fn lemma_read_params(parts: CsiParts, data: Seq<u8>, i: int, j: int)
    requires
        0 <= i <= j <= data.len(),
        forall|k: int| i <= k < j ==> 0x30 <= #[trigger] data[k] <= 0x3f,
        parts.params.len() + (j - i) <= 32,
    ensures
        parts.read(data, i) == (CsiParts {
            params: parts.params + data.subrange(i, j),
            ..parts
        }).read(data, j),
    decreases j - i,
{
    if i < j {
        let next = parts.with_param(data[i]);
        lemma_read_params(next, data, i + 1, j);
        assert(next.params + data.subrange(i + 1, j) =~= parts.params + data.subrange(i, j));
    } else {
        assert(parts.params + data.subrange(i, j) =~= parts.params);
    }
}

proof fn lemma_read_between(parts: CsiParts, data: Seq<u8>, i: int, j: int)
    requires
        0 <= i <= j <= data.len(),
        forall|k: int| i <= k < j ==> 0x20 <= #[trigger] data[k] <= 0x2f,
        parts.intermediates.len() + (j - i) <= 8,
    ensures
        parts.read(data, i) == (CsiParts {
            intermediates: parts.intermediates + data.subrange(i, j),
            ..parts
        }).read(data, j),
    decreases j - i,
{
    if i < j {
        let next = parts.with_intermediate(data[i]);
        lemma_read_between(next, data, i + 1, j);
        assert(next.intermediates + data.subrange(i + 1, j) =~= parts.intermediates
            + data.subrange(i, j));
    } else {
        assert(parts.intermediates + data.subrange(i, j) =~= parts.intermediates);
    }
}

/// The bytes of a control sequence.
pub open spec fn raw_sequence(prefix: Option<u8>, text: Seq<u8>, between: Seq<u8>, last: u8) -> Seq<
    u8,
> {
    seq![0x1bu8, 0x5b] + ((match prefix {
        Some(b) => seq![b],
        None => Seq::empty(),
    }) + text + between + seq![last])
}

/// A control sequence is read as its parts.
#[verifier::spinoff_prover]
#[verifier::rlimit(40)]
pub(crate) proof fn lemma_raw_sequence(
    m: TerminalModel,
    prefix: Option<u8>,
    text: Seq<u8>,
    between: Seq<u8>,
    last: u8,
)
    requires
        is_ready(m),
        text.len() <= 31,
        forall|k: int| 0 <= k < text.len() ==> 0x30 <= #[trigger] text[k] <= 0x3b,
        prefix matches Some(b) ==> 0x3c <= b <= 0x3f,
        between.len() <= 8,
        forall|k: int| 0 <= k < between.len() ==> 0x20 <= #[trigger] between[k] <= 0x2f,
        0x40 <= last <= 0x7e,
    ensures
        sent(m, raw_sequence(prefix, text, between, last)) == m.csi(
            csi_params(text),
            text,
            last as char,
            prefix,
            between,
        ),
        m.fed(raw_sequence(prefix, text, between, last)).1.len() == 0,
{
    let lead = match prefix {
        Some(b) => seq![b],
        None => Seq::<u8>::empty(),
    };
    let data = raw_sequence(prefix, text, between, last);
    let params = lead + text;
    let p = 2 + params.len() as int;
    let q = p + between.len();
    assert(m.pending_escape =~= Seq::empty());
    assert(m.with_none_kept() == m);
    assert(m.behind_kept(data) =~= data);
    assert(data.subrange(2, p) =~= params);
    assert(data.subrange(p, q) =~= between);
    assert(data[q] == last);
    assert(data.len() == q + 1);
    assert forall|k: int| 2 <= k < p implies 0x30 <= #[trigger] data[k] <= 0x3f by {
        if k < 2 + lead.len() {
            assert(data[k] == lead[k - 2]);
        } else {
            assert(data[k] == text[k - 2 - lead.len()]);
        }
    }
    assert forall|k: int| p <= k < q implies 0x20 <= #[trigger] data[k] <= 0x2f by {
        assert(data[k] == between[k - p]);
    }
    let start = CsiParts::empty();
    lemma_read_params(start, data, 2, p);
    let read = CsiParts { params: start.params + data.subrange(2, p), ..start };
    assert(read.params =~= params);
    lemma_read_between(read, data, p, q);
    let full = CsiParts { intermediates: read.intermediates + data.subrange(p, q), ..read };
    assert(full.intermediates =~= between);
    assert(full.read(data, q) == Some(CsiParts { end: q, ..full }));
    reveal(TerminalModel::step);
    reveal(TerminalModel::escape_step);
    reveal(TerminalModel::csi_step);
    assert(data[0] == 27 && data[1] == 91);
    let private = params.len() > 0 && is_private(params[0]);
    if prefix is Some {
        assert(params[0] == prefix->0);
        assert(params.drop_first() =~= text);
    } else {
        assert(params =~= text);
        if text.len() > 0 {
            assert(0x30 <= text[0] <= 0x3b);
        }
        assert(!private);
    }
    let after = m.csi(csi_params(text), text, last as char, prefix, between);
    assert(m.step(data, 0) == after.up_to(q + 1));
    reveal_with_fuel(TerminalModel::run, 2);
}

/// A control sequence with numbers is read as its parts.
pub(crate) proof fn lemma_sequence(
    m: TerminalModel,
    prefix: Option<u8>,
    numbers: Seq<u16>,
    between: Seq<u8>,
    last: u8,
)
    requires
        is_ready(m),
        numbers.len() <= 5,
        prefix matches Some(b) ==> 0x3c <= b <= 0x3f,
        between.len() <= 8,
        forall|k: int| 0 <= k < between.len() ==> 0x20 <= #[trigger] between[k] <= 0x2f,
        0x40 <= last <= 0x7e,
    ensures
        sent(m, sequence(prefix, numbers, between, last)) == m.csi(
            numbers,
            numbers_text(numbers),
            last as char,
            prefix,
            between,
        ),
        m.fed(sequence(prefix, numbers, between, last)).1.len() == 0,
{
    lemma_text_shape(numbers);
    lemma_numbers(numbers);
    lemma_raw_sequence(m, prefix, numbers_text(numbers), between, last);
}

/// A terminal that was sent bytes which are read in one step.
pub(crate) proof fn lemma_step_alone(m: TerminalModel, data: Seq<u8>)
    requires
        is_ready(m),
        data.len() > 0,
        m.step(data, 0).next == data.len(),
    ensures
        sent(m, data) == m.step(data, 0).state,
{
    assert(m.pending_escape =~= Seq::empty());
    assert(m.with_none_kept() == m);
    assert(m.behind_kept(data) =~= data);
    reveal_with_fuel(TerminalModel::run, 2);
}

/// A control character is read in one step.
pub(crate) proof fn lemma_control_character(m: TerminalModel, b: u8)
    requires
        is_ready(m),
        b == 8 || b == 9 || b == 10 || b == 13 || b == 14 || b == 15 || b == 7 || b == 127,
    ensures
        sent(m, seq![b]) == m.step(seq![b], 0).state,
        m.step(seq![b], 0).next == 1,
{
    reveal(TerminalModel::step);
    lemma_step_alone(m, seq![b]);
}

/// An escape sequence of two bytes is read in one step.
pub(crate) proof fn lemma_escape(m: TerminalModel, b: u8)
    requires
        is_ready(m),
        b == 0x37 || b == 0x38 || b == 0x44 || b == 0x45 || b == 0x48 || b == 0x4d || b == 0x63,
    ensures
        sent(m, seq![0x1bu8, b]) == m.escape_step(seq![0x1bu8, b], 0).state,
        m.escape_step(seq![0x1bu8, b], 0).next == 2,
{
    reveal(TerminalModel::step);
    reveal(TerminalModel::escape_step);
    lemma_step_alone(m, seq![0x1bu8, b]);
}

} // verus!
