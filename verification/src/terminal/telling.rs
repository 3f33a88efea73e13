//! What a program tells the terminal beside the screen, and what it is told in return.

use super::attributes::modes_are_switched;
use super::laws::lemma_encoded;
use super::model::TerminalModel;
use super::moves::lemma_ascii;
use super::osc::{color_reply, first_id, parse_color};
use super::parser::{has_action, osc_end_at, string_end_at, Step};
use super::sequences::{is_ready, lemma_sequence, lemma_step_alone, plain_sequence, sent, sequence};
use super::types::{Charset, ZoneState};
use crate::outside::base64_decoding;
use crate::text::laws::{
    a_prefix_is_taken_off, a_written_number_is_read_back, cutting_once_undoes_joining, is_free_of,
};
use crate::text::{decimal, decimal_text, digits_value, hex4, split};
use vstd::prelude::*;
use vstd::utf8::{
    char_is_scalar, char_u32_cast, encode_scalar, encode_utf8, encode_utf8_decode_utf8, encode_utf8_valid_utf8,
    is_ascii_chars, is_ascii_chars_encode_utf8,
};

verus! {

/// A text without the characters that end an operating system command.
pub open spec fn is_quiet(text: Seq<char>) -> bool {
    is_free_of(text, '\x07') && is_free_of(text, '\x1b')
}

/// An operating system command: `ESC ]`, its text, and a bell or `ESC \`.
pub open spec fn command_bytes(text: Seq<char>, bell: bool) -> Seq<u8> {
    seq![0x1bu8, 0x5d] + encode_utf8(text) + if bell {
        seq![0x07u8]
    } else {
        seq![0x1bu8, 0x5c]
    }
}

/// A terminal that was sent an operating system command.
pub open spec fn told(m: TerminalModel, text: Seq<char>) -> TerminalModel {
    sent(m, command_bytes(text, true))
}

proof fn lemma_quiet_bytes(text: Seq<char>)
    requires
        is_quiet(text),
    ensures
        forall|i: int|
            0 <= i < encode_utf8(text).len() ==> #[trigger] encode_utf8(text)[i] != 7 && encode_utf8(
                text,
            )[i] != 27,
    decreases text.len(),
{
    if text.len() > 0 {
        let c = text[0];
        let rest = text.drop_first();
        let first = encode_scalar(c as u32);
        assert forall|i: int| 0 <= i < rest.len() implies #[trigger] rest[i] != '\x07' by {
            assert(text[i + 1] != '\x07');
        }
        assert forall|i: int| 0 <= i < rest.len() implies #[trigger] rest[i] != '\x1b' by {
            assert(text[i + 1] != '\x1b');
        }
        lemma_quiet_bytes(rest);
        if c as u32 >= 0x80 {
            lemma_encoded(c);
            assert forall|i: int| 0 <= i < first.len() implies #[trigger] first[i] >= 0x80 by {}
        } else {
            let one = seq![c];
            char_is_scalar(c);
            char_u32_cast(c, c as u32);
            assert('\0' <= c <= '\u{7f}');
            assert forall|i: int| 0 <= i < one.len() implies '\0' <= #[trigger] one[i]
                <= '\u{7f}' by {
                assert(one[i] == c);
            }
            assert(is_ascii_chars(one));
            is_ascii_chars_encode_utf8(one);
            reveal_with_fuel(encode_utf8, 2);
            assert(one.drop_first() =~= Seq::empty());
            assert(encode_utf8(one) =~= first);
            assert(one[0] as u8 == encode_utf8(one)[0]);
            assert(text[0] != '\x07' && text[0] != '\x1b');
        }
        let all = encode_utf8(text);
        assert(all == first + encode_utf8(rest));
        assert forall|i: int| 0 <= i < all.len() implies #[trigger] all[i] != 7 && all[i] != 27 by {
            if i < first.len() {
                assert(all[i] == first[i]);
            } else {
                assert(all[i] == encode_utf8(rest)[i - first.len()]);
            }
        }
    }
}

proof fn lemma_end(data: Seq<u8>, i: int, end: int)
    requires
        0 <= i <= end < data.len(),
        forall|k: int| i <= k < end ==> #[trigger] data[k] != 7 && data[k] != 27,
        data[end] == 7 || end + 1 < data.len() && data[end] == 27 && data[end + 1] == 92,
    ensures
        osc_end_at(data, i) == end,
    decreases end - i,
{
    if i < end {
        lemma_end(data, i + 1, end);
    }
}

/// A command is read as its text, however it ends.
#[verifier::spinoff_prover]
pub(crate) proof fn lemma_command(m: TerminalModel, text: Seq<char>, bell: bool)
    requires
        is_ready(m),
        is_quiet(text),
    ensures
        sent(m, command_bytes(text, bell)) == m.osc(text),
{
    let bytes = encode_utf8(text);
    let data = command_bytes(text, bell);
    let end = 2 + bytes.len() as int;
    lemma_quiet_bytes(text);
    assert forall|k: int| 2 <= k < end implies #[trigger] data[k] != 7 && data[k] != 27 by {
        assert(data[k] == bytes[k - 2]);
    }
    lemma_end(data, 2, end);
    assert(data.subrange(2, end) =~= bytes);
    encode_utf8_valid_utf8(text);
    encode_utf8_decode_utf8(text);
    reveal(TerminalModel::step);
    reveal(TerminalModel::escape_step);
    reveal(TerminalModel::osc_step);
    assert(data[0] == 27 && data[1] == 93);
    lemma_step_alone(m, data);
}

/// A command that ends with `ESC \` does what it does with a bell.
pub proof fn commands_end_either_way(m: TerminalModel, text: Seq<char>)
    requires
        is_ready(m),
        is_quiet(text),
    ensures
        sent(m, command_bytes(text, false)) == sent(m, command_bytes(text, true)),
{
    lemma_command(m, text, true);
    lemma_command(m, text, false);
}

proof fn lemma_names()
    ensures
        "0"@ == seq!['0'],
        "2"@ == seq!['2'],
        "8"@ == seq!['8'],
        "9"@ == seq!['9'],
        "10"@ == seq!['1', '0'],
        "11"@ == seq!['1', '1'],
        "12"@ == seq!['1', '2'],
        "52"@ == seq!['5', '2'],
        "133"@ == seq!['1', '3', '3'],
        "777"@ == seq!['7', '7', '7'],
        "5522"@ == seq!['5', '5', '2', '2'],
        "?"@ == seq!['?'],
        "id="@ == seq!['i', 'd', '='],
        "notify"@ == seq!['n', 'o', 't', 'i', 'f', 'y'],
        "#"@ == seq!['#'],
{
    reveal_strlit("0");
    reveal_strlit("2");
    reveal_strlit("8");
    reveal_strlit("9");
    reveal_strlit("10");
    reveal_strlit("11");
    reveal_strlit("12");
    reveal_strlit("52");
    reveal_strlit("133");
    reveal_strlit("777");
    reveal_strlit("5522");
    reveal_strlit("?");
    reveal_strlit("id=");
    reveal_strlit("notify");
    reveal_strlit("#");
    assert("0"@ =~= seq!['0']);
    assert("2"@ =~= seq!['2']);
    assert("8"@ =~= seq!['8']);
    assert("9"@ =~= seq!['9']);
    assert("10"@ =~= seq!['1', '0']);
    assert("11"@ =~= seq!['1', '1']);
    assert("12"@ =~= seq!['1', '2']);
    assert("52"@ =~= seq!['5', '2']);
    assert("133"@ =~= seq!['1', '3', '3']);
    assert("777"@ =~= seq!['7', '7', '7']);
    assert("5522"@ =~= seq!['5', '5', '2', '2']);
    assert("?"@ =~= seq!['?']);
    assert("id="@ =~= seq!['i', 'd', '=']);
    assert("notify"@ =~= seq!['n', 'o', 't', 'i', 'f', 'y']);
    assert("#"@ =~= seq!['#']);
}

/// A name and a value with a semicolon between them.
pub open spec fn named(name: Seq<char>, value: Seq<char>) -> Seq<char> {
    name.push(';') + value
}

proof fn lemma_named(m: TerminalModel, name: Seq<char>, value: Seq<char>)
    requires
        is_ready(m),
        is_quiet(value),
        is_quiet(name),
        is_free_of(name, ';'),
    ensures
        is_quiet(named(name, value)),
        told(m, named(name, value)) == m.osc(named(name, value)),
        crate::text::split_once(named(name, value), ';') == Some((name, value)),
{
    let text = named(name, value);
    assert forall|i: int| 0 <= i < text.len() implies #[trigger] text[i] != '\x07' by {
        if i < name.len() {
            assert(text[i] == name[i]);
        } else if i > name.len() {
            assert(text[i] == value[i - name.len() - 1]);
        }
    }
    assert forall|i: int| 0 <= i < text.len() implies #[trigger] text[i] != '\x1b' by {
        if i < name.len() {
            assert(text[i] == name[i]);
        } else if i > name.len() {
            assert(text[i] == value[i - name.len() - 1]);
        }
    }
    cutting_once_undoes_joining(name, ';', value);
    lemma_command(m, text, true);
}

/// Commands 0 and 2 set the title to the text that they give, and change nothing else.
pub proof fn the_title_is_what_it_is_set_to(m: TerminalModel, title: Seq<char>)
    requires
        is_ready(m),
        is_quiet(title),
    ensures
        told(m, named(seq!['0'], title)) == (TerminalModel { window_title: title, ..m }),
        told(m, named(seq!['2'], title)) == (TerminalModel { window_title: title, ..m }),
{
    lemma_names();
    lemma_named(m, seq!['0'], title);
    lemma_named(m, seq!['2'], title);
    reveal(TerminalModel::osc);
    reveal(TerminalModel::title_set);
}

/// Command 8 opens a hyperlink to an address, with an id where one is given, and closes it
/// where the address is empty; nothing else changes.
pub proof fn hyperlinks_are_opened_and_closed(m: TerminalModel, uri: Seq<char>, id: Seq<char>)
    requires
        is_ready(m),
        is_quiet(uri),
        is_quiet(id),
        is_free_of(id, ';'),
        is_free_of(id, ':'),
        uri.len() > 0,
    ensures
        told(m, named(seq!['8'], named(Seq::empty(), uri))) == (TerminalModel {
            hyperlink: Some((uri, None::<Seq<char>>)),
            ..m
        }),
        told(m, named(seq!['8'], named(seq!['i', 'd', '='] + id, uri))) == (TerminalModel {
            hyperlink: Some((uri, Some(id))),
            ..m
        }),
        told(m, named(seq!['8'], named(Seq::empty(), Seq::empty()))) == (TerminalModel {
            hyperlink: None,
            ..m
        }),
{
    let e = Seq::<char>::empty();
    lemma_names();
    lemma_distinct();
    lemma_named(m, e, uri);
    let with = seq!['i', 'd', '='] + id;
    assert(is_quiet(with) && is_free_of(with, ';') && is_free_of(with, ':')) by {
        assert forall|i: int| 0 <= i < with.len() implies #[trigger] with[i] != '\x07' && with[i]
            != '\x1b' && with[i] != ';' && with[i] != ':' by {
            if i >= 3 {
                assert(with[i] == id[i - 3]);
            }
        }
    }
    lemma_named(m, with, uri);
    lemma_named(m, e, e);
    lemma_named(m, seq!['8'], named(e, uri));
    lemma_named(m, seq!['8'], named(with, uri));
    lemma_named(m, seq!['8'], named(e, e));
    reveal(TerminalModel::osc);
    reveal(TerminalModel::hyperlink_set);
    a_prefix_is_taken_off(seq!['i', 'd', '='], id);
    crate::text::laws::lemma_find_none(with, ':');
    crate::text::laws::lemma_find_none(e, ':');
    assert(split(with, ':') == seq![with]);
    assert(split(e, ':') == seq![e]);
    reveal_with_fuel(first_id, 2);
    assert(seq![e].drop_first() =~= Seq::empty());
    if "id="@.is_prefix_of(e) {
        assert("id="@.len() <= e.len());
    }
}

proof fn lemma_distinct()
    ensures
        seq!['8'] != seq!['0'],
        seq!['8'] != seq!['2'],
        seq!['9'] != seq!['0'] && seq!['9'] != seq!['2'] && seq!['9'] != seq!['8'],
        forall|a: Seq<char>, b: Seq<char>| #![trigger a.len(), b.len()] a.len() != b.len() ==> a != b,
        seq!['1', '0'] != seq!['1', '1'],
        seq!['1', '0'] != seq!['1', '2'],
        seq!['1', '1'] != seq!['1', '2'],
        seq!['5', '2'] != seq!['1', '0'] && seq!['5', '2'] != seq!['1', '1'] && seq!['5', '2']
            != seq!['1', '2'],
        seq!['1', '3', '3'] != seq!['7', '7', '7'],
{
    assert(seq!['8'][0] == '8' && seq!['9'][0] == '9' && seq!['0'][0] == '0' && seq!['2'][0] == '2');
    assert(seq!['1', '0'][1] == '0' && seq!['1', '1'][1] == '1' && seq!['1', '2'][1] == '2');
    assert(seq!['5', '2'][0] == '5' && seq!['1', '0'][0] == '1' && seq!['1', '1'][0] == '1'
        && seq!['1', '2'][0] == '1');
    assert(seq!['1', '3', '3'][0] == '1' && seq!['7', '7', '7'][0] == '7');
}

/// Two hexadecimal digits.
pub open spec fn hex_pair(v: u8) -> Seq<char> {
    seq![hex_char((v / 16) as int), hex_char((v % 16) as int)]
}

pub open spec fn hex_char(v: int) -> char {
    seq!['0', '1', '2', '3', '4', '5', '6', '7', '8', '9', 'a', 'b', 'c', 'd', 'e', 'f'][v]
}

proof fn lemma_hex_pair(v: u8)
    ensures
        crate::text::parse_unsigned(hex_pair(v), 16, 255) == Some(v as nat),
{
    let s = hex_pair(v);
    let a = (v / 16) as int;
    let b = (v % 16) as int;
    reveal_with_fuel(digits_value, 3);
    assert(s.drop_last() =~= seq![hex_char(a)]);
    assert(seq![hex_char(a)].drop_last() =~= Seq::empty());
    assert(s.last() == hex_char(b));
    assert(crate::text::digit_value(hex_char(a), 16) == Some(a as nat));
    assert(crate::text::digit_value(hex_char(b), 16) == Some(b as nat));
    assert(a * 16 + b == v);
    assert(s[0] == hex_char(a));
    assert(hex_char(a) != '+');
}

/// Commands 10, 11 and 12 set the colour of text, the colour behind it and the colour of
/// the cursor, written as `#` and two digits each for red, green and blue. Nothing else
/// changes.
#[verifier::spinoff_prover]
pub proof fn colors_are_set_by_their_digits(m: TerminalModel, r: u8, g: u8, b: u8)
    requires
        is_ready(m),
    ensures
        ({
            let color = seq!['#'] + hex_pair(r) + hex_pair(g) + hex_pair(b);
            &&& told(m, named(seq!['1', '0'], color)) == (TerminalModel {
                dynamic_fg: Some((r, g, b)),
                ..m
            })
            &&& told(m, named(seq!['1', '1'], color)) == (TerminalModel {
                dynamic_bg: Some((r, g, b)),
                ..m
            })
            &&& told(m, named(seq!['1', '2'], color)) == (TerminalModel {
                dynamic_cursor_color: Some((r, g, b)),
                ..m
            })
        }),
{
    lemma_names();
    lemma_distinct();
    let hex = hex_pair(r) + hex_pair(g) + hex_pair(b);
    let color = seq!['#'] + hex_pair(r) + hex_pair(g) + hex_pair(b);
    assert(color =~= seq!['#'] + hex);
    assert(is_quiet(color));
    lemma_named(m, seq!['1', '0'], color);
    lemma_named(m, seq!['1', '1'], color);
    lemma_named(m, seq!['1', '2'], color);
    reveal(TerminalModel::osc);
    reveal(TerminalModel::color_handled);
    reveal(parse_color);
    a_prefix_is_taken_off(seq!['#'], hex);
    assert(hex.subrange(0, 2) =~= hex_pair(r));
    assert(hex.subrange(2, 4) =~= hex_pair(g));
    assert(hex.subrange(4, 6) =~= hex_pair(b));
    lemma_hex_pair(r);
    lemma_hex_pair(g);
    lemma_hex_pair(b);
    assert(color.len() == 7);
}

/// A program that asks for a colour (`?`) is told the one that was set, with each component
/// twice: `ESC ] 10 ; rgb:rrrr/gggg/bbbb ESC \`; nothing else changes. Without one, text is
/// white on black and the cursor white.
pub proof fn colors_are_told_as_they_were_set(m: TerminalModel)
    requires
        is_ready(m),
    ensures
        ({
            let fg = told(m, named(seq!['1', '0'], seq!['?']));
            let bg = told(m, named(seq!['1', '1'], seq!['?']));
            let cursor = told(m, named(seq!['1', '2'], seq!['?']));
            let white = (255u8, 255u8, 255u8);
            let black = (0u8, 0u8, 0u8);
            &&& fg == (TerminalModel {
                output: m.output + color_answer(0x30, or_else(m.dynamic_fg, white)),
                ..m
            })
            &&& bg == (TerminalModel {
                output: m.output + color_answer(0x31, or_else(m.dynamic_bg, black)),
                ..m
            })
            &&& cursor == (TerminalModel {
                output: m.output + color_answer(0x32, or_else(m.dynamic_cursor_color, white)),
                ..m
            })
        }),
{
    lemma_names();
    lemma_distinct();
    assert(is_quiet(seq!['?']));
    lemma_named(m, seq!['1', '0'], seq!['?']);
    lemma_named(m, seq!['1', '1'], seq!['?']);
    lemma_named(m, seq!['1', '2'], seq!['?']);
    reveal(TerminalModel::osc);
    reveal(TerminalModel::color_handled);
    lemma_color_answer(seq!['1', '0'], 0x30, or_else(m.dynamic_fg, (255, 255, 255)));
    lemma_color_answer(seq!['1', '1'], 0x31, or_else(m.dynamic_bg, (0, 0, 0)));
    lemma_color_answer(seq!['1', '2'], 0x32, or_else(m.dynamic_cursor_color, (255, 255, 255)));
}

pub open spec fn or_else(color: Option<(u8, u8, u8)>, otherwise: (u8, u8, u8)) -> (u8, u8, u8) {
    match color {
        Some(color) => color,
        None => otherwise,
    }
}

/// A component, its two digits written twice.
pub open spec fn twice(v: u8) -> Seq<u8> {
    seq![
        hex_char((v / 16) as int) as u8,
        hex_char((v % 16) as int) as u8,
        hex_char((v / 16) as int) as u8,
        hex_char((v % 16) as int) as u8,
    ]
}

/// The answer to a question for a colour, by the second digit of the command.
pub open spec fn color_answer(digit: u8, color: (u8, u8, u8)) -> Seq<u8> {
    seq![0x1bu8, 0x5d, 0x31, digit, 0x3b, 0x72, 0x67, 0x62, 0x3a] + twice(color.0) + seq![0x2fu8]
        + twice(color.1) + seq![0x2fu8] + twice(color.2) + seq![0x1bu8, 0x5c]
}

proof fn lemma_twice(v: u8)
    ensures
        hex4((v * 257) as nat) == twice(v),
{
    let n = (v * 257) as nat;
    let a = v / 16;
    let b = v % 16;
    assert((n / 4096) % 16 == a && (n / 256) % 16 == b && (n / 16) % 16 == a && n % 16 == b)
        by (nonlinear_arith)
        requires
            n == v * 257,
            a == v / 16,
            b == v % 16,
            0 <= v < 256,
    ;
    assert(hex4(n) =~= twice(v));
}

proof fn lemma_color_answer(command: Seq<char>, digit: u8, color: (u8, u8, u8))
    requires
        command == seq!['1', digit as char],
        digit < 128,
    ensures
        color_reply(command, color) == color_answer(digit, color),
{
    reveal_strlit("\x1b]");
    reveal_strlit(";rgb:");
    reveal_strlit("/");
    reveal_strlit("\x1b\\");
    lemma_ascii("\x1b]"@, seq![0x1bu8, 0x5d]);
    lemma_ascii(";rgb:"@, seq![0x3bu8, 0x72, 0x67, 0x62, 0x3a]);
    lemma_ascii("/"@, seq![0x2fu8]);
    lemma_ascii("\x1b\\"@, seq![0x1bu8, 0x5c]);
    lemma_ascii(command, seq![0x31u8, digit]);
    lemma_twice(color.0);
    lemma_twice(color.1);
    lemma_twice(color.2);
    assert(color_reply(command, color) =~= color_answer(digit, color));
}

/// Command 52 with data in base64 sets the clipboard to the text that the data holds, and
/// with a question mark asks for it; nothing else changes.
pub proof fn the_clipboard_is_set_or_asked_for(
    m: TerminalModel,
    which: Seq<char>,
    data: Seq<char>,
    text: Seq<char>,
)
    requires
        is_ready(m),
        is_quiet(which),
        is_free_of(which, ';'),
        is_quiet(data),
        data.len() > 0,
        data != seq!['?'],
        base64_decoding(data) == Ok::<Seq<u8>, Seq<char>>(encode_utf8(text)),
    ensures
        told(m, named(seq!['5', '2'], named(which, data))) == (TerminalModel {
            clipboard_set: Some(text),
            ..m
        }),
        told(m, named(seq!['5', '2'], named(which, seq!['?']))) == (TerminalModel {
            clipboard_query: true,
            ..m
        }),
{
    lemma_names();
    lemma_distinct();
    assert(is_quiet(seq!['?']));
    lemma_named(m, which, data);
    lemma_named(m, which, seq!['?']);
    lemma_named(m, seq!['5', '2'], named(which, data));
    lemma_named(m, seq!['5', '2'], named(which, seq!['?']));
    reveal(TerminalModel::osc);
    reveal(TerminalModel::clipboard_handled);
    encode_utf8_valid_utf8(text);
    encode_utf8_decode_utf8(text);
}

/// Command 777 with `notify`, a title and a text asks for a notification with them; command
/// 9 gives the text alone. Of each at most 256 characters are kept, and no more than eight
/// notifications wait: nothing that waits is lost.
pub proof fn notifications_wait_in_order(m: TerminalModel, title: Seq<char>, body: Seq<char>)
    requires
        is_ready(m),
        is_quiet(title),
        is_free_of(title, ';'),
        is_quiet(body),
        title.len() <= 256,
        body.len() <= 256,
        m.notifications.len() < 8,
    ensures
        ({
            let text = named(seq!['n', 'o', 't', 'i', 'f', 'y'], named(title, body));
            told(m, named(seq!['7', '7', '7'], text)) == (TerminalModel {
                notifications: m.notifications.push((title, body)),
                ..m
            })
        }),
        ({
            let r = told(m, named(seq!['9'], body));
            &&& r == (TerminalModel { notifications: r.notifications, ..m })
            &&& r.notifications.len() == m.notifications.len() + 1
            &&& r.notifications.last().1 == body
            &&& r.notifications.drop_last() == m.notifications
        }),
{
    lemma_names();
    lemma_distinct();
    let notify = seq!['n', 'o', 't', 'i', 'f', 'y'];
    lemma_named(m, title, body);
    assert(is_quiet(notify) && is_free_of(notify, ';'));
    lemma_named(m, notify, named(title, body));
    lemma_named(m, seq!['7', '7', '7'], named(notify, named(title, body)));
    lemma_named(m, seq!['9'], body);
    reveal(TerminalModel::osc);
    reveal(TerminalModel::rxvt_notified);
    reveal(TerminalModel::notified);
    let r = told(m, named(seq!['9'], body));
    assert(r.notifications.drop_last() =~= m.notifications);
}

/// A shell marks where its prompt, the command and the output start (`A`, `B` and `C` of
/// command 133), and where the output ends and how (`D`). A command that is so marked is
/// kept with these lines, counted from the oldest of the scrollback, and its exit code.
#[verifier::spinoff_prover]
#[verifier::rlimit(40)]
pub proof fn marked_commands_are_kept(
    m: TerminalModel,
    b: TerminalModel,
    c: TerminalModel,
    d: TerminalModel,
    code: u8,
)
    requires
        m.wf() && b.wf() && c.wf() && d.wf(),
        is_ready(m) && is_ready(b) && is_ready(c) && is_ready(d),
        b.zone_state == told(m, named(seq!['1', '3', '3'], seq!['A'])).zone_state,
        c.zone_state == told(b, named(seq!['1', '3', '3'], seq!['B'])).zone_state,
        d.zone_state == told(c, named(seq!['1', '3', '3'], seq!['C'])).zone_state,
        d.command_zones.len() < 256,
    ensures
        ({
            let end = seq!['D', ';'] + decimal_text(code as nat);
            let r = told(d, named(seq!['1', '3', '3'], end));
            let zone = r.command_zones.last();
            &&& r == (TerminalModel {
                command_zones: r.command_zones,
                zone_state: ZoneState::Idle,
                ..d
            })
            &&& r.command_zones == d.command_zones.push(zone)
            &&& zone.prompt_start == m.scrollback.len() + m.cursor_row
            &&& zone.command_start matches Some(row) && row == b.scrollback.len() + b.cursor_row
            &&& zone.output_start matches Some(row) && row == c.scrollback.len() + c.cursor_row
            &&& zone.output_end matches Some(row) && row == d.scrollback.len() + d.cursor_row
            &&& zone.exit_code matches Some(v) && v == code
        }),
{
    lemma_names();
    lemma_distinct();
    let name = seq!['1', '3', '3'];
    let end = seq!['D', ';'] + decimal_text(code as nat);
    assert(is_quiet(name) && is_free_of(name, ';'));
    crate::text::laws::a_written_number_is_the_number(code as nat);
    assert(is_quiet(end)) by {
        assert forall|i: int| 0 <= i < end.len() implies #[trigger] end[i] != '\x07' && end[i]
            != '\x1b' by {
            if i >= 2 {
                assert('0' <= decimal_text(code as nat)[i - 2] <= '9');
            }
        }
    }
    lemma_named(m, name, seq!['A']);
    lemma_named(b, name, seq!['B']);
    lemma_named(c, name, seq!['C']);
    lemma_named(d, name, end);
    reveal(TerminalModel::osc);
    reveal(TerminalModel::shell_marked);
    a_written_number_is_read_back(code as nat, 0);
    assert(end.subrange(2, end.len() as int) =~= decimal_text(code as nat));
    assert(end[0] == 'D' && end[1] == ';');
}

/// A program that asks what the terminal is is told the same each time, and nothing else
/// changes.
pub proof fn the_terminal_says_what_it_is(m: TerminalModel)
    requires
        is_ready(m),
    ensures
        sent(m, plain_sequence(Seq::empty(), 0x63)) == (TerminalModel {
            output: m.output + seq![
                0x1bu8,
                0x5b,
                0x3f,
                0x36,
                0x35,
                0x3b,
                0x31,
                0x3b,
                0x39,
                0x63,
            ],
            ..m
        }),
        sent(m, sequence(Some(0x3e), Seq::empty(), Seq::empty(), 0x63)) == (TerminalModel {
            output: m.output + seq![
                0x1bu8,
                0x5b,
                0x3e,
                0x31,
                0x3b,
                0x37,
                0x38,
                0x30,
                0x32,
                0x3b,
                0x30,
                0x63,
            ],
            ..m
        }),
{
    lemma_sequence(m, None, Seq::empty(), Seq::empty(), 0x63);
    lemma_sequence(m, Some(0x3e), Seq::empty(), Seq::empty(), 0x63);
    reveal(TerminalModel::csi);
    reveal(TerminalModel::csi_attributes);
    reveal_strlit("\x1b[?65;1;9c");
    reveal_strlit("\x1b[>1;7802;0c");
    lemma_ascii(
        "\x1b[?65;1;9c"@,
        seq![0x1bu8, 0x5b, 0x3f, 0x36, 0x35, 0x3b, 0x31, 0x3b, 0x39, 0x63],
    );
    lemma_ascii(
        "\x1b[>1;7802;0c"@,
        seq![0x1bu8, 0x5b, 0x3e, 0x31, 0x3b, 0x37, 0x38, 0x30, 0x32, 0x3b, 0x30, 0x63],
    );
}

/// The flags of the keyboard protocol are pushed by `CSI > n u`, taken back by `CSI < u`, set
/// by `CSI = n u`, and told to a program that asks with `CSI ? u`.
pub proof fn keyboard_flags_are_pushed_set_and_told(m: TerminalModel, flags: u16)
    requires
        is_ready(m),
        m.keyboard_stack.len() < 32,
    ensures
        ({
            let pushed = sent(m, sequence(Some(0x3e), seq![flags], Seq::empty(), 0x75));
            &&& pushed.keyboard_flags == flags
            &&& sent(pushed, sequence(Some(0x3c), Seq::empty(), Seq::empty(), 0x75)) == m
        }),
        sent(m, sequence(Some(0x3d), seq![flags], Seq::empty(), 0x75)) == (TerminalModel {
            keyboard_flags: flags,
            ..m
        }),
        sent(m, sequence(Some(0x3d), seq![flags, 2], Seq::empty(), 0x75)) == (TerminalModel {
            keyboard_flags: m.keyboard_flags | flags,
            ..m
        }),
        sent(m, sequence(Some(0x3d), seq![flags, 3], Seq::empty(), 0x75)) == (TerminalModel {
            keyboard_flags: m.keyboard_flags & !flags,
            ..m
        }),
        sent(m, sequence(Some(0x3f), Seq::empty(), Seq::empty(), 0x75)) == (TerminalModel {
            output: m.output + (seq![0x1bu8, 0x5b, 0x3f] + decimal(m.keyboard_flags as nat) + seq![
                0x75u8,
            ]),
            ..m
        }),
{
    let e = Seq::<u8>::empty();
    lemma_sequence(m, Some(0x3e), seq![flags], e, 0x75);
    let pushed = sent(m, sequence(Some(0x3e), seq![flags], e, 0x75));
    reveal(TerminalModel::csi);
    reveal(TerminalModel::csi_keyboard);
    reveal(TerminalModel::keyboard_flags_pushed);
    lemma_sequence(pushed, Some(0x3c), Seq::empty(), e, 0x75);
    lemma_sequence(m, Some(0x3d), seq![flags], e, 0x75);
    lemma_sequence(m, Some(0x3d), seq![flags, 2], e, 0x75);
    lemma_sequence(m, Some(0x3d), seq![flags, 3], e, 0x75);
    lemma_sequence(m, Some(0x3f), Seq::empty(), e, 0x75);
    reveal(TerminalModel::keyboard_flags_popped);
    reveal(TerminalModel::keyboard_flags_set);
    assert(pushed.keyboard_stack.subrange(0, pushed.keyboard_stack.len() - 1)
        =~= m.keyboard_stack);
    reveal_strlit("\x1b[?");
    reveal_strlit("u");
    lemma_ascii("\x1b[?"@, seq![0x1bu8, 0x5b, 0x3f]);
    lemma_ascii("u"@, seq![0x75u8]);
}

/// The characters of line drawing: the letters from `j` on stand for corners, crossings and
/// lines, and some others for signs; in ASCII they stand for themselves.
pub proof fn line_drawing_has_its_characters(m: TerminalModel, c: char)
    ensures
        m.active_charset == Charset::Ascii ==> m.translated(c) == c,
        m.active_charset == Charset::DecSpecialGraphics ==> {
            &&& m.translated('`') == '\u{25c6}'
            &&& m.translated('a') == '\u{2592}'
            &&& m.translated('f') == '\u{b0}'
            &&& m.translated('g') == '\u{b1}'
            &&& m.translated('j') == '\u{2518}'
            &&& m.translated('k') == '\u{2510}'
            &&& m.translated('l') == '\u{250c}'
            &&& m.translated('m') == '\u{2514}'
            &&& m.translated('n') == '\u{253c}'
            &&& m.translated('o') == '\u{23ba}'
            &&& m.translated('p') == '\u{23bb}'
            &&& m.translated('q') == '\u{2500}'
            &&& m.translated('r') == '\u{23bc}'
            &&& m.translated('s') == '\u{23bd}'
            &&& m.translated('t') == '\u{251c}'
            &&& m.translated('u') == '\u{2524}'
            &&& m.translated('v') == '\u{2534}'
            &&& m.translated('w') == '\u{252c}'
            &&& m.translated('x') == '\u{2502}'
            &&& m.translated('y') == '\u{2264}'
            &&& m.translated('z') == '\u{2265}'
            &&& m.translated('{') == '\u{3c0}'
            &&& m.translated('|') == '\u{2260}'
            &&& m.translated('}') == '\u{a3}'
            &&& m.translated('~') == '\u{b7}'
            &&& !('f' <= c <= 'g' || 'j' <= c <= '~' || '`' <= c <= 'a') ==> m.translated(c) == c
        },
{
}

proof fn lemma_string_end(data: Seq<u8>, i: int, end: int)
    requires
        0 <= i <= end,
        end + 1 < data.len(),
        forall|k: int| i <= k < end ==> #[trigger] data[k] != 27,
        data[end] == 27 && data[end + 1] == 92,
    ensures
        string_end_at(data, i) == end,
    decreases end - i,
{
    if i < end {
        lemma_string_end(data, i + 1, end);
    }
}

/// An application command (`ESC _`, a text, `ESC \`) that holds an action is handed on as a
/// graphics command, with its whole text, and changes nothing of the terminal.
#[verifier::spinoff_prover]
pub proof fn graphics_commands_are_handed_on(m: TerminalModel, text: Seq<char>, at: int)
    requires
        is_ready(m),
        is_quiet(text),
        0 <= at,
        at + 1 < text.len(),
        text[at] == 'a' && text[at + 1] == '=',
    ensures
        ({
            let bytes = seq![0x1bu8, 0x5f] + encode_utf8(text) + seq![0x1bu8, 0x5c];
            m.fed(bytes) == (m, seq![text])
        }),
{
    let payload = encode_utf8(text);
    let data = seq![0x1bu8, 0x5f] + payload + seq![0x1bu8, 0x5c];
    let end = 2 + payload.len() as int;
    lemma_quiet_bytes(text);
    assert forall|k: int| 2 <= k < end implies #[trigger] data[k] != 27 by {
        assert(data[k] == payload[k - 2]);
    }
    lemma_string_end(data, 2, end);
    assert(data.subrange(2, end) =~= payload);
    encode_utf8_valid_utf8(text);
    encode_utf8_decode_utf8(text);
    assert(has_action(text));
    reveal(TerminalModel::step);
    reveal(TerminalModel::escape_step);
    reveal(TerminalModel::string_step);
    assert(data[0] == 27 && data[1] == 95);
    assert(m.pending_escape =~= Seq::empty());
    assert(m.with_none_kept() == m);
    assert(m.behind_kept(data) =~= data);
    assert(m.step(data, 0) == (Step { state: m, next: data.len() as int, graphics: Some(text) }));
    reveal_with_fuel(TerminalModel::run, 2);
    assert(seq![text] + Seq::<Seq<char>>::empty() =~= seq![text]);
}

/// Other keys are reported by xterm's rules at the level of `CSI > 4 ; n m`, and in the form
/// of `CSI > 4 ; n f`; nothing else changes.
pub proof fn reports_of_other_keys_are_asked_for(m: TerminalModel, n: u16)
    requires
        is_ready(m),
    ensures
        sent(m, sequence(Some(0x3e), seq![4, n], Seq::empty(), 0x6d)) == (TerminalModel {
            modify_other_keys: n,
            ..m
        }),
        sent(m, sequence(Some(0x3e), seq![4, n], Seq::empty(), 0x66)) == (TerminalModel {
            format_other_keys: n,
            ..m
        }),
{
    lemma_sequence(m, Some(0x3e), seq![4, n], Seq::empty(), 0x6d);
    lemma_sequence(m, Some(0x3e), seq![4, n], Seq::empty(), 0x66);
    reveal(TerminalModel::csi);
    reveal(TerminalModel::csi_rendition);
    reveal(TerminalModel::csi_position);
}

/// A program that asks for the forms of the clipboard (`5522 ; type=read`) has its request
/// wait behind the others, and nothing else changes.
pub proof fn requests_for_the_clipboard_wait(m: TerminalModel)
    requires
        is_ready(m),
    ensures
        told(m, named("5522"@, "type=read"@)) == (TerminalModel {
            clipboard_requests: m.clipboard_requests.push(None),
            ..m
        }),
{
    lemma_names();
    lemma_distinct();
    reveal_strlit("type=read");
    reveal_strlit("read");
    reveal_strlit("type=");
    let text = "type=read"@;
    assert(is_quiet("5522"@) && is_free_of("5522"@, ';'));
    assert(is_quiet(text));
    lemma_named(m, "5522"@, text);
    reveal(TerminalModel::osc);
    reveal(TerminalModel::clipboard_asked);
    assert(is_free_of(text, ';') && is_free_of(text, ':'));
    cutting_once_undoes_joining(text, ';', Seq::empty());
    crate::text::laws::lemma_find_none(text, ':');
    assert(split(text, ':') == seq![text]);
    a_prefix_is_taken_off("type="@, "read"@);
    assert("type="@ + "read"@ =~= text);
    reveal_with_fuel(super::osc::ClipboardFields::of, 2);
    assert(seq![text].drop_last() =~= Seq::empty());
}

/// A component in the form in which colours are told: its two digits twice.
pub open spec fn quad(v: u8) -> Seq<char> {
    hex_pair(v) + hex_pair(v)
}

proof fn lemma_quad(v: u8)
    ensures
        crate::text::parse_unsigned(quad(v), 16, 65535) == Some((v * 257) as nat),
        quad(v).len() == 4,
        is_quiet(quad(v)),
        is_free_of(quad(v), '/'),
{
    let s = quad(v);
    let a = (v / 16) as int;
    let b = (v % 16) as int;
    reveal_with_fuel(digits_value, 5);
    let s3 = s.drop_last();
    let s2 = s3.drop_last();
    let s1 = s2.drop_last();
    assert(s3.len() == 3 && s2.len() == 2 && s1.len() == 1);
    assert(s1.drop_last() =~= Seq::empty());
    assert(s.last() == hex_char(b) && s3.last() == hex_char(a) && s2.last() == hex_char(b)
        && s1.last() == hex_char(a));
    assert(crate::text::digit_value(hex_char(a), 16) == Some(a as nat));
    assert(crate::text::digit_value(hex_char(b), 16) == Some(b as nat));
    assert(a * 16 + b == v);
    assert(((a * 16 + b) * 16 + a) * 16 + b == v * 257);
    assert(s[0] == hex_char(a));
    assert(hex_char(a) != '+');
}

/// A colour that is set in the form in which it is told is that colour again.
#[verifier::spinoff_prover]
#[verifier::rlimit(40)]
pub proof fn a_told_color_can_be_set_again(m: TerminalModel, r: u8, g: u8, b: u8)
    requires
        is_ready(m),
    ensures
        ({
            let color = seq!['r', 'g', 'b', ':'] + (quad(r).push('/') + (quad(g).push('/') + quad(
                b,
            )));
            told(m, named(seq!['1', '0'], color)) == (TerminalModel {
                dynamic_fg: Some((r, g, b)),
                ..m
            })
        }),
{
    lemma_names();
    lemma_distinct();
    lemma_quad(r);
    lemma_quad(g);
    lemma_quad(b);
    let rest = quad(r).push('/') + (quad(g).push('/') + quad(b));
    let color = seq!['r', 'g', 'b', ':'] + rest;
    assert(is_quiet(color)) by {
        assert forall|i: int| 0 <= i < color.len() implies #[trigger] color[i] != '\x07' && color[i]
            != '\x1b' by {
            if 4 <= i < 8 {
                assert(color[i] == quad(r)[i - 4]);
            } else if 9 <= i < 13 {
                assert(color[i] == quad(g)[i - 9]);
            } else if 14 <= i {
                assert(color[i] == quad(b)[i - 14]);
            }
        }
    }
    lemma_named(m, seq!['1', '0'], color);
    reveal(TerminalModel::osc);
    reveal(TerminalModel::color_handled);
    reveal(parse_color);
    reveal_strlit("rgb:");
    assert("rgb:"@ =~= seq!['r', 'g', 'b', ':']);
    a_prefix_is_taken_off(seq!['r', 'g', 'b', ':'], rest);
    assert(!"#"@.is_prefix_of(color)) by {
        if "#"@.is_prefix_of(color) {
            assert(color.subrange(0, 1)[0] == color[0]);
        }
    }
    let parts = seq![quad(r), quad(g), quad(b)];
    assert(parts.drop_first() =~= seq![quad(g), quad(b)]);
    assert(parts.drop_first().drop_first() =~= seq![quad(b)]);
    reveal_with_fuel(crate::text::laws::listed, 4);
    assert(crate::text::laws::listed(parts, '/') =~= rest);
    assert forall|i: int| 0 <= i < parts.len() implies is_free_of(#[trigger] parts[i], '/') by {
        assert(i == 0 || i == 1 || i == 2);
    }
    crate::text::laws::cutting_undoes_listing(parts, '/');
    lemma_component(r);
    lemma_component(g);
    lemma_component(b);
    assert(color.len() > 1);
}

proof fn lemma_component(v: u8)
    ensures
        super::osc::component((v * 257) as nat, 257) == v,
{
    assert((v * 257) / 257 == v as int) by (nonlinear_arith);
}

/// A program switches with `CSI ? n h` and `CSI ? n l` what it wants: 1 the application mode
/// of the cursor keys, 25 the cursor, 1000 to 1003 the pointer and its motion, 1004 the
/// window's focus, and 2004 that pasted text is marked.
pub proof fn what_a_program_wants_it_gets(m: TerminalModel)
    requires
        is_ready(m),
        m.scroll_offset == 0,
    ensures
        ({
            let on = |n: u16| sent(m, sequence(Some(0x3f), seq![n], Seq::empty(), 0x68));
            let off = |n: u16| sent(m, sequence(Some(0x3f), seq![n], Seq::empty(), 0x6c));
            &&& on(1).has_application_cursor_keys() && !off(1).has_application_cursor_keys()
            &&& on(25).shows_cursor() && !off(25).shows_cursor()
            &&& on(1004).wants_focus() && !off(1004).wants_focus()
            &&& on(2004).wants_marked_pastes() && !off(2004).wants_marked_pastes()
            &&& on(1000).mouse_enabled() && on(1002).mouse_enabled() && on(1003).mouse_enabled()
            &&& on(1002).wants_motion() && on(1003).wants_motion()
            &&& on(1000).wants_motion() == m.wants_motion()
        }),
{
    modes_are_switched(m, 1);
    modes_are_switched(m, 25);
    modes_are_switched(m, 1000);
    modes_are_switched(m, 1002);
    modes_are_switched(m, 1003);
    modes_are_switched(m, 1004);
    modes_are_switched(m, 2004);
}

/// A program that wants to be told of the window's focus is told `ESC [ I` when the window
/// gets it and `ESC [ O` when it loses it; another is told nothing.
pub proof fn the_focus_is_told(m: TerminalModel)
    ensures
        m.has(1004) ==> m.focus_told(true) == (TerminalModel {
            output: m.output + seq![0x1bu8, 0x5b, 0x49],
            ..m
        }),
        m.has(1004) ==> m.focus_told(false) == (TerminalModel {
            output: m.output + seq![0x1bu8, 0x5b, 0x4f],
            ..m
        }),
        !m.has(1004) ==> m.focus_told(true) == m && m.focus_told(false) == m,
{
    reveal_strlit("\x1b[I");
    reveal_strlit("\x1b[O");
    lemma_ascii("\x1b[I"@, seq![0x1bu8, 0x5b, 0x49]);
    lemma_ascii("\x1b[O"@, seq![0x1bu8, 0x5b, 0x4f]);
}

} // verus!
