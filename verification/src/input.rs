//! What is typed into a terminal on the user's behalf, and answers about the clipboard.

use crate::outside::{base64_encode, base64_of, is_alphanumeric, unicode_alphanumeric};
use crate::text::{append_text, chars_of, owned, push_bytes, push_text};
use vstd::prelude::*;
use vstd::utf8::encode_utf8;

verus! {

/// The bytes that mark text as pasted.
pub const BRACKETED_PASTE_FRAMING_BYTES: usize = 12;

/// No larger clipboard is told to an application.
pub const MAX_CLIPBOARD_RESPONSE_BYTES: usize = 1_048_576;

/// What starts a paste.
pub open spec fn paste_start() -> Seq<u8> {
    seq![27u8, '[' as u8, '2' as u8, '0' as u8, '0' as u8, '~' as u8]
}

/// What ends a paste.
pub open spec fn paste_end() -> Seq<u8> {
    seq![27u8, '[' as u8, '2' as u8, '0' as u8, '1' as u8, '~' as u8]
}

/// Text marked as pasted.
pub fn wrap_bracketed_paste(payload: Vec<u8>) -> (bytes: Vec<u8>)
    requires
        payload@.len() + BRACKETED_PASTE_FRAMING_BYTES <= usize::MAX,
    ensures
        bytes@ == paste_start() + payload@ + paste_end(),
        bytes@.len() == payload@.len() + BRACKETED_PASTE_FRAMING_BYTES,
{
    let mut bytes: Vec<u8> = vec![27, '[' as u8, '2' as u8, '0' as u8, '0' as u8, '~' as u8];
    push_bytes(&mut bytes, payload.as_slice());
    let end: Vec<u8> = vec![27, '[' as u8, '2' as u8, '0' as u8, '1' as u8, '~' as u8];
    push_bytes(&mut bytes, end.as_slice());
    proof {
        assert(bytes@ =~= paste_start() + payload@ + paste_end());
    }
    bytes
}

/// What is sent for text that is pasted: its bytes, marked where the application asked
/// for that.
pub open spec fn pasted(text: Seq<char>, bracketed: bool) -> Seq<u8> {
    if bracketed {
        paste_start() + encode_utf8(text) + paste_end()
    } else {
        encode_utf8(text)
    }
}

/// The room that a paste needs in the queue.
pub fn paste_size(text: &str, bracketed: bool) -> (size: usize)
    ensures
        size == (if pasted(text@, bracketed).len() > usize::MAX {
            usize::MAX as int
        } else {
            pasted(text@, bracketed).len() as int
        }),
{
    let len: usize = text.as_bytes().len();
    if !bracketed {
        len
    } else if len > usize::MAX - BRACKETED_PASTE_FRAMING_BYTES {
        usize::MAX
    } else {
        len + BRACKETED_PASTE_FRAMING_BYTES
    }
}

/// What is sent for text that is pasted.
pub fn paste_bytes(text: &str, bracketed: bool) -> (bytes: Vec<u8>)
    requires
        pasted(text@, bracketed).len() <= usize::MAX,
    ensures
        bytes@ == pasted(text@, bracketed),
{
    let payload = crate::text::copy_bytes(text.as_bytes());
    if bracketed {
        wrap_bracketed_paste(payload)
    } else {
        payload
    }
}

/// Whether Unicode counts a character as a letter or a number.
pub open spec fn is_letter_or_number(c: char) -> bool {
    if (c as u32) < 128 {
        '0' <= c <= '9' || 'a' <= c <= 'z' || 'A' <= c <= 'Z'
    } else {
        unicode_alphanumeric(c)
    }
}

/// Whether a shell takes a character as it is.
pub open spec fn is_plain(c: char) -> bool {
    is_letter_or_number(c) || c == '.' || c == '_' || c == '-' || c == '/' || c == '~'
}

/// Text within single quotes: a quote closes them, stands escaped, and opens them again.
pub open spec fn quote_escaped(s: Seq<char>) -> Seq<char>
    decreases s.len(),
{
    if s.len() == 0 {
        s
    } else if s.last() == '\'' {
        quote_escaped(s.drop_last()) + seq!['\'', '\\', '\'', '\'']
    } else {
        quote_escaped(s.drop_last()).push(s.last())
    }
}

/// A text as a word for a shell, with a space behind it.
pub open spec fn shell_word(s: Seq<char>) -> Seq<char> {
    if s.len() == 0 {
        seq!['\'', '\'']
    } else if forall|i: int| 0 <= i < s.len() ==> is_plain(#[trigger] s[i]) {
        s.push(' ')
    } else {
        seq!['\''] + quote_escaped(s) + seq!['\'', ' ']
    }
}

fn is_plain_char(c: char) -> (v: bool)
    ensures
        v == is_plain(c),
{
    is_alphanumeric(c) || c == '.' || c == '_' || c == '-' || c == '/' || c == '~'
}

/// A path as a word for a shell, with a space behind it.
pub fn shell_quote(s: &str) -> (word: String)
    ensures
        word@ == shell_word(s@),
{
    let chars = chars_of(s);
    if chars.len() == 0 {
        let word = owned("''");
        proof {
            reveal_strlit("''");
            assert(word@ =~= seq!['\'', '\'']);
        }
        return word;
    }
    let mut safe = true;
    let mut i: usize = 0;
    while i < chars.len()
        invariant
            i <= chars@.len(),
            safe == (forall|k: int| 0 <= k < i ==> is_plain(#[trigger] chars@[k])),
        decreases chars@.len() - i,
    {
        if !is_plain_char(chars[i]) {
            safe = false;
        }
        i = i + 1;
    }
    if safe {
        let mut word = owned(s);
        word.push(' ');
        return word;
    }
    let mut word = String::new();
    word.push('\'');
    let mut j: usize = 0;
    proof {
        assert(chars@.subrange(0, 0) =~= Seq::empty());
        assert(word@ =~= seq!['\''] + quote_escaped(chars@.subrange(0, 0)));
    }
    while j < chars.len()
        invariant
            j <= chars@.len(),
            word@ == seq!['\''] + quote_escaped(chars@.subrange(0, j as int)),
        decreases chars@.len() - j,
    {
        let ghost before = word@;
        let ghost done = quote_escaped(chars@.subrange(0, j as int));
        proof {
            assert(chars@.subrange(0, j + 1).drop_last() =~= chars@.subrange(0, j as int));
            assert(chars@.subrange(0, j + 1).last() == chars@[j as int]);
        }
        if chars[j] == '\'' {
            word.push('\'');
            word.push('\\');
            word.push('\'');
            word.push('\'');
            proof {
                assert(word@ =~= seq!['\''] + (done + seq!['\'', '\\', '\'', '\'']));
            }
        } else {
            word.push(chars[j]);
            proof {
                assert(word@ =~= seq!['\''] + done.push(chars@[j as int]));
            }
        }
        j = j + 1;
    }
    word.push('\'');
    word.push(' ');
    proof {
        assert(chars@.subrange(0, j as int) =~= chars@);
        assert(word@ =~= shell_word(s@));
    }
    word
}

/// How a shell reads the first word of a line that holds no other special characters:
/// within single quotes all is taken as it is, a backslash outside of them makes the
/// next character plain, and a space ends the word.
pub open spec fn word_read(line: Seq<char>, quoted: bool) -> Seq<char>
    decreases line.len(),
{
    if line.len() == 0 {
        Seq::empty()
    } else if quoted {
        if line[0] == '\'' {
            word_read(line.drop_first(), false)
        } else {
            seq![line[0]] + word_read(line.drop_first(), true)
        }
    } else if line[0] == ' ' {
        Seq::empty()
    } else if line[0] == '\'' {
        word_read(line.drop_first(), true)
    } else if line[0] == '\\' && line.len() > 1 {
        seq![line[1]] + word_read(line.subrange(2, line.len() as int), false)
    } else {
        seq![line[0]] + word_read(line.drop_first(), false)
    }
}

proof fn lemma_plain_word(s: Seq<char>)
    requires
        forall|i: int| 0 <= i < s.len() ==> is_plain(#[trigger] s[i]),
    ensures
        word_read(s.push(' '), false) == s,
    decreases s.len(),
{
    let line = s.push(' ');
    if s.len() == 0 {
        assert(line[0] == ' ');
        assert(word_read(line, false) =~= s);
    } else {
        let rest = s.drop_first();
        assert forall|i: int| 0 <= i < rest.len() implies is_plain(#[trigger] rest[i]) by {
            assert(rest[i] == s[i + 1]);
        }
        lemma_plain_word(rest);
        assert(is_plain(s[0]));
        assert(line.drop_first() =~= rest.push(' '));
        assert(word_read(line, false) =~= s);
    }
}

/// Escaped quotes from the front.
proof fn lemma_quote_front(s: Seq<char>)
    requires
        s.len() > 0,
    ensures
        quote_escaped(s) == (if s[0] == '\'' {
            seq!['\'', '\\', '\'', '\''] + quote_escaped(s.drop_first())
        } else {
            seq![s[0]] + quote_escaped(s.drop_first())
        }),
    decreases s.len(),
{
    if s.len() == 1 {
        assert(s.drop_last() =~= Seq::empty());
        assert(s.drop_first() =~= Seq::empty());
        assert(quote_escaped(s.drop_last()) =~= Seq::empty());
        assert(quote_escaped(s.drop_first()) =~= Seq::empty());
        if s[0] == '\'' {
            assert(quote_escaped(s) =~= seq!['\'', '\\', '\'', '\''] + quote_escaped(
                s.drop_first(),
            ));
        } else {
            assert(quote_escaped(s) =~= seq![s[0]] + quote_escaped(s.drop_first()));
        }
    } else {
        lemma_quote_front(s.drop_last());
        assert(s.drop_last().drop_first() =~= s.drop_first().drop_last());
        let head = if s[0] == '\'' {
            seq!['\'', '\\', '\'', '\'']
        } else {
            seq![s[0]]
        };
        let middle = quote_escaped(s.drop_first().drop_last());
        assert(s.drop_first().last() == s.last());
        if s.last() == '\'' {
            assert((head + middle) + seq!['\'', '\\', '\'', '\''] =~= head + (middle + seq![
                '\'',
                '\\',
                '\'',
                '\'',
            ]));
        } else {
            assert((head + middle).push(s.last()) =~= head + middle.push(s.last()));
        }
    }
}

proof fn lemma_quoted_word(s: Seq<char>)
    ensures
        word_read(quote_escaped(s) + seq!['\'', ' '], true) == s,
    decreases s.len(),
{
    let end = seq!['\'', ' '];
    let line = quote_escaped(s) + end;
    if s.len() == 0 {
        assert(line =~= end);
        assert(line.drop_first() =~= seq![' ']);
        assert(word_read(seq![' '], false) =~= Seq::empty());
        assert(s =~= Seq::empty());
    } else {
        lemma_quote_front(s);
        lemma_quoted_word(s.drop_first());
        let rest = quote_escaped(s.drop_first()) + end;
        if s[0] == '\'' {
            let a = line.drop_first();
            assert(line[0] == '\'');
            assert(a =~= seq!['\\', '\'', '\''] + rest);
            let b = a.subrange(2, a.len() as int);
            assert(b =~= seq!['\''] + rest);
            assert(a[0] == '\\' && a[1] == '\'');
            assert(b[0] == '\'');
            assert(b.drop_first() =~= rest);
            assert(word_read(b, false) == s.drop_first());
            assert(word_read(a, false) == seq!['\''] + s.drop_first());
            assert(seq![s[0]] + s.drop_first() =~= s);
        } else {
            assert(line[0] == s[0]);
            assert(line.drop_first() =~= rest);
            assert(seq![s[0]] + s.drop_first() =~= s);
        }
    }
}

/// A shell reads a quoted text as the text that it was.
pub proof fn quoting_is_read_back(s: Seq<char>)
    ensures
        word_read(shell_word(s), false) == s,
{
    if s.len() == 0 {
        let word = seq!['\'', '\''];
        assert(word.drop_first() =~= seq!['\'']);
        assert(seq!['\''].drop_first() =~= Seq::<char>::empty());
        assert(word_read(Seq::<char>::empty(), false) =~= Seq::empty());
        assert(word_read(seq!['\''], true) =~= Seq::empty());
        assert(s =~= Seq::empty());
    } else if forall|i: int| 0 <= i < s.len() ==> is_plain(#[trigger] s[i]) {
        lemma_plain_word(s);
    } else {
        lemma_quoted_word(s);
        let word = shell_word(s);
        assert(word[0] == '\'');
        assert(word.drop_first() =~= quote_escaped(s) + seq!['\'', ' ']);
    }
}

/// A message about the clipboard: what it says, and what it carries.
pub open spec fn clipboard_packet(metadata: Seq<char>, payload: Option<Seq<char>>) -> Seq<u8> {
    seq![
        27u8,
        ']' as u8,
        '5' as u8,
        '5' as u8,
        '2' as u8,
        '2' as u8,
        ';' as u8,
    ] + encode_utf8(metadata) + (match payload {
        Some(payload) => seq![';' as u8] + encode_utf8(payload),
        None => Seq::empty(),
    }) + seq![27u8, '\\' as u8]
}

/// A message about the clipboard.
pub fn osc_5522_packet(metadata: &str, payload: Option<&str>) -> (packet: Vec<u8>)
    ensures
        packet@ == clipboard_packet(
            metadata@,
            match payload {
                Some(payload) => Some(payload@),
                None => None,
            },
        ),
{
    let mut packet: Vec<u8> = vec![
        27,
        ']' as u8,
        '5' as u8,
        '5' as u8,
        '2' as u8,
        '2' as u8,
        ';' as u8,
    ];
    push_text(&mut packet, metadata);
    if let Some(payload) = payload {
        packet.push(';' as u8);
        push_text(&mut packet, payload);
    }
    packet.push(27);
    packet.push('\\' as u8);
    proof {
        assert(packet@ =~= clipboard_packet(
            metadata@,
            match payload {
                Some(payload) => Some(payload@),
                None => None,
            },
        ));
    }
    packet
}

/// The answer to a request for the clipboard in a given form: that it comes, the
/// content, and that this was all.
pub open spec fn clipboard_answer(mime_type: Seq<char>, data: Seq<u8>) -> Seq<u8> {
    clipboard_packet("type=read:status=OK"@, None) + clipboard_packet(
        "type=read:status=DATA:mime="@ + base64_of(encode_utf8(mime_type)),
        Some(base64_of(data)),
    ) + clipboard_packet("type=read:status=DONE"@, None)
}

/// The answer to a request for the clipboard in a given form.
pub fn clipboard_5522_response_for_mime(mime_type: &str, data: &[u8]) -> (answer: Vec<u8>)
    ensures
        answer@ == clipboard_answer(mime_type@, data@),
{
    let encoded_mime = base64_encode(mime_type.as_bytes());
    let encoded_data = base64_encode(data);
    let mut metadata = owned("type=read:status=DATA:mime=");
    append_text(&mut metadata, encoded_mime.as_str());
    let mut answer = osc_5522_packet("type=read:status=OK", None);
    let content = osc_5522_packet(metadata.as_str(), Some(encoded_data.as_str()));
    push_bytes(&mut answer, content.as_slice());
    let done = osc_5522_packet("type=read:status=DONE", None);
    push_bytes(&mut answer, done.as_slice());
    answer
}

/// What an application is told that asked for the clipboard's content in a given form,
/// once it was read (nothing counts as empty text).
pub open spec fn read_answer(mime_type: Seq<char>, content: Seq<u8>, allowed: bool) -> Seq<u8> {
    if !allowed {
        clipboard_packet("type=read:status=EPERM"@, None)
    } else if content.len() > MAX_CLIPBOARD_RESPONSE_BYTES {
        clipboard_packet("type=read:status=EFBIG"@, None)
    } else if content.len() == 0 {
        clipboard_packet("type=read:status=ENOSYS"@, None)
    } else {
        clipboard_answer(mime_type, content)
    }
}

/// What an application is told that asked for the clipboard's content.
pub fn clipboard_read_answer(mime_type: &str, content: &str, allowed: bool) -> (answer: Vec<u8>)
    ensures
        answer@ == read_answer(mime_type@, encode_utf8(content@), allowed),
{
    let data = content.as_bytes();
    if !allowed {
        osc_5522_packet("type=read:status=EPERM", None)
    } else if data.len() > MAX_CLIPBOARD_RESPONSE_BYTES {
        osc_5522_packet("type=read:status=EFBIG", None)
    } else if data.len() == 0 {
        osc_5522_packet("type=read:status=ENOSYS", None)
    } else {
        clipboard_5522_response_for_mime(mime_type, data)
    }
}

/// Pasted text is sent as it is, and where the application asked for that between
/// `ESC [ 200 ~` and `ESC [ 201 ~`.
pub proof fn a_paste_is_marked_at_both_ends(text: Seq<char>)
    ensures
        pasted(text, false) == encode_utf8(text),
        pasted(text, true) == seq![0x1bu8, 0x5b, 0x32, 0x30, 0x30, 0x7e] + encode_utf8(text) + seq![
            0x1bu8,
            0x5b,
            0x32,
            0x30,
            0x31,
            0x7e,
        ],
        pasted(text, true).len() == pasted(text, false).len() + BRACKETED_PASTE_FRAMING_BYTES,
{
}

/// An answer about the clipboard: what may not be read, is too large or empty is answered
/// with the reason alone; any other content comes between an announcement and an end, with
/// its form and its bytes in base64.
pub proof fn clipboard_answers_say(mime: Seq<char>, content: Seq<u8>)
    ensures
        ({
            let head = seq![0x1bu8, 0x5d, 0x35, 0x35, 0x32, 0x32, 0x3b];
            let end = seq![0x1bu8, 0x5c];
            let just = |what: Seq<char>|
                head + encode_utf8("type=read:status="@ + what) + end;
            &&& read_answer(mime, content, false) == just("EPERM"@)
            &&& content.len() == 0 ==> read_answer(mime, content, true) == just("ENOSYS"@)
            &&& content.len() > 1_048_576 ==> read_answer(mime, content, true) == just("EFBIG"@)
            &&& 0 < content.len() <= 1_048_576 ==> read_answer(mime, content, true) == just("OK"@)
                + (head + encode_utf8(
                "type=read:status="@ + "DATA:mime="@ + base64_of(encode_utf8(mime)),
            ) + seq![0x3bu8] + encode_utf8(base64_of(content)) + end) + just("DONE"@)
        }),
{
    reveal_strlit("type=read:status=");
    reveal_strlit("EPERM");
    reveal_strlit("ENOSYS");
    reveal_strlit("EFBIG");
    reveal_strlit("OK");
    reveal_strlit("DONE");
    reveal_strlit("DATA:mime=");
    reveal_strlit("type=read:status=EPERM");
    reveal_strlit("type=read:status=ENOSYS");
    reveal_strlit("type=read:status=EFBIG");
    reveal_strlit("type=read:status=OK");
    reveal_strlit("type=read:status=DONE");
    reveal_strlit("type=read:status=DATA:mime=");
    assert("type=read:status="@ + "EPERM"@ =~= "type=read:status=EPERM"@);
    assert("type=read:status="@ + "ENOSYS"@ =~= "type=read:status=ENOSYS"@);
    assert("type=read:status="@ + "EFBIG"@ =~= "type=read:status=EFBIG"@);
    assert("type=read:status="@ + "OK"@ =~= "type=read:status=OK"@);
    assert("type=read:status="@ + "DONE"@ =~= "type=read:status=DONE"@);
    assert("type=read:status="@ + "DATA:mime="@ =~= "type=read:status=DATA:mime="@);
    let head = seq![0x1bu8, 0x5d, 0x35, 0x35, 0x32, 0x32, 0x3b];
    let end = seq![0x1bu8, 0x5c];
    lemma_packet("type=read:status=EPERM"@);
    lemma_packet("type=read:status=ENOSYS"@);
    lemma_packet("type=read:status=EFBIG"@);
    lemma_packet("type=read:status=OK"@);
    lemma_packet("type=read:status=DONE"@);
    let metadata = "type=read:status=DATA:mime="@ + base64_of(encode_utf8(mime));
    assert(clipboard_packet(metadata, Some(base64_of(content))) =~= head + encode_utf8(metadata)
        + seq![0x3bu8] + encode_utf8(base64_of(content)) + end);
}

proof fn lemma_packet(metadata: Seq<char>)
    ensures
        clipboard_packet(metadata, None) == seq![0x1bu8, 0x5d, 0x35, 0x35, 0x32, 0x32, 0x3b]
            + encode_utf8(metadata) + seq![0x1bu8, 0x5c],
{
    assert(clipboard_packet(metadata, None) =~= seq![0x1bu8, 0x5d, 0x35, 0x35, 0x32, 0x32, 0x3b]
        + encode_utf8(metadata) + seq![0x1bu8, 0x5c]);
}

} // verus!
