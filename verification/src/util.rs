//! Small shared helpers.
use crate::text;
use vstd::prelude::*;

verus! {

/// The oldest plausible wall-clock time: 2020-01-01T00:00:00Z.
pub const MIN_PLAUSIBLE_UNIX_TS: u64 = 1_577_836_800;

/// How a character stands in a JSON string.
pub open spec fn escaped_char(c: char) -> Seq<char> {
    if c == '"' {
        seq!['\\', '"']
    } else if c == '\\' {
        seq!['\\', '\\']
    } else if c == '\n' {
        seq!['\\', 'n']
    } else if c == '\r' {
        seq!['\\', 'r']
    } else if c == '\t' {
        seq!['\\', 't']
    } else if text::is_control(c) {
        seq![
            '\\',
            'u',
            '0',
            '0',
            text::hex_digit((c as u32 / 16) as nat),
            text::hex_digit((c as u32 % 16) as nat),
        ]
    } else {
        seq![c]
    }
}

/// A text with every character in the form in which it stands in a JSON string.
pub open spec fn json_escaped(s: Seq<char>) -> Seq<char>
    decreases s.len(),
{
    if s.len() == 0 {
        seq![]
    } else {
        escaped_char(s[0]) + json_escaped(s.skip(1))
    }
}

/// The value of a hexadecimal digit in small letters.
pub open spec fn hex_value(c: char) -> Option<nat> {
    if '0' <= c && c <= '9' {
        Some((c as u32 - '0' as u32) as nat)
    } else if 'a' <= c && c <= 'f' {
        Some((c as u32 - 'a' as u32 + 10) as nat)
    } else {
        None
    }
}

/// The character that stands at the front of the inside of a JSON string, and how many
/// characters it takes there. There is none where a quotation mark or a control character
/// stands outside an escape.
pub open spec fn first_decoded(s: Seq<char>) -> Option<(char, nat)> {
    if s.len() == 0 || s[0] == '"' || text::is_control(s[0]) {
        None
    } else if s[0] != '\\' {
        Some((s[0], 1))
    } else if s.len() < 2 {
        None
    } else if s[1] == '"' || s[1] == '\\' {
        Some((s[1], 2))
    } else if s[1] == 'n' {
        Some(('\n', 2))
    } else if s[1] == 'r' {
        Some(('\r', 2))
    } else if s[1] == 't' {
        Some(('\t', 2))
    } else if s[1] == 'u' && s.len() >= 6 && s[2] == '0' && s[3] == '0' && hex_value(s[4]) is Some
        && hex_value(s[5]) is Some {
        Some(((hex_value(s[4])->0 * 16 + hex_value(s[5])->0) as char, 6))
    } else {
        None
    }
}

/// The text that the inside of a JSON string stands for, where it is well formed.
pub open spec fn json_decoded(s: Seq<char>) -> Option<Seq<char>>
    decreases s.len(),
{
    if s.len() == 0 {
        Some(seq![])
    } else {
        match first_decoded(s) {
            Some((c, n)) => if 0 < n <= s.len() {
                match json_decoded(s.skip(n as int)) {
                    Some(rest) => Some(seq![c] + rest),
                    None => None,
                }
            } else {
                None
            },
            None => None,
        }
    }
}

/// An escaped text is the inside of a well-formed JSON string that stands for the text.
pub proof fn lemma_escaped_text_decodes(s: Seq<char>)
    ensures
        json_decoded(json_escaped(s)) == Some(s),
    decreases s.len(),
{
    if s.len() == 0 {
        assert(json_escaped(s) =~= Seq::<char>::empty());
        assert(s =~= Seq::<char>::empty());
    } else {
        let head = escaped_char(s[0]);
        let tail = json_escaped(s.skip(1));
        let all = head + tail;
        lemma_escaped_text_decodes(s.skip(1));
        assert(all.skip(head.len() as int) =~= tail);
        assert(forall|i: int| 0 <= i < head.len() ==> all[i] == head[i]);
        let c = s[0];
        if text::is_control(c) && c != '\n' && c != '\r' && c != '\t' {
            vstd::utf8::char_u32_cast(c, c as u32);
            let high = (c as u32 / 16) as nat;
            let low = (c as u32 % 16) as nat;
            assert(hex_value(text::hex_digit(high)) == Some(high));
            assert(hex_value(text::hex_digit(low)) == Some(low));
            assert((high * 16 + low) as char == c);
        }
        assert(first_decoded(all) == Some((c, head.len())));
        assert(seq![c] + s.skip(1) =~= s);
    }
}

fn push_escaped_char(out: &mut String, c: char)
    ensures
        final(out)@ == old(out)@ + escaped_char(c),
{
    if c == '"' {
        out.push('\\');
        out.push('"');
    } else if c == '\\' {
        out.push('\\');
        out.push('\\');
    } else if c == '\n' {
        out.push('\\');
        out.push('n');
    } else if c == '\r' {
        out.push('\\');
        out.push('r');
    } else if c == '\t' {
        out.push('\\');
        out.push('t');
    } else if text::is_control_char(c) {
        let code: u32 = c as u32;
        out.push('\\');
        out.push('u');
        out.push('0');
        out.push('0');
        out.push(text::to_hex_digit((code / 16) as u8));
        out.push(text::to_hex_digit((code % 16) as u8));
    } else {
        out.push(c);
    }
    assert(out@ =~= old(out)@ + escaped_char(c));
}

/// Appends a text, escaped for a JSON string.
pub fn push_json_escaped(out: &mut String, s: &str)
    ensures
        final(out)@ == old(out)@ + json_escaped(s@),
{
    let chars = text::chars_of(s);
    let ghost start = out@;
    let mut i: usize = 0;
    assert(s@.skip(0) =~= s@);
    while i < chars.len()
        invariant
            i <= chars.len(),
            chars@ == s@,
            out@ + json_escaped(s@.skip(i as int)) == start + json_escaped(s@),
        decreases chars.len() - i,
    {
        let ghost before = out@;
        push_escaped_char(out, chars[i]);
        proof {
            let rest = s@.skip(i as int);
            assert(rest.skip(1) =~= s@.skip(i + 1));
            assert((before + escaped_char(rest[0])) + json_escaped(rest.skip(1)) =~= before + (
            escaped_char(rest[0]) + json_escaped(rest.skip(1))));
        }
        i = i + 1;
    }
    assert(out@ + json_escaped(s@.skip(i as int)) =~= out@);
}

/// Escapes a text for a JSON string.
pub fn json_escape(s: &str) -> (r: String)
    ensures
        r@ == json_escaped(s@),
{
    let mut out = String::new();
    push_json_escaped(&mut out, s);
    assert(Seq::<char>::empty() + json_escaped(s@) =~= json_escaped(s@));
    out
}

/// A wall-clock reading in seconds, or 0 where the clock has not been set yet. An unset clock
/// counts from 1970.
pub fn plausible_unix_timestamp(seconds: u64) -> (r: u64)
    ensures
        r == if seconds < MIN_PLAUSIBLE_UNIX_TS {
            0
        } else {
            seconds
        },
{
    if seconds < MIN_PLAUSIBLE_UNIX_TS {
        0
    } else {
        seconds
    }
}

} // verus!
