//! What the operations on texts do.
use crate::decimal;
use crate::scale_ble::nimble;
use crate::text;
use crate::web_assets;
use crate::wifi_provision::http;
use crate::wifi_provision::settings_laws;
use vstd::prelude::*;

verus! {

/// A text in which a pattern stands nowhere is not changed by replacing it.
pub proof fn lemma_nothing_to_replace(s: Seq<char>, pattern: Seq<char>, with: Seq<char>)
    requires
        !text::occurs_in(s, pattern),
    ensures
        text::replaced(s, pattern, with) == s,
    decreases s.len(),
{
    if pattern.len() > 0 && s.len() > 0 {
        let rest = s.skip(1);
        assert(!text::stands_at(s, pattern, 0));
        assert(!text::occurs_in(rest, pattern)) by {
            if text::occurs_in(rest, pattern) {
                let at = choose|at: int| text::stands_at(rest, pattern, at);
                assert(s.subrange(at + 1, at + 1 + pattern.len()) =~= rest.subrange(
                    at,
                    at + pattern.len(),
                ));
                assert(text::stands_at(s, pattern, at + 1));
            }
        }
        lemma_nothing_to_replace(rest, pattern, with);
        assert(seq![s[0]] + rest =~= s);
    }
}

/// The first place at which a pattern stands gets the replacement, what is in front of it stays,
/// and replacing goes on behind it.
pub proof fn lemma_first_place_is_replaced(
    front: Seq<char>,
    pattern: Seq<char>,
    rest: Seq<char>,
    with: Seq<char>,
)
    requires
        pattern.len() > 0,
        forall|i: int|
            0 <= i < front.len() ==> !(#[trigger] text::stands_at(
                front + pattern + rest,
                pattern,
                i,
            )),
    ensures
        text::replaced(front + pattern + rest, pattern, with) == front + with + text::replaced(
            rest,
            pattern,
            with,
        ),
    decreases front.len(),
{
    let s = front + pattern + rest;
    if front.len() == 0 {
        assert(s.subrange(0, pattern.len() as int) =~= pattern);
        assert(s.skip(pattern.len() as int) =~= rest);
        assert(front + with =~= with);
    } else {
        let shorter = front.skip(1);
        assert(!text::stands_at(s, pattern, 0));
        assert(s.skip(1) =~= shorter + pattern + rest);
        assert forall|i: int| 0 <= i < shorter.len() implies !(#[trigger] text::stands_at(
            shorter + pattern + rest,
            pattern,
            i,
        )) by {
            if text::stands_at(shorter + pattern + rest, pattern, i) {
                assert(s.subrange(i + 1, i + 1 + pattern.len()) =~= s.skip(1).subrange(
                    i,
                    i + pattern.len(),
                ));
                assert(text::stands_at(s, pattern, i + 1));
            }
        }
        lemma_first_place_is_replaced(shorter, pattern, rest, with);
        let tail = text::replaced(rest, pattern, with);
        assert(seq![s[0]] + (shorter + with + tail) =~= front + with + tail);
    }
}

/// Whether a text has no opening brace.
pub open spec fn no_brace(s: Seq<char>) -> bool {
    forall|i: int| 0 <= i < s.len() ==> #[trigger] s[i] != '{'
}

proof fn lemma_plain_front_stays(
    front: Seq<char>,
    rest: Seq<char>,
    pattern: Seq<char>,
    with: Seq<char>,
)
    requires
        no_brace(front),
        pattern.len() > 0,
        pattern[0] == '{',
    ensures
        text::replaced(front + rest, pattern, with) == front + text::replaced(rest, pattern, with),
    decreases front.len(),
{
    let s = front + rest;
    if front.len() == 0 {
        assert(s =~= rest);
        assert(front + text::replaced(rest, pattern, with) =~= text::replaced(rest, pattern, with));
    } else {
        let shorter = front.skip(1);
        assert(s[0] == front[0]);
        assert(!text::stands_at(s, pattern, 0)) by {
            if text::stands_at(s, pattern, 0) {
                assert(s.subrange(0, pattern.len() as int)[0] == s[0]);
            }
        }
        assert(s.skip(1) =~= shorter + rest);
        assert forall|i: int| 0 <= i < shorter.len() implies #[trigger] shorter[i] != '{' by {
            assert(shorter[i] == front[i + 1]);
        }
        lemma_plain_front_stays(shorter, rest, pattern, with);
        let tail = text::replaced(rest, pattern, with);
        assert(seq![s[0]] + (shorter + tail) =~= front + tail);
    }
}

/// A place for something else is passed over: `{{` and a letter that the pattern does not have
/// there.
proof fn lemma_other_place_stays(
    inner: Seq<char>,
    rest: Seq<char>,
    pattern: Seq<char>,
    with: Seq<char>,
    k: int,
)
    requires
        no_brace(inner),
        pattern.len() > 2,
        pattern[0] == '{' && pattern[1] == '{',
        0 <= k < inner.len(),
        k + 2 < pattern.len(),
        pattern[k + 2] != inner[k],
        inner.len() > 0,
    ensures
        text::replaced(seq!['{', '{'] + inner + rest, pattern, with) == seq!['{', '{'] + inner
            + text::replaced(rest, pattern, with),
{
    let s = seq!['{', '{'] + inner + rest;
    assert(!text::stands_at(s, pattern, 0)) by {
        if text::stands_at(s, pattern, 0) {
            assert(s.subrange(0, pattern.len() as int)[k + 2] == s[k + 2]);
            assert(s[k + 2] == inner[k]);
        }
    }
    let s1 = s.skip(1);
    assert(!text::stands_at(s1, pattern, 0)) by {
        if text::stands_at(s1, pattern, 0) {
            assert(s1.subrange(0, pattern.len() as int)[1] == s1[1]);
            assert(s1[1] == inner[0]);
        }
    }
    let s2 = s1.skip(1);
    assert(s2 =~= inner + rest);
    lemma_plain_front_stays(inner, rest, pattern, with);
    let tail = text::replaced(rest, pattern, with);
    assert(s[0] == '{' && s1[0] == '{');
    assert(text::replaced(s, pattern, with) == seq![s[0]] + text::replaced(s1, pattern, with));
    assert(text::replaced(s1, pattern, with) == seq![s1[0]] + text::replaced(s2, pattern, with));
    assert(seq!['{'] + (seq!['{'] + (inner + tail)) =~= seq!['{', '{'] + inner + tail);
}

proof fn lemma_place_is_filled(rest: Seq<char>, pattern: Seq<char>, with: Seq<char>)
    requires
        pattern.len() > 0,
    ensures
        text::replaced(pattern + rest, pattern, with) == with + text::replaced(rest, pattern, with),
{
    let s = pattern + rest;
    assert(s.subrange(0, pattern.len() as int) =~= pattern);
    assert(s.skip(pattern.len() as int) =~= rest);
    assert(text::stands_at(s, pattern, 0));
}

proof fn lemma_end_stays(rest: Seq<char>, pattern: Seq<char>, with: Seq<char>)
    requires
        no_brace(rest),
        pattern.len() > 0,
        pattern[0] == '{',
    ensures
        text::replaced(rest, pattern, with) == rest,
{
    let none = Seq::<char>::empty();
    assert(rest + none =~= rest);
    lemma_plain_front_stays(rest, none, pattern, with);
}

/// A page of the portal has the name of the firmware where its template has `{{BUILD_ID}}`, the
/// name of the board where it has `{{BOARD_ID}}`, and is the template otherwise.
pub proof fn lemma_portal_page_is_filled(
    a: Seq<char>,
    b: Seq<char>,
    c: Seq<char>,
    build_id: Seq<char>,
    board_id: Seq<char>,
)
    requires
        no_brace(a) && no_brace(b) && no_brace(c),
        no_brace(build_id),
    ensures
        web_assets::portal_page(
            a + ("{{BUILD_ID}}"@ + (b + ("{{BOARD_ID}}"@ + c))),
            build_id,
            board_id,
        ) == a + (build_id + (b + (board_id + c))),
{
    let build = "{{BUILD_ID}}"@;
    let board = "{{BOARD_ID}}"@;
    reveal_strlit("{{BUILD_ID}}");
    reveal_strlit("{{BOARD_ID}}");
    let inner = board.skip(2);
    assert(board =~= seq!['{', '{'] + inner);
    assert(no_brace(inner)) by {
        assert forall|i: int| 0 <= i < inner.len() implies #[trigger] inner[i] != '{' by {
            assert(inner[i] == board[i + 2]);
        }
    }
    let tail = board + c;
    lemma_plain_front_stays(a, build + (b + tail), build, build_id);
    lemma_place_is_filled(b + tail, build, build_id);
    lemma_plain_front_stays(b, tail, build, build_id);
    assert(tail =~= seq!['{', '{'] + inner + c);
    assert(inner[1] == 'O' && build[3] == 'U');
    lemma_other_place_stays(inner, c, build, build_id, 1);
    lemma_end_stays(c, build, build_id);
    let once = a + (build_id + (b + tail));
    assert(text::replaced(a + (build + (b + tail)), build, build_id) == once);
    lemma_plain_front_stays(a, build_id + (b + tail), board, board_id);
    lemma_plain_front_stays(build_id, b + tail, board, board_id);
    lemma_plain_front_stays(b, tail, board, board_id);
    lemma_place_is_filled(c, board, board_id);
    lemma_end_stays(c, board, board_id);
}

/// A page of the station has the address where its template has `{{IP_ADDR}}`, and is a page of
/// the portal otherwise.
pub proof fn lemma_station_page_is_filled(
    a: Seq<char>,
    b: Seq<char>,
    c: Seq<char>,
    d: Seq<char>,
    ip_addr: Seq<char>,
    build_id: Seq<char>,
    board_id: Seq<char>,
)
    requires
        no_brace(a) && no_brace(b) && no_brace(c) && no_brace(d),
        no_brace(ip_addr) && no_brace(build_id),
    ensures
        web_assets::station_page(
            a + ("{{IP_ADDR}}"@ + (b + ("{{BUILD_ID}}"@ + (c + ("{{BOARD_ID}}"@ + d))))),
            ip_addr,
            build_id,
            board_id,
        ) == (a + ip_addr + b) + (build_id + (c + (board_id + d))),
{
    let ip = "{{IP_ADDR}}"@;
    let build = "{{BUILD_ID}}"@;
    let board = "{{BOARD_ID}}"@;
    reveal_strlit("{{IP_ADDR}}");
    reveal_strlit("{{BUILD_ID}}");
    reveal_strlit("{{BOARD_ID}}");
    let inner1 = build.skip(2);
    let inner2 = board.skip(2);
    assert(build =~= seq!['{', '{'] + inner1 && board =~= seq!['{', '{'] + inner2);
    assert(no_brace(inner1) && no_brace(inner2)) by {
        assert forall|i: int| 0 <= i < inner1.len() implies #[trigger] inner1[i] != '{' by {
            assert(inner1[i] == build[i + 2]);
        }
        assert forall|i: int| 0 <= i < inner2.len() implies #[trigger] inner2[i] != '{' by {
            assert(inner2[i] == board[i + 2]);
        }
    }
    assert(inner1[0] == 'B' && inner2[0] == 'B' && ip[2] == 'I');
    let tail2 = board + d;
    let tail1 = build + (c + tail2);
    lemma_plain_front_stays(a, ip + (b + tail1), ip, ip_addr);
    lemma_place_is_filled(b + tail1, ip, ip_addr);
    lemma_plain_front_stays(b, tail1, ip, ip_addr);
    assert(tail1 =~= seq!['{', '{'] + inner1 + (c + tail2));
    lemma_other_place_stays(inner1, c + tail2, ip, ip_addr, 0);
    lemma_plain_front_stays(c, tail2, ip, ip_addr);
    assert(tail2 =~= seq!['{', '{'] + inner2 + d);
    lemma_other_place_stays(inner2, d, ip, ip_addr, 0);
    lemma_end_stays(d, ip, ip_addr);
    let front = a + ip_addr + b;
    assert(a + (ip_addr + (b + tail1)) =~= front + tail1);
    assert(no_brace(front)) by {
        assert forall|i: int| 0 <= i < front.len() implies #[trigger] front[i] != '{' by {
            if i < a.len() {
                assert(front[i] == a[i]);
            } else if i < a.len() + ip_addr.len() {
                assert(front[i] == ip_addr[i - a.len()]);
            } else {
                assert(front[i] == b[i - a.len() - ip_addr.len()]);
            }
        }
    }
    lemma_portal_page_is_filled(front, c, d, build_id, board_id);
}

/// Two texts are the same but for case where they are as long as each other and each character of
/// one is that of the other, or the same letter from `A` to `Z` or `a` to `z` in the other case.
pub proof fn lemma_same_but_for_case(a: Seq<char>, b: Seq<char>)
    ensures
        text::same_ignoring_case(a, b) <==> a.len() == b.len() && forall|i: int|
            0 <= i < a.len() ==> same_letter(#[trigger] a[i], b[i]),
{
    let x = text::lower(a);
    let y = text::lower(b);
    if text::same_ignoring_case(a, b) {
        assert(x.len() == y.len());
        assert forall|i: int| 0 <= i < a.len() implies same_letter(#[trigger] a[i], b[i]) by {
            assert(x[i] == y[i]);
            lemma_same_letter(a[i], b[i]);
        }
    }
    if a.len() == b.len() && forall|i: int|
        0 <= i < a.len() ==> same_letter(#[trigger] a[i], b[i]) {
        assert forall|i: int| 0 <= i < x.len() implies x[i] == y[i] by {
            assert(same_letter(a[i], b[i]));
            lemma_same_letter(a[i], b[i]);
        }
        assert(x =~= y);
    }
}

/// Whether two characters are the same, or one letter in both cases.
pub open spec fn same_letter(c: char, d: char) -> bool {
    ||| c == d
    ||| 65 <= c as u32 <= 90 && d as u32 == c as u32 + 32
    ||| 65 <= d as u32 <= 90 && c as u32 == d as u32 + 32
}

proof fn lemma_same_letter(c: char, d: char)
    ensures
        text::lower_char(c) == text::lower_char(d) <==> same_letter(c, d),
{
    vstd::utf8::char_u32_cast(c, c as u32);
    vstd::utf8::char_u32_cast(d, d as u32);
    let e = text::lower_char(c);
    let f = text::lower_char(d);
    vstd::utf8::char_u32_cast(e, e as u32);
    vstd::utf8::char_u32_cast(f, f as u32);
}

/// Of two texts that differ the one with the smaller character at the first difference comes
/// first, and a text comes before what continues it.
pub proof fn lemma_first_difference_decides(
    front: Seq<char>,
    c: char,
    x: Seq<char>,
    d: char,
    y: Seq<char>,
)
    requires
        c as u32 != d as u32,
    ensures
        text::text_before(front + seq![c] + x, front + seq![d] + y) <==> (c as u32) < d as u32,
        text::text_before(front, front + seq![d] + y),
        !text::text_before(front + seq![d] + y, front),
        !text::text_before(front, front),
    decreases front.len(),
{
    let a = front + seq![c] + x;
    let b = front + seq![d] + y;
    if front.len() > 0 {
        let shorter = front.skip(1);
        lemma_first_difference_decides(shorter, c, x, d, y);
        assert(a.skip(1) =~= shorter + seq![c] + x);
        assert(b.skip(1) =~= shorter + seq![d] + y);
        assert(a[0] == front[0] && b[0] == front[0]);
        assert(a.drop_first() =~= a.skip(1) && b.drop_first() =~= b.skip(1)
            && front.drop_first() =~= front.skip(1));
    } else {
        assert(a[0] == c && b[0] == d);
    }
}

/// The value of a hexadecimal digit in capitals.
pub open spec fn hex_digit_value(c: char) -> int {
    if 48 <= c as u32 <= 57 {
        c as u32 - 48
    } else if 65 <= c as u32 <= 70 {
        c as u32 - 55
    } else {
        -1
    }
}

/// A byte is written as two hexadecimal digits, the high one first.
pub proof fn lemma_hex_byte_is_read_back(b: u8)
    ensures
        text::upper_hex_byte(b).len() == 2,
        hex_digit_value(text::upper_hex_byte(b)[0]) * 16 + hex_digit_value(
            text::upper_hex_byte(b)[1],
        ) == b,
        0 <= hex_digit_value(text::upper_hex_byte(b)[0]) < 16,
        0 <= hex_digit_value(text::upper_hex_byte(b)[1]) < 16,
{
}

/// An address is written as its six bytes in hexadecimal digits, the last byte first, with colons
/// between them.
pub proof fn lemma_address_is_read_back(bytes: Seq<u8>, i: int)
    requires
        bytes.len() == 6,
        0 <= i < 6,
    ensures
        ({
            let s = nimble::address_text(bytes);
            &&& s.len() == 17
            &&& hex_digit_value(s[3 * i]) * 16 + hex_digit_value(s[3 * i + 1]) == bytes[5 - i]
            &&& i < 5 ==> s[3 * i + 2] == ':'
        }),
{
    reveal_strlit(":");
    lemma_hex_byte_is_read_back(bytes[5 - i]);
    let s = nimble::address_text(bytes);
    let pair = text::upper_hex_byte(bytes[5 - i]);
    assert(s[3 * i] == pair[0] && s[3 * i + 1] == pair[1]);
}

/// The name of a board is its six bytes in hexadecimal digits, the first byte first.
pub proof fn lemma_board_name_is_read_back(mac: [u8; 6], i: int)
    requires
        0 <= i < 6,
    ensures
        ({
            let s = http::board_name(Some(mac));
            &&& s.len() == 12
            &&& hex_digit_value(s[2 * i]) * 16 + hex_digit_value(s[2 * i + 1]) == mac[i]
        }),
{
    lemma_hex_byte_is_read_back(mac[i]);
    let s = http::board_name(Some(mac));
    let pair = text::upper_hex_byte(mac[i]);
    assert(s[2 * i] == pair[0] && s[2 * i + 1] == pair[1]);
}

/// An integer is written as its digits, behind a minus sign where it is below zero.
pub proof fn lemma_integer_is_read_back(n: int)
    ensures
        ({
            let s = text::signed_decimal(n);
            &&& s.len() > 0
            &&& n >= 0 ==> decimal::digits_value(s) == n
            &&& n < 0 ==> s[0] == '-' && decimal::digits_value(s.skip(1)) == -n
            &&& n >= 0 ==> s[0] != '-'
        }),
{
    if n < 0 {
        settings_laws::lemma_decimal_value((-n) as nat);
        let s = text::signed_decimal(n);
        assert(s.skip(1) =~= text::decimal((-n) as nat));
    } else {
        settings_laws::lemma_decimal_value(n as nat);
        assert(decimal::is_digit(text::decimal(n as nat)[0]));
    }
}

/// Bytes are written in hexadecimal digits with blanks between them.
pub proof fn lemma_spaced_bytes_are_read_back(bytes: Seq<u8>, i: int)
    requires
        0 <= i < bytes.len(),
    ensures
        ({
            let s = nimble::spaced_hex(bytes);
            &&& s.len() == 3 * bytes.len() - 1
            &&& hex_digit_value(s[3 * i]) * 16 + hex_digit_value(s[3 * i + 1]) == bytes[i]
            &&& i + 1 < bytes.len() ==> s[3 * i + 2] == ' '
        }),
    decreases bytes.len(),
{
    reveal_strlit(" ");
    let s = nimble::spaced_hex(bytes);
    let last = bytes.len() - 1;
    lemma_hex_byte_is_read_back(bytes[i]);
    lemma_hex_byte_is_read_back(bytes[last]);
    if bytes.len() > 1 {
        let front = bytes.drop_last();
        let a = nimble::spaced_hex(front);
        let pair = text::upper_hex_byte(bytes[last]);
        if i < last {
            lemma_spaced_bytes_are_read_back(front, i);
            assert(s[3 * i] == a[3 * i] && s[3 * i + 1] == a[3 * i + 1]);
            if i + 1 < last {
                assert(s[3 * i + 2] == a[3 * i + 2]);
            } else {
                assert(s[a.len() as int] == ' ');
            }
        } else {
            lemma_spaced_bytes_are_read_back(front, 0);
            assert(s[3 * i] == pair[0] && s[3 * i + 1] == pair[1]);
        }
    }
}

/// An address is given where one of its bytes is not 0.
pub proof fn lemma_given_address(a: [u8; 6])
    ensures
        nimble::is_given(Some(a)) <==> exists|i: int| 0 <= i < 6 && #[trigger] a@[i] != 0,
        !nimble::is_given(None),
{
    let zeros = seq![0u8, 0, 0, 0, 0, 0];
    if !nimble::is_given(Some(a)) {
        assert(a@ == zeros);
        assert forall|i: int| 0 <= i < 6 implies #[trigger] a@[i] == 0 by {
            assert(zeros[i] == 0);
        }
    } else if forall|i: int| 0 <= i < 6 ==> #[trigger] a@[i] == 0 {
        assert(a@ =~= zeros);
    }
}

} // verus!
