//! What a controller and those who inspect it say to each other: each understands the other.
use vstd::prelude::*;
use vstd::utf8;

use crate::controller::inspect;
use crate::json;
use crate::json::JsonView;
use crate::remote;
use crate::text;
use crate::wire;

verus! {

/// A character inside a line of a header.
spec fn plain(c: char) -> bool {
    c != '\r' && c != '\n' && '\0' <= c <= '\u{7f}'
}

/// A character inside a word of a header.
spec fn solid(c: char) -> bool {
    plain(c) && !text::white(c)
}

proof fn words_skip(c: char, s: Seq<char>)
    requires
        text::white(c),
    ensures
        text::words(seq![c] + s) == text::words(s),
{
    let t = seq![c] + s;
    assert(t.drop_first() =~= s);
    text::trimmed_start_bound(s);
    text::word_len_bound(text::trimmed_start(s));
}

proof fn word_len_of(w: Seq<char>, rest: Seq<char>)
    requires
        forall|i: int| 0 <= i < w.len() ==> !text::white(#[trigger] w[i]),
        rest.len() > 0 ==> text::white(rest[0]),
    ensures
        text::word_len(w + rest) == w.len(),
    decreases w.len(),
{
    if w.len() == 0 {
        assert(w + rest =~= rest);
    } else {
        assert(!text::white(w[0]));
        assert((w + rest).drop_first() =~= w.drop_first() + rest);
        word_len_of(w.drop_first(), rest);
    }
}

proof fn words_begin(w: Seq<char>, rest: Seq<char>)
    requires
        w.len() > 0,
        forall|i: int| 0 <= i < w.len() ==> !text::white(#[trigger] w[i]),
        rest.len() > 0 ==> text::white(rest[0]),
    ensures
        text::words(w + rest) == seq![w] + text::words(rest),
{
    let s = w + rest;
    word_len_of(w, rest);
    assert(!text::white(w[0]));
    assert(text::trimmed_start(s) == s);
    assert(s.take(w.len() as int) =~= w);
    assert(s.skip(w.len() as int) =~= rest);
}

proof fn first_line_of(a: Seq<char>, rest: Seq<char>)
    requires
        forall|i: int| 0 <= i < a.len() ==> #[trigger] a[i] != '\n',
        rest.len() > 0,
        rest[0] == '\n',
    ensures
        text::first_line(a + rest) == a,
    decreases a.len(),
{
    if a.len() == 0 {
        assert(a + rest =~= rest);
        assert(a =~= seq![]);
    } else {
        assert(a[0] != '\n');
        assert((a + rest).drop_first() =~= a.drop_first() + rest);
        first_line_of(a.drop_first(), rest);
        assert(seq![a[0]] + a.drop_first() =~= a);
    }
}

proof fn lines_begin(a: Seq<char>, rest: Seq<char>)
    requires
        forall|i: int| 0 <= i < a.len() ==> #[trigger] a[i] != '\n',
    ensures
        text::lines(a + seq!['\n'] + rest) == seq![a] + text::lines(rest),
{
    let s = a + seq!['\n'] + rest;
    assert(s =~= a + (seq!['\n'] + rest));
    first_line_of(a, seq!['\n'] + rest);
    assert(s[a.len() as int] == '\n');
    assert(s.skip(a.len() as int + 1) =~= rest);
}

proof fn last_line(a: Seq<char>)
    requires
        forall|i: int| 0 <= i < a.len() ==> #[trigger] a[i] != '\n',
    ensures
        text::lines(a) == seq![a],
{
}

proof fn parted_at(s: Seq<char>, n: int)
    requires
        0 <= n < s.len(),
        s[n] == ':',
        forall|i: int| 0 <= i < n ==> #[trigger] s[i] != ':',
    ensures
        text::parted(s, ':') == Some((s.take(n), s.skip(n + 1))),
{
    place_at(s, n);
}

proof fn place_at(s: Seq<char>, n: int)
    requires
        0 <= n < s.len(),
        s[n] == ':',
        forall|i: int| 0 <= i < n ==> #[trigger] s[i] != ':',
    ensures
        text::place_of(s, ':') == n,
    decreases n,
{
    if n > 0 {
        let rest = s.drop_first();
        assert(s[0] != ':');
        assert forall|i: int| 0 <= i < n - 1 implies #[trigger] rest[i] != ':' by {
            assert(rest[i] == s[i + 1]);
        }
        place_at(rest, n - 1);
    }
}

proof fn not_parted(s: Seq<char>)
    requires
        forall|i: int| 0 <= i < s.len() ==> #[trigger] s[i] != ':',
    ensures
        text::parted(s, ':') is None,
    decreases s.len(),
{
    if s.len() > 0 {
        let rest = s.drop_first();
        assert(s[0] != ':');
        assert forall|i: int| 0 <= i < rest.len() implies #[trigger] rest[i] != ':' by {
            assert(rest[i] == s[i + 1]);
        }
        not_parted(rest);
    }
}

proof fn start_chars()
    ensures
        ({
            let s = "HTTP/1.1 "@;
            &&& s.len() == 9
            &&& s[8] == ' '
            &&& forall|i: int| 0 <= i < 8 ==> solid(#[trigger] s[i]) && s[i] != ':'
        }),
{
    reveal_strlit("HTTP/1.1 ");
    let s = "HTTP/1.1 "@;
    assert(s.len() == 9);
    assert forall|i: int| 0 <= i < 8 implies solid(#[trigger] s[i]) && s[i] != ':' by {
        assert(i == 0 || i == 1 || i == 2 || i == 3 || i == 4 || i == 5 || i == 6 || i == 7);
    }
}

proof fn reason_chars()
    ensures
        ({
            let s = " Response\r\n"@;
            &&& s.len() == 11
            &&& s[0] == ' '
            &&& s[9] == '\r'
            &&& s[10] == '\n'
            &&& forall|i: int| 0 <= i < 9 ==> plain(#[trigger] s[i]) && s[i] != ':'
        }),
{
    reveal_strlit(" Response\r\n");
    let s = " Response\r\n"@;
    assert(s.len() == 11);
    assert forall|i: int| 0 <= i < 9 implies plain(#[trigger] s[i]) && s[i] != ':' by {
        assert(i == 0 || i == 1 || i == 2 || i == 3 || i == 4 || i == 5 || i == 6 || i == 7 || i ==
            8);
    }
}

proof fn headers_chars()
    ensures
        ({
            let s = inspect::HEADERS@;
            &&& s.len() == 57
            &&& s[12] == ':'
            &&& s[30] == '\r'
            &&& s[31] == '\n'
            &&& s[45] == ':'
            &&& s[55] == '\r'
            &&& s[56] == '\n'
            &&& forall|i: int| 0 <= i < 30 ==> plain(#[trigger] s[i])
            &&& forall|i: int| 0 <= i < 12 ==> #[trigger] s[i] != ':'
            &&& forall|i: int| 32 <= i < 55 ==> plain(#[trigger] s[i])
            &&& forall|i: int| 32 <= i < 45 ==> #[trigger] s[i] != ':'
        }),
{
    reveal_strlit("Content-Type: application/json\r\nCache-Control: no-store\r\n");
    let s = "Content-Type: application/json\r\nCache-Control: no-store\r\n"@;
    assert(s.len() == 57);
    assert forall|i: int| 0 <= i < 30 implies plain(#[trigger] s[i]) by {
        assert(i == 0 || i == 1 || i == 2 || i == 3 || i == 4 || i == 5 || i == 6 || i == 7 || i ==
            8 || i == 9 || i == 10 || i == 11 || i == 12 || i == 13 || i == 14 || i == 15 || i
            == 16 || i == 17 || i == 18 || i == 19 || i == 20 || i == 21 || i == 22 || i == 23
            || i == 24 || i == 25 || i == 26 || i == 27 || i == 28 || i == 29);
    }
    assert forall|i: int| 0 <= i < 12 implies #[trigger] s[i] != ':' by {
        assert(i == 0 || i == 1 || i == 2 || i == 3 || i == 4 || i == 5 || i == 6 || i == 7 || i ==
            8 || i == 9 || i == 10 || i == 11);
    }
    assert forall|i: int| 32 <= i < 55 implies plain(#[trigger] s[i]) by {
        assert(i == 32 || i == 33 || i == 34 || i == 35 || i == 36 || i == 37 || i == 38 || i == 39
            || i == 40 || i == 41 || i == 42 || i == 43 || i == 44 || i == 45 || i == 46 || i ==
            47 || i == 48 || i == 49 || i == 50 || i == 51 || i == 52 || i == 53 || i == 54);
    }
    assert forall|i: int| 32 <= i < 45 implies #[trigger] s[i] != ':' by {
        assert(i == 32 || i == 33 || i == 34 || i == 35 || i == 36 || i == 37 || i == 38 || i == 39
            || i == 40 || i == 41 || i == 42 || i == 43 || i == 44);
    }
}

proof fn length_chars()
    ensures
        ({
            let s = "Content-Length: "@;
            &&& s.len() == 16
            &&& s[14] == ':'
            &&& s[15] == ' '
            &&& forall|i: int| 0 <= i < 16 ==> plain(#[trigger] s[i])
            &&& forall|i: int| 0 <= i < 14 ==> #[trigger] s[i] != ':'
            &&& text::ascii_lowered(s.take(14)) == "content-length"@
        }),
{
    reveal_strlit("Content-Length: ");
    let s = "Content-Length: "@;
    assert(s.len() == 16);
    assert forall|i: int| 0 <= i < 16 implies plain(#[trigger] s[i]) by {
        assert(i == 0 || i == 1 || i == 2 || i == 3 || i == 4 || i == 5 || i == 6 || i == 7 || i ==
            8 || i == 9 || i == 10 || i == 11 || i == 12 || i == 13 || i == 14 || i == 15);
    }
    assert forall|i: int| 0 <= i < 14 implies #[trigger] s[i] != ':' by {
        assert(i == 0 || i == 1 || i == 2 || i == 3 || i == 4 || i == 5 || i == 6 || i == 7 || i ==
            8 || i == 9 || i == 10 || i == 11 || i == 12 || i == 13);
    }
    reveal_strlit("content-length");
    let low = text::ascii_lowered(s.take(14));
    let name = "content-length"@;
    assert(low.len() == 14 && name.len() == 14);
    assert forall|i: int| 0 <= i < 14 implies #[trigger] low[i] == name[i] by {
        assert(i == 0 || i == 1 || i == 2 || i == 3 || i == 4 || i == 5 || i == 6 || i == 7 || i ==
            8 || i == 9 || i == 10 || i == 11 || i == 12 || i == 13);
    }
    assert(low =~= name);
}

proof fn rest_chars()
    ensures
        ({
            let s = "\r\nConnection: close\r\n\r\n"@;
            &&& s.len() == 23
            &&& s[0] == '\r'
            &&& s[1] == '\n'
            &&& s[12] == ':'
            &&& s[19] == '\r'
            &&& s[20] == '\n'
            &&& s[21] == '\r'
            &&& s[22] == '\n'
            &&& forall|i: int| 2 <= i < 19 ==> plain(#[trigger] s[i])
            &&& forall|i: int| 2 <= i < 12 ==> #[trigger] s[i] != ':'
        }),
{
    reveal_strlit("\r\nConnection: close\r\n\r\n");
    let s = "\r\nConnection: close\r\n\r\n"@;
    assert(s.len() == 23);
    assert forall|i: int| 2 <= i < 19 implies plain(#[trigger] s[i]) by {
        assert(i == 2 || i == 3 || i == 4 || i == 5 || i == 6 || i == 7 || i == 8 || i == 9 || i ==
            10 || i == 11 || i == 12 || i == 13 || i == 14 || i == 15 || i == 16 || i == 17 || i
            == 18);
    }
    assert forall|i: int| 2 <= i < 12 implies #[trigger] s[i] != ':' by {
        assert(i == 2 || i == 3 || i == 4 || i == 5 || i == 6 || i == 7 || i == 8 || i == 9 || i ==
            10 || i == 11);
    }
}

proof fn digit_is_plain(c: char)
    requires
        text::ascii_digit(c),
    ensures
        c != '\n',
        c != ':',
        '\0' <= c <= '\u{7f}',
        !text::white(c),
{
}

/// Whether a text is ASCII and has no line feed.
spec fn one_line(s: Seq<char>) -> bool {
    forall|i: int| 0 <= i < s.len() ==> #[trigger] s[i] != '\n' && '\0' <= s[i] <= '\u{7f}'
}

/// The lines of a reply's head, without the empty one.
spec fn head_lines(status: u16, length: nat) -> Seq<Seq<char>> {
    seq![
        "HTTP/1.1 "@ + text::decimal(status as nat) + " Response\r\n"@.take(10),
        inspect::HEADERS@.take(31),
        inspect::HEADERS@.subrange(32, 56),
        "Content-Length: "@ + text::decimal(length) + seq!['\r'],
        "\r\nConnection: close\r\n\r\n"@.subrange(2, 19),
    ]
}

/// A reply's head, without the empty line.
spec fn head_text(status: u16, length: nat) -> Seq<char> {
    let l = head_lines(status, length);
    l[0] + seq!['\n'] + (l[1] + seq!['\n'] + (l[2] + seq!['\n'] + (l[3] + seq!['\n'] + l[4])))
}

proof fn head_is_text(status: u16, length: nat)
    ensures
        wire::reply_head(status, inspect::HEADERS@, length) == head_text(status, length) + seq![
            '\r',
            '\n',
            '\r',
            '\n',
        ],
{
    start_chars();
    reason_chars();
    headers_chars();
    length_chars();
    rest_chars();
    let reason = " Response\r\n"@;
    let headers = inspect::HEADERS@;
    let rest = "\r\nConnection: close\r\n\r\n"@;
    assert(reason =~= reason.take(10) + seq!['\n']);
    assert(headers =~= headers.take(31) + seq!['\n'] + headers.subrange(32, 56) + seq!['\n']);
    assert(rest =~= seq!['\r', '\n'] + rest.subrange(2, 19) + seq!['\r', '\n', '\r', '\n']);
    assert(wire::reply_head(status, headers, length) =~= head_text(status, length) + seq![
        '\r',
        '\n',
        '\r',
        '\n',
    ]);
}

proof fn head_in_lines(status: u16, length: nat)
    ensures
        text::lines(head_text(status, length)) == head_lines(status, length),
        forall|k: int|
            0 <= k < head_text(status, length).len() ==> '\0' <= #[trigger] head_text(
                status,
                length,
            )[k] <= '\u{7f}',
{
    start_chars();
    reason_chars();
    headers_chars();
    length_chars();
    rest_chars();
    text::decimals_are_read_back(status as nat, status as nat);
    text::decimals_are_read_back(length, length);
    let l = head_lines(status, length);
    let code = text::decimal(status as nat);
    let number = text::decimal(length);
    assert(one_line(code)) by {
        assert forall|i: int| 0 <= i < code.len() implies #[trigger] code[i] != '\n' && '\0'
            <= code[i] <= '\u{7f}' by {
            digit_is_plain(code[i]);
        }
    }
    assert(one_line(number)) by {
        assert forall|i: int| 0 <= i < number.len() implies #[trigger] number[i] != '\n' && '\0'
            <= number[i] <= '\u{7f}' by {
            digit_is_plain(number[i]);
        }
    }
    assert(one_line(l[0]));
    assert(one_line(l[1]));
    assert(one_line(l[2]));
    assert(one_line(l[3]));
    assert(one_line(l[4]));
    let d = l[3] + seq!['\n'] + l[4];
    let c = l[2] + seq!['\n'] + d;
    let b = l[1] + seq!['\n'] + c;
    last_line(l[4]);
    lines_begin(l[3], l[4]);
    lines_begin(l[2], d);
    lines_begin(l[1], c);
    lines_begin(l[0], b);
    assert(text::lines(head_text(status, length)) =~= l);
}

proof fn status_is_stated(status: u16, length: nat)
    ensures
        ({
            let w = text::words(head_lines(status, length)[0]);
            w.len() >= 2 && w[1] == text::decimal(status as nat)
        }),
{
    start_chars();
    reason_chars();
    text::decimals_are_read_back(status as nat, status as nat);
    let start = "HTTP/1.1 "@;
    let code = text::decimal(status as nat);
    let reason = " Response\r\n"@.take(10);
    assert forall|i: int| 0 <= i < code.len() implies !text::white(#[trigger] code[i]) by {
        digit_is_plain(code[i]);
    }
    words_begin(code, reason);
    words_skip(' ', code + reason);
    let w = start.take(8);
    assert forall|i: int| 0 <= i < w.len() implies !text::white(#[trigger] w[i]) by {
        assert(solid(start[i]));
    }
    words_begin(w, seq![' '] + (code + reason));
    assert(w + (seq![' '] + (code + reason)) =~= head_lines(status, length)[0]);
}

proof fn trimmed_number(number: Seq<char>)
    requires
        number.len() > 0,
        text::all_digits(number),
    ensures
        text::trimmed(seq![' '] + number + seq!['\r']) == number,
{
    let s = seq![' '] + number + seq!['\r'];
    let t = number + seq!['\r'];
    assert(s.drop_first() =~= t);
    digit_is_plain(number[0]);
    assert(text::trimmed_start(t) == t);
    assert(text::trimmed_start(s) == t);
    assert(t.drop_last() =~= number);
    digit_is_plain(number.last());
    assert(text::trimmed_end(number) == number);
    assert(text::white(t.last()));
}

proof fn length_is_stated(status: u16, length: nat)
    requires
        length <= u64::MAX,
    ensures
        remote::lengths(head_lines(status, length).drop_first()) == seq![Some(length)],
        !remote::encoded(head_lines(status, length)),
{
    start_chars();
    reason_chars();
    headers_chars();
    length_chars();
    rest_chars();
    text::decimals_are_read_back(status as nat, status as nat);
    text::decimals_are_read_back(length, u64::MAX as nat);
    reveal_strlit("content-length");
    reveal_strlit("transfer-encoding");
    let named = "content-length"@;
    let coded = "transfer-encoding"@;
    assert(named.len() == 14 && coded.len() == 17);
    let l = head_lines(status, length);
    let code = text::decimal(status as nat);
    let number = text::decimal(length);
    assert forall|i: int| 0 <= i < l[0].len() implies #[trigger] l[0][i] != ':' by {
        if 9 <= i < 9 + code.len() {
            assert(l[0][i] == code[i - 9]);
            digit_is_plain(code[i - 9]);
        } else if i < 9 {
            assert(l[0][i] == "HTTP/1.1 "@[i]);
        } else {
            assert(l[0][i] == " Response\r\n"@[i - 9 - code.len()]);
        }
    }
    not_parted(l[0]);
    parted_at(l[1], 12);
    parted_at(l[2], 13);
    assert(l[3].take(14) =~= "Content-Length: "@.take(14));
    parted_at(l[3], 14);
    assert(l[3].skip(15) =~= seq![' '] + number + seq!['\r']);
    trimmed_number(number);
    parted_at(l[4], 10);
    assert(!remote::encoded(l)) by {
        assert forall|j: int| 0 <= j < l.len() implies !remote::is_named(
            #[trigger] l[j],
            coded,
        ) by {
            assert(j == 0 || j == 1 || j == 2 || j == 3 || j == 4);
        }
    }
    let tail = l.drop_first();
    let a = seq![l[1]];
    let b = a.push(l[2]);
    let c = b.push(l[3]);
    assert(tail =~= c.push(l[4]));
    assert(tail.drop_last() =~= c && c.drop_last() =~= b && b.drop_last() =~= a && a.drop_last()
        =~= seq![]);
    assert(remote::lengths(seq![]) =~= seq![]);
    assert(remote::lengths(a) =~= seq![]);
    assert(remote::lengths(b) =~= seq![]);
    assert(remote::lengths(c) =~= seq![Some(length)]);
    assert(remote::lengths(tail) =~= seq![Some(length)]);
}

/// No carriage return in a reply's head stands two places before another, but for the last.
proof fn head_ends_once(status: u16, length: nat, k: int)
    requires
        0 <= k < head_text(status, length).len(),
    ensures
        ({
            let head = wire::reply_head(status, inspect::HEADERS@, length);
            head[k] == '\r' ==> head[k + 2] != '\r'
        }),
{
    start_chars();
    reason_chars();
    headers_chars();
    length_chars();
    rest_chars();
    head_is_text(status, length);
    text::decimals_are_read_back(status as nat, status as nat);
    text::decimals_are_read_back(length, length);
    let head = wire::reply_head(status, inspect::HEADERS@, length);
    let code = text::decimal(status as nat);
    let number = text::decimal(length);
    let rest = "\r\nConnection: close\r\n\r\n"@;
    let a = 9 + code.len();
    let b = a + 11;
    let c = b + 57;
    let d = c + 16;
    let e = d + number.len();
    assert(head.len() == e + 23);
    if k < 9 {
        assert(head[k] == "HTTP/1.1 "@[k]);
        assert(k == 8 || solid("HTTP/1.1 "@[k]));
    } else if k < a {
        assert(head[k] == code[k - 9]);
        digit_is_plain(code[k - 9]);
    } else if k < b {
        assert(head[k] == " Response\r\n"@[k - a]);
        if k == a + 9 {
            assert(head[k + 2] == inspect::HEADERS@[0]);
            assert(plain(inspect::HEADERS@[0]));
        }
    } else if k < c {
        assert(head[k] == inspect::HEADERS@[k - b]);
        if k == b + 30 {
            assert(head[k + 2] == inspect::HEADERS@[32]);
            assert(plain(inspect::HEADERS@[32]));
        } else if k == b + 55 {
            assert(head[k + 2] == "Content-Length: "@[0]);
            assert(plain("Content-Length: "@[0]));
        }
    } else if k < d {
        assert(head[k] == "Content-Length: "@[k - c]);
    } else if k < e {
        assert(head[k] == number[k - d]);
        digit_is_plain(number[k - d]);
    } else {
        assert(head[k] == rest[k - e]);
        if k == e {
            assert(head[k + 2] == rest[2]);
            assert(plain(rest[2]));
        }
    }
}

proof fn head_is_found(status: u16, length: nat, body: Seq<char>)
    ensures
        ({
            let bytes = utf8::encode_utf8(
                wire::reply_head(status, inspect::HEADERS@, length) + body,
            );
            let text = head_text(status, length);
            &&& wire::header_at(bytes) == Some(text.len() as int)
            &&& bytes.take(text.len() as int) == utf8::encode_utf8(text)
            &&& bytes.skip(text.len() as int + 4) == utf8::encode_utf8(body)
        }),
{
    let head = wire::reply_head(status, inspect::HEADERS@, length);
    let text = head_text(status, length);
    let end = seq!['\r', '\n', '\r', '\n'];
    let bytes = utf8::encode_utf8(head + body);
    let n = text.len() as int;
    head_is_text(status, length);
    head_in_lines(status, length);
    text::encode_concat(head, body);
    text::encode_concat(text, end);
    assert(utf8::is_ascii_chars(text));
    assert(utf8::is_ascii_chars(head));
    utf8::is_ascii_chars_encode_utf8(text);
    utf8::is_ascii_chars_encode_utf8(head);
    assert(bytes.take(n) =~= utf8::encode_utf8(text));
    assert(bytes.skip(n + 4) =~= utf8::encode_utf8(body));
    assert forall|k: int| 0 <= k < head.len() implies #[trigger] bytes[k] == head[k] as u8 by {
        assert(bytes[k] == utf8::encode_utf8(head)[k]);
    }
    assert(head[n] == '\r' && head[n + 1] == '\n' && head[n + 2] == '\r' && head[n + 3] == '\n');
    assert(bytes.subrange(n, n + 4) =~= wire::header_end()) by {
        assert(bytes[n] == 13 && bytes[n + 1] == 10 && bytes[n + 2] == 13 && bytes[n + 3] == 10);
    }
    assert(wire::bytes_at(bytes, wire::header_end(), n));
    assert forall|k: int| 0 <= k < n implies !wire::bytes_at(bytes, wire::header_end(), k) by {
        if wire::bytes_at(bytes, wire::header_end(), k) {
            let found = bytes.subrange(k, k + 4);
            assert(found[0] == 13 && found[2] == 13);
            assert(bytes[k] == 13 && bytes[k + 2] == 13);
            assert('\0' <= head[k] <= '\u{7f}' && '\0' <= head[k + 2] <= '\u{7f}');
            assert(head[k] == '\r' && head[k + 2] == '\r');
            head_ends_once(status, length, k);
        }
    }
    assert(wire::is_first_header_end(bytes, n));
    wire::header_found(bytes, n);
}

/// What is said to an inspector on the status of a reply.
pub open spec fn refusal_of(status: u16) -> Option<Seq<char>> {
    remote::status_error(seq![seq![], text::decimal(status as nat)])
}

/// What a controller replies is what its inspector reads: the frame of a reply is always taken off
/// again, and leaves the body as it was written, whatever that says, or the word of its status.
pub proof fn replies_are_understood(status: u16, value: JsonView)
    requires
        text::utf8_len(json::json_text(value)) <= inspect::MAX_RESPONSE,
    ensures
        remote::decoded(
            utf8::encode_utf8(
                wire::reply_head(
                    status,
                    inspect::HEADERS@,
                    text::utf8_len(json::json_text(value)),
                ) + json::json_text(value),
            ),
        ) == (match refusal_of(status) {
            Some(e) => Err(e),
            None => remote::read_body(utf8::encode_utf8(json::json_text(value))),
        }),
        refusal_of(200) is None,
{
    let body = json::json_text(value);
    let length = text::utf8_len(body);
    let text = head_text(status, length);
    head_is_found(status, length, body);
    head_in_lines(status, length);
    status_is_stated(status, length);
    length_is_stated(status, length);
    utf8::encode_utf8_valid_utf8(text);
    utf8::encode_utf8_decode_utf8(text);
    assert(text.len() <= remote::MAX_HEADER) by {
        short_head(status, length);
    }
    reveal_strlit("200");
    reveal_with_fuel(text::decimal, 3);
    assert(text::decimal(200) =~= "200"@);
}

proof fn short_head(status: u16, length: nat)
    requires
        length <= inspect::MAX_RESPONSE,
    ensures
        head_text(status, length).len() <= 200,
{
    start_chars();
    reason_chars();
    headers_chars();
    length_chars();
    rest_chars();
    reveal_with_fuel(text::decimal, 7);
}

/// What an inspector asks for is what the controller reads: a request for a path without white
/// space is one for that path.
pub proof fn requests_are_understood(path: Seq<char>)
    requires
        path.len() > 0,
        forall|i: int| 0 <= i < path.len() ==> !text::white(#[trigger] path[i]),
    ensures
        inspect::asked(utf8::encode_utf8(remote::request_text(path))) == Some(path),
{
    let get = "GET "@;
    let rest = " HTTP/1.1\r\nHost: localhost\r\nConnection: close\r\n\r\n"@;
    let header = get + path + rest;
    utf8::encode_utf8_valid_utf8(header);
    utf8::encode_utf8_decode_utf8(header);
    reveal_strlit("GET ");
    reveal_strlit("GET");
    reveal_strlit("HTTP/1.1");
    reveal_strlit(" HTTP/1.1\r\nHost: localhost\r\nConnection: close\r\n\r\n");
    assert(get.len() == 4 && rest.len() == 49);
    let version = rest.take(10);
    let line = get + path + version;
    assert forall|i: int| 0 <= i < path.len() implies #[trigger] path[i] != '\n' by {
        assert(!text::white(path[i]));
    }
    assert forall|i: int| 0 <= i < line.len() implies #[trigger] line[i] != '\n' by {
        if i < 4 {
            assert(line[i] == get[i]);
            assert(i == 0 || i == 1 || i == 2 || i == 3);
        } else if i < 4 + path.len() {
            assert(line[i] == path[i - 4]);
        } else {
            let j = i - 4 - path.len();
            assert(line[i] == rest[j]);
            assert(j == 0 || j == 1 || j == 2 || j == 3 || j == 4 || j == 5 || j == 6 || j == 7 || j
                == 8 || j == 9);
        }
    }
    assert(rest[10] == '\n');
    assert(header =~= line + rest.skip(10));
    first_line_of(line, rest.skip(10));
    let word = rest.subrange(1, 9);
    assert(word =~= "HTTP/1.1"@) by {
        assert("HTTP/1.1"@.len() == 8);
        assert forall|i: int| 0 <= i < 8 implies #[trigger] word[i] == "HTTP/1.1"@[i] by {
            assert(i == 0 || i == 1 || i == 2 || i == 3 || i == 4 || i == 5 || i == 6 || i == 7);
        }
    }
    assert forall|i: int| 0 <= i < word.len() implies !text::white(#[trigger] word[i]) by {
        assert(i == 0 || i == 1 || i == 2 || i == 3 || i == 4 || i == 5 || i == 6 || i == 7);
    }
    let blank = seq!['\r'];
    words_begin(word, blank);
    words_skip('\r', seq![]);
    assert(seq!['\r'] + Seq::<char>::empty() =~= blank);
    assert(text::words(seq![]) =~= seq![]);
    words_skip(' ', word + blank);
    let after = seq![' '] + (word + blank);
    assert(after =~= version);
    words_begin(path, after);
    words_skip(' ', path + after);
    let first = get.take(3);
    assert(first =~= "GET"@);
    assert forall|i: int| 0 <= i < first.len() implies !text::white(#[trigger] first[i]) by {
        assert(i == 0 || i == 1 || i == 2);
    }
    words_begin(first, seq![' '] + (path + after));
    assert(first + (seq![' '] + (path + after)) =~= line);
    assert(text::words(line) =~= seq!["GET"@, path, "HTTP/1.1"@]);
    reveal_strlit("\r\n\r\n");
    let at = path.len() as int + 49;
    assert(text::occurs_at(header, "\r\n\r\n"@, at)) by {
        assert("\r\n\r\n"@.len() == 4);
        assert(header.subrange(at, at + 4) =~= "\r\n\r\n"@) by {
            assert(header[at] == rest[45] && header[at + 1] == rest[46] && header[at + 2] == rest[47]
                && header[at + 3] == rest[48]);
        }
    }
}

/// Every inspection reaches what it is of: the controller reads a request for its state as that,
/// and one for an incident as one for the incident of that name, without regard to case.
pub proof fn inspections_reach_their_subject(name: Seq<char>)
    ensures
        inspect::asked(utf8::encode_utf8(remote::request_text("/v1/status"@))) == Some(
            "/v1/status"@,
        ),
        inspect::route_of("/v1/status"@) == inspect::RouteView::Status,
        inspect::id_allowed(name) ==> ({
            let id = text::ascii_lowered(name);
            let path = "/v1/incidents/"@ + id;
            &&& inspect::asked(utf8::encode_utf8(remote::request_text(path))) == Some(path)
            &&& inspect::route_of(path) == inspect::RouteView::Incident(id)
        }),
{
    let status = "/v1/status"@;
    reveal_strlit("/v1/status");
    assert(status.len() == 10);
    assert forall|i: int| 0 <= i < status.len() implies !text::white(#[trigger] status[i]) by {
        assert(i == 0 || i == 1 || i == 2 || i == 3 || i == 4 || i == 5 || i == 6 || i == 7 || i
            == 8 || i == 9);
    }
    requests_are_understood(status);
    if inspect::id_allowed(name) {
        let id = text::ascii_lowered(name);
        let start = "/v1/incidents/"@;
        let path = start + id;
        reveal_strlit("/v1/incidents/");
        assert(start.len() == 14);
        assert forall|i: int| 0 <= i < path.len() implies !text::white(#[trigger] path[i]) by {
            if i < 14 {
                assert(path[i] == start[i]);
                assert(i == 0 || i == 1 || i == 2 || i == 3 || i == 4 || i == 5 || i == 6 || i == 7
                    || i == 8 || i == 9 || i == 10 || i == 11 || i == 12 || i == 13);
            } else {
                assert(path[i] == id[i - 14]);
                assert(text::ascii_hex(name[i - 14]));
            }
        }
        requests_are_understood(path);
        remote::names_are_understood(name);
    }
}

}
