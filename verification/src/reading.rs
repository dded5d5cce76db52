//! What reading and writing text come to: where it is cut, how it is ordered, and what numbers mean.
use vstd::prelude::*;

use crate::cli;
use crate::text;

verus! {

/// Whether all of a text from one place to another is white space.
pub open spec fn blank(s: Seq<char>, i: int, j: int) -> bool {
    forall|k: int| i <= k < j ==> text::white(#[trigger] s[k])
}

proof fn start_trimmed(s: Seq<char>) -> (i: int)
    ensures
        0 <= i <= s.len(),
        text::trimmed_start(s) == s.subrange(i, s.len() as int),
        blank(s, 0, i),
        i < s.len() ==> !text::white(s[i]),
    decreases s.len(),
{
    if s.len() > 0 && text::white(s[0]) {
        let r = s.drop_first();
        let i = start_trimmed(r);
        assert(r.subrange(i, r.len() as int) =~= s.subrange(i + 1, s.len() as int));
        assert forall|k: int| 0 <= k < i + 1 implies text::white(#[trigger] s[k]) by {
            if k > 0 {
                assert(r[k - 1] == s[k]);
            }
        }
        if i < r.len() {
            assert(r[i] == s[i + 1]);
        }
        i + 1
    } else {
        assert(s.subrange(0, s.len() as int) =~= s);
        0
    }
}

proof fn end_trimmed(s: Seq<char>) -> (j: int)
    ensures
        0 <= j <= s.len(),
        text::trimmed_end(s) == s.subrange(0, j),
        blank(s, j, s.len() as int),
        j > 0 ==> !text::white(s[j - 1]),
    decreases s.len(),
{
    if s.len() > 0 && text::white(s.last()) {
        let r = s.drop_last();
        let j = end_trimmed(r);
        assert(r.subrange(0, j) =~= s.subrange(0, j));
        assert forall|k: int| j <= k < s.len() implies text::white(#[trigger] s[k]) by {
            if k < r.len() {
                assert(r[k] == s[k]);
            }
        }
        if j > 0 {
            assert(r[j - 1] == s[j - 1]);
        }
        j
    } else {
        assert(s.subrange(0, s.len() as int) =~= s);
        s.len() as int
    }
}

/// Whether a text is what stands from one place of another to a second, with nothing but white space
/// around it.
pub open spec fn trimmed_from(s: Seq<char>, t: Seq<char>, i: int, j: int) -> bool {
    &&& 0 <= i <= j <= s.len()
    &&& t == s.subrange(i, j)
    &&& blank(s, 0, i) && blank(s, j, s.len() as int)
}

/// Trimming takes the white space around a text, all of it and nothing else.
pub proof fn trimming_takes_the_white_space_around(s: Seq<char>)
    ensures
        ({
            let t = text::trimmed(s);
            &&& exists|i: int, j: int| #[trigger] trimmed_from(s, t, i, j)
            &&& t.len() > 0 ==> !text::white(t[0]) && !text::white(t[t.len() - 1])
        }),
{
    let i = start_trimmed(s);
    let m = s.subrange(i, s.len() as int);
    let j = end_trimmed(m);
    let t = text::trimmed(s);
    assert(m.subrange(0, j) =~= s.subrange(i, i + j));
    assert forall|k: int| i + j <= k < s.len() implies text::white(#[trigger] s[k]) by {
        assert(m[k - i] == s[k]);
    }
    assert(trimmed_from(s, t, i, i + j));
    if t.len() > 0 {
        assert(t[0] == s[i]);
        assert(t[t.len() - 1] == m[j - 1]);
    }
}

/// Whether a text holds no white space.
pub open spec fn solid(s: Seq<char>) -> bool {
    forall|k: int| 0 <= k < s.len() ==> !text::white(#[trigger] s[k])
}

proof fn solid_len(s: Seq<char>)
    requires
        solid(s),
    ensures
        text::word_len(s) == s.len(),
    decreases s.len(),
{
    if s.len() > 0 {
        let r = s.drop_first();
        assert forall|k: int| 0 <= k < r.len() implies !text::white(#[trigger] r[k]) by {
            assert(r[k] == s[k + 1]);
        }
        solid_len(r);
        assert(!text::white(s[0]));
    }
}

proof fn word_ends(a: Seq<char>, w: char, b: Seq<char>)
    requires
        text::white(w),
    ensures
        text::word_len(a + seq![w] + b) == text::word_len(a),
    decreases a.len(),
{
    let s = a + seq![w] + b;
    if a.len() == 0 {
        assert(s[0] == w);
    } else {
        assert(s[0] == a[0]);
        assert(s.drop_first() =~= a.drop_first() + seq![w] + b);
        if !text::white(a[0]) {
            word_ends(a.drop_first(), w, b);
        }
    }
}

/// Words end at white space: what stands before it and what stands behind it has its own words, a
/// text without any is one word, and an empty text has none.
pub proof fn words_end_at_white_space(a: Seq<char>, w: char, b: Seq<char>)
    requires
        text::white(w),
    ensures
        text::words(a + seq![w] + b) == text::words(a) + text::words(b),
        solid(a) && a.len() > 0 ==> text::words(a) == seq![a],
        text::words(seq![]) == Seq::<Seq<char>>::empty(),
    decreases a.len(),
{
    let s = a + seq![w] + b;
    let none = Seq::<Seq<char>>::empty();
    assert(text::trimmed_start(Seq::<char>::empty()) == Seq::<char>::empty());
    assert(text::words(seq![]) == none);
    if a.len() == 0 {
        assert(s[0] == w);
        assert(s.drop_first() =~= b);
        assert(a =~= seq![]);
        text::trimmed_start_bound(b);
        text::word_len_bound(text::trimmed_start(b));
        assert(text::trimmed_start(s) == text::trimmed_start(b));
        if text::trimmed_start(b).len() > 0 {
            assert(text::word_len(text::trimmed_start(b)) > 0);
        }
        assert(text::words(s) == text::words(b));
        assert(none + text::words(b) =~= text::words(b));
    } else if text::white(a[0]) {
        let r = a.drop_first();
        assert(s[0] == a[0]);
        assert(s.drop_first() =~= r + seq![w] + b);
        words_end_at_white_space(r, w, b);
        blank_first(a);
        blank_first(s);
    } else {
        let n = text::word_len(a) as int;
        text::word_len_bound(a);
        word_ends(a, w, b);
        assert(s[0] == a[0]);
        assert(text::trimmed_start(a) == a && text::trimmed_start(s) == s);
        assert(n > 0);
        assert(s.take(n) =~= a.take(n));
        assert(s.skip(n) =~= a.skip(n) + seq![w] + b);
        words_end_at_white_space(a.skip(n), w, b);
        assert(seq![a.take(n)] + (text::words(a.skip(n)) + text::words(b)) =~= (seq![a.take(n)]
            + text::words(a.skip(n))) + text::words(b));
        if solid(a) {
            solid_len(a);
            assert(a.take(n) =~= a);
            assert(a.skip(n) =~= seq![]);
            assert(seq![a] + none =~= seq![a]);
        }
    }
}

proof fn blank_first(s: Seq<char>)
    requires
        s.len() > 0,
        text::white(s[0]),
    ensures
        text::words(s) == text::words(s.drop_first()),
{
    let r = s.drop_first();
    assert(text::trimmed_start(s) == text::trimmed_start(r));
    text::trimmed_start_bound(r);
    let t = text::trimmed_start(r);
    text::word_len_bound(t);
    if t.len() > 0 {
        assert(text::word_len(t) > 0);
    }
}

/// Texts are ordered by the first character in which they differ; one that goes on where the other
/// ends comes behind it.
pub proof fn texts_are_ordered_by_their_first_difference(a: Seq<char>, b: Seq<char>, k: int)
    requires
        0 <= k <= a.len(),
        k <= b.len(),
        a.subrange(0, k) == b.subrange(0, k),
        k < a.len() && k < b.len() ==> a[k] != b[k],
        k < a.len() || k < b.len(),
    ensures
        text::before(a, b) <==> k < b.len() && (k == a.len() || (a[k] as int) < (b[k] as int)),
    decreases k,
{
    if k > 0 {
        let (x, y) = (a.drop_first(), b.drop_first());
        assert(a[0] == a.subrange(0, k)[0] && b[0] == b.subrange(0, k)[0]);
        assert forall|i: int| 0 <= i < k - 1 implies x[i] == y[i] by {
            assert(a.subrange(0, k)[i + 1] == a[i + 1]);
            assert(b.subrange(0, k)[i + 1] == b[i + 1]);
            assert(x[i] == a[i + 1] && y[i] == b[i + 1]);
        }
        assert(x.subrange(0, k - 1) =~= y.subrange(0, k - 1));
        texts_are_ordered_by_their_first_difference(x, y, k - 1);
    }
}

/// A text that is cut to a number of bytes keeps as many of its first characters as fit: with the
/// next one it would be too long.
pub proof fn cut_texts_keep_what_fits(s: Seq<char>, max: nat)
    ensures
        ({
            let n = text::fitting(s, max).len() as int;
            &&& n <= s.len()
            &&& text::fitting(s, max) == s.subrange(0, n)
            &&& text::utf8_len(s.subrange(0, n)) <= max
            &&& n < s.len() ==> text::utf8_len(s.subrange(0, n + 1)) > max
        }),
    decreases s.len(),
{
    text::fitting_bound(s, max);
    let f = text::fitting(s, max);
    assert(f =~= s.subrange(0, f.len() as int));
    if s.len() > 0 && text::utf8_len(s) > max {
        let r = s.drop_last();
        cut_texts_keep_what_fits(r, max);
        let n = text::fitting(r, max).len() as int;
        if n < r.len() {
            assert(r.subrange(0, n + 1) =~= s.subrange(0, n + 1));
        } else {
            assert(s.subrange(0, n + 1) =~= s);
        }
    }
}

/// A text is parted at the first occurrence of a character: what stands before it holds none, and
/// the three are the text again. One that holds none is not parted.
pub proof fn texts_are_parted_at_the_first(s: Seq<char>, c: char, x: Seq<char>, y: Seq<char>)
    ensures
        text::parted(s, c) == Some((x, y)) <==> s == x + seq![c] + y && !x.contains(c),
        text::parted(s, c) is None <==> !s.contains(c),
{
    first_place(s, c);
    let n = text::place_of(s, c) as int;
    if n < s.len() {
        let (a, b) = (s.take(n), s.skip(n + 1));
        assert(s =~= a + seq![c] + b);
        assert(!a.contains(c)) by {
            if a.contains(c) {
                let i = choose|i: int| 0 <= i < a.len() && a[i] == c;
                assert(s[i] == c);
            }
        }
        assert(s[n] == c);
        assert(s.contains(c));
    } else if s.contains(c) {
        let i = choose|i: int| 0 <= i < s.len() && s[i] == c;
        assert(s[i] != c);
    }
    if s == x + seq![c] + y && !x.contains(c) {
        let m = x.len() as int;
        assert(s[m] == c);
        assert forall|i: int| 0 <= i < m implies s[i] != c by {
            assert(s[i] == x[i]);
        }
        assert(n == m) by {
            if n < m {
                assert(s[n] == c);
            } else if n > m {
                assert(s[m] != c);
            }
        }
        assert(s.take(n) =~= x);
        assert(s.skip(n + 1) =~= y);
    }
}

proof fn first_place(s: Seq<char>, c: char)
    ensures
        text::place_of(s, c) <= s.len(),
        text::place_of(s, c) < s.len() ==> s[text::place_of(s, c) as int] == c,
        forall|i: int| 0 <= i < text::place_of(s, c) ==> #[trigger] s[i] != c,
    decreases s.len(),
{
    if s.len() > 0 && s[0] != c {
        let r = s.drop_first();
        first_place(r, c);
        assert forall|i: int| 0 <= i < text::place_of(s, c) implies #[trigger] s[i] != c by {
            if i > 0 {
                assert(r[i - 1] == s[i]);
            }
        }
    }
}

/// Lines end at line feeds: what stands before one and what stands behind it has its own lines, and
/// a text without any is one line.
pub proof fn lines_end_at_line_feeds(a: Seq<char>, b: Seq<char>)
    ensures
        text::lines(a + seq!['\n'] + b) == text::lines(a) + text::lines(b),
        !a.contains('\n') ==> text::lines(a) == seq![a],
    decreases a.len(),
{
    let s = a + seq!['\n'] + b;
    assert(s[a.len() as int] == '\n');
    assert(s.contains('\n'));
    text::first_line_bound(s);
    text::first_line_bound(a);
    let n = text::first_line(s).len() as int;
    if a.contains('\n') {
        let m = text::first_line(a).len() as int;
        assert(s[m] == a[m]);
        assert(n == m) by {
            if n < m {
                assert(s[n] == a[n]);
            }
        }
        assert(text::first_line(s) =~= text::first_line(a));
        assert(s.skip(n + 1) =~= a.skip(n + 1) + seq!['\n'] + b);
        lines_end_at_line_feeds(a.skip(n + 1), b);
        let head = seq![text::first_line(a)];
        assert(head + (text::lines(a.skip(n + 1)) + text::lines(b)) =~= (head + text::lines(
            a.skip(n + 1),
        )) + text::lines(b));
    } else {
        assert(n == a.len()) by {
            if n < a.len() {
                assert(s[n] == a[n]);
                assert(a.contains(a[n]));
            }
        }
        assert(text::first_line(s) =~= a);
        assert(s.skip(n + 1) =~= b);
    }
}

/// The hexadecimal digit of a number below sixteen, in lower case.
pub open spec fn digit_of(n: int) -> char {
    "0123456789abcdef"@[n]
}

/// Bytes are written with two digits each, the higher one first.
pub proof fn bytes_are_written_with_two_digits(bytes: Seq<u8>, i: int)
    requires
        0 <= i < bytes.len(),
    ensures
        text::hex(bytes).len() == 2 * bytes.len(),
        text::hex(bytes)[2 * i] == digit_of((bytes[i] / 16) as int),
        text::hex(bytes)[2 * i + 1] == digit_of((bytes[i] % 16) as int),
    decreases bytes.len(),
{
    text::hex_len(bytes);
    let r = bytes.drop_last();
    text::hex_len(r);
    if i < r.len() {
        bytes_are_written_with_two_digits(r, i);
        assert(r[i] == bytes[i]);
    } else {
        digits_are((bytes[i] / 16) as nat);
        digits_are((bytes[i] % 16) as nat);
    }
}

proof fn digits_are(n: nat)
    requires
        n < 16,
    ensures
        text::digit(n) == digit_of(n as int),
{
    reveal_strlit("0123456789abcdef");
}

/// The seconds of a unit of time.
pub open spec fn seconds_of(c: char) -> int {
    if c == 's' {
        1
    } else if c == 'm' {
        60
    } else if c == 'h' {
        3600
    } else {
        24 * 3600int
    }
}

/// A time is a number of seconds, or one of the units behind it; it is read where it can be counted,
/// and a time before zero is not.
pub proof fn times_are_read_with_their_units(n: nat, c: char)
    requires
        c == 's' || c == 'm' || c == 'h' || c == 'd',
        n <= i64::MAX,
    ensures
        cli::seconds(text::decimal(n)) == Some(n as int),
        cli::seconds(text::decimal(n).push(c)) == if n * seconds_of(c) <= i64::MAX {
            Some(n * seconds_of(c))
        } else {
            None
        },
        n > 0 ==> cli::seconds(seq!['-'] + text::decimal(n)) is None,
        n > 0 ==> cli::seconds((seq!['-'] + text::decimal(n)).push(c)) is None,
{
    let d = text::decimal(n);
    text::decimals_are_read_back(n, n);
    assert(text::ascii_digit(d[0]) && text::ascii_digit(d[d.len() - 1]));
    assert(d.last() == d[d.len() - 1]);
    assert(text::signed_number(d) == Some(n as int));
    assert(cli::unit(d.last()) is None);
    let one = cli::scaled(d).1;
    assert(n as int * one == n) by (nonlinear_arith)
        requires
            one == 1,
    ;
    let t = d.push(c);
    assert(t.last() == c && t.drop_last() =~= d);
    let m = seq!['-'] + d;
    assert(m.drop_first() =~= d);
    assert(m[0] == '-');
    assert(m.last() == d.last());
    assert(text::signed_number(m) == Some(-(n as int)));
    assert(m.push(c).drop_last() =~= m);
    assert(m.push(c).last() == c);
    let k = seconds_of(c);
    assert(-(n as int) * k < 0 || n == 0) by (nonlinear_arith)
        requires
            k > 0,
    ;
}

}
