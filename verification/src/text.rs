//! Text as a sequence of characters: the string operations that the other modules share.
use vstd::prelude::*;
use vstd::utf8;

verus! {

/// The characters with the Unicode property `White_Space`.
pub open spec fn white(c: char) -> bool {
    let n = c as u32;
    ||| 0x09 <= n <= 0x0d
    ||| n == 0x20
    ||| n == 0x85
    ||| n == 0xa0
    ||| n == 0x1680
    ||| 0x2000 <= n <= 0x200a
    ||| n == 0x2028
    ||| n == 0x2029
    ||| n == 0x202f
    ||| n == 0x205f
    ||| n == 0x3000
}

/// The characters of the general category `Cc`.
pub open spec fn control(c: char) -> bool {
    c as u32 <= 0x1f || 0x7f <= c as u32 <= 0x9f
}

pub open spec fn ascii_digit(c: char) -> bool {
    '0' as u32 <= c as u32 <= '9' as u32
}

pub open spec fn ascii_hex(c: char) -> bool {
    ||| ascii_digit(c)
    ||| 'a' as u32 <= c as u32 <= 'f' as u32
    ||| 'A' as u32 <= c as u32 <= 'F' as u32
}

pub open spec fn ascii_alphanumeric(c: char) -> bool {
    ||| ascii_digit(c)
    ||| 'a' as u32 <= c as u32 <= 'z' as u32
    ||| 'A' as u32 <= c as u32 <= 'Z' as u32
}

/// The ASCII lower-case form of a character.
pub open spec fn ascii_lower(c: char) -> char {
    if 'A' as u32 <= c as u32 <= 'Z' as u32 {
        (c as u32 + 32) as char
    } else {
        c
    }
}

pub open spec fn ascii_lowered(s: Seq<char>) -> Seq<char> {
    s.map_values(|c: char| ascii_lower(c))
}

/// The number of bytes of the UTF-8 form.
pub open spec fn utf8_len(s: Seq<char>) -> nat {
    utf8::encode_utf8(s).len()
}

pub fn is_white(c: char) -> (r: bool)
    ensures
        r == white(c),
{
    let n: u32 = c as u32;
    (0x09 <= n && n <= 0x0d) || n == 0x20 || n == 0x85 || n == 0xa0 || n == 0x1680 || (0x2000 <= n
        && n <= 0x200a) || n == 0x2028 || n == 0x2029 || n == 0x202f || n == 0x205f || n == 0x3000
}

pub fn is_control(c: char) -> (r: bool)
    ensures
        r == control(c),
{
    let n: u32 = c as u32;
    n <= 0x1f || (0x7f <= n && n <= 0x9f)
}

pub fn is_ascii_hex(c: char) -> (r: bool)
    ensures
        r == ascii_hex(c),
{
    ('0' <= c && c <= '9') || ('a' <= c && c <= 'f') || ('A' <= c && c <= 'F')
}

pub fn is_ascii_alphanumeric(c: char) -> (r: bool)
    ensures
        r == ascii_alphanumeric(c),
{
    ('0' <= c && c <= '9') || ('a' <= c && c <= 'z') || ('A' <= c && c <= 'Z')
}

/// `String::push` appends one character.
pub assume_specification[ String::push ](s: &mut String, c: char)
    ensures
        final(s)@ == old(s)@.push(c),
;

/// The characters of a string, one by one.
pub fn chars(s: &str) -> (out: Vec<char>)
    ensures
        out@ == s@,
{
    let mut out: Vec<char> = Vec::new();
    for c in it: s.chars()
        invariant
            it.seq() == s@,
            out@ == s@.take(it.index() as int),
    {
        out.push(c);
    }
    out
}

/// The string made of the characters from `from` up to `to`.
pub fn slice(v: &Vec<char>, from: usize, to: usize) -> (out: String)
    requires
        from <= to <= v@.len(),
    ensures
        out@ == v@.subrange(from as int, to as int),
{
    let mut out = String::new();
    let mut i: usize = from;
    while i < to
        invariant
            from <= i <= to <= v@.len(),
            out@ == v@.subrange(from as int, i as int),
        decreases to - i,
    {
        out.push(v[i]);
        i += 1;
        assert(out@ =~= v@.subrange(from as int, i as int));
    }
    out
}

pub fn whole(v: &Vec<char>) -> (out: String)
    ensures
        out@ == v@,
{
    let out = slice(v, 0, v.len());
    assert(v@.subrange(0, v@.len() as int) =~= v@);
    out
}

/// Whether two strings hold the same characters.
pub fn same(a: &str, b: &str) -> (r: bool)
    ensures
        r == (a@ == b@),
{
    let x = a.as_bytes();
    let y = b.as_bytes();
    if x.len() != y.len() {
        return false;
    }
    let mut i: usize = 0;
    while i < x.len()
        invariant
            x@ == utf8::encode_utf8(a@),
            y@ == utf8::encode_utf8(b@),
            x@.len() == y@.len(),
            i <= x@.len(),
            forall|k: int| 0 <= k < i ==> x@[k] == y@[k],
        decreases x@.len() - i,
    {
        if x[i] != y[i] {
            assert(x@ != y@);
            return false;
        }
        i += 1;
    }
    proof {
        utf8::encode_utf8_decode_utf8(a@);
        utf8::encode_utf8_decode_utf8(b@);
        assert(x@ =~= y@);
    }
    true
}

pub fn byte_len(s: &str) -> (n: usize)
    ensures
        n == utf8_len(s@),
{
    s.as_bytes().len()
}


/// What is left once leading white space is dropped.
pub open spec fn trimmed_start(s: Seq<char>) -> Seq<char>
    decreases s.len(),
{
    if s.len() > 0 && white(s[0]) {
        trimmed_start(s.drop_first())
    } else {
        s
    }
}

/// What is left once trailing white space is dropped.
pub open spec fn trimmed_end(s: Seq<char>) -> Seq<char>
    decreases s.len(),
{
    if s.len() > 0 && white(s.last()) {
        trimmed_end(s.drop_last())
    } else {
        s
    }
}

pub open spec fn trimmed(s: Seq<char>) -> Seq<char> {
    trimmed_end(trimmed_start(s))
}

/// The number of leading characters before the first white space.
pub open spec fn word_len(s: Seq<char>) -> nat
    decreases s.len(),
{
    if s.len() == 0 || white(s[0]) {
        0
    } else {
        1 + word_len(s.drop_first())
    }
}

pub proof fn word_len_bound(s: Seq<char>)
    ensures
        word_len(s) <= s.len(),
    decreases s.len(),
{
    if s.len() > 0 && !white(s[0]) {
        word_len_bound(s.drop_first());
    }
}

pub proof fn trimmed_start_bound(s: Seq<char>)
    ensures
        trimmed_start(s).len() <= s.len(),
        trimmed_start(s).len() > 0 ==> !white(trimmed_start(s)[0]),
    decreases s.len(),
{
    if s.len() > 0 && white(s[0]) {
        trimmed_start_bound(s.drop_first());
    }
}

/// The maximal runs of characters other than white space, in order.
pub open spec fn words(s: Seq<char>) -> Seq<Seq<char>>
    decreases s.len(),
{
    let t = trimmed_start(s);
    if t.len() == 0 {
        seq![]
    } else {
        let n = word_len(t) as int;
        if 0 < n <= t.len() && t.len() <= s.len() {
            seq![t.take(n)] + words(t.skip(n))
        } else {
            seq![]
        }
    }
}

/// The index of the first character that is not white space, or the length.
fn skip_white(v: &Vec<char>, from: usize) -> (i: usize)
    requires
        from <= v@.len(),
    ensures
        from <= i <= v@.len(),
        v@.skip(i as int) == trimmed_start(v@.skip(from as int)),
{
    let mut i: usize = from;
    while i < v.len() && is_white(v[i])
        invariant
            from <= i <= v@.len(),
            trimmed_start(v@.skip(i as int)) == trimmed_start(v@.skip(from as int)),
        decreases v@.len() - i,
    {
        assert(v@.skip(i as int).drop_first() =~= v@.skip(i + 1));
        i += 1;
    }
    i
}

fn skip_word(v: &Vec<char>, from: usize) -> (i: usize)
    requires
        from <= v@.len(),
    ensures
        from <= i <= v@.len(),
        i - from == word_len(v@.skip(from as int)),
{
    let mut i: usize = from;
    while i < v.len() && !is_white(v[i])
        invariant
            from <= i <= v@.len(),
            i - from + word_len(v@.skip(i as int)) == word_len(v@.skip(from as int)),
        decreases v@.len() - i,
    {
        assert(v@.skip(i as int).drop_first() =~= v@.skip(i + 1));
        i += 1;
    }
    i
}

/// Without leading and trailing white space.
pub fn trim(s: &str) -> (out: String)
    ensures
        out@ == trimmed(s@),
{
    let v = chars(s);
    assert(v@.skip(0) =~= v@);
    let start = skip_white(&v, 0);
    let mut end: usize = v.len();
    assert(v@.subrange(start as int, end as int) =~= v@.skip(start as int));
    while end > start && is_white(v[end - 1])
        invariant
            start <= end <= v@.len(),
            trimmed_end(v@.subrange(start as int, end as int)) == trimmed(v@),
        decreases end,
    {
        assert(v@.subrange(start as int, end as int).drop_last() =~= v@.subrange(
            start as int,
            end - 1,
        ));
        end -= 1;
    }
    slice(&v, start, end)
}

/// The words of a text, without the white space between them.
pub fn split_words(s: &str) -> (out: Vec<String>)
    ensures
        list_view(out@) == words(s@),
{
    let v = chars(s);
    let mut out: Vec<String> = Vec::new();
    let mut i: usize = 0;
    assert(v@.skip(0) =~= v@);
    assert(list_view(out@) =~= seq![]);
    assert(list_view(out@) + words(v@.skip(0)) =~= words(s@));
    loop
        invariant
            i <= v@.len(),
            list_view(out@) + words(v@.skip(i as int)) == words(s@),
        ensures
            list_view(out@) == words(s@),
        decreases v@.len() - i,
    {
        let start = skip_white(&v, i);
        let ghost rest = v@.skip(start as int);
        proof {
            trimmed_start_bound(v@.skip(i as int));
            word_len_bound(rest);
        }
        if start == v.len() {
            assert(words(v@.skip(i as int)) =~= seq![]);
            assert(list_view(out@) =~= words(s@));
            break ;
        }
        let end = skip_word(&v, start);
        let ghost before = list_view(out@);
        let word = slice(&v, start, end);
        assert(word@ =~= rest.take(end - start));
        assert(rest.skip(end - start) =~= v@.skip(end as int));
        out.push(word);
        assert(list_view(out@) =~= before.push(word@));
        assert(before + words(v@.skip(i as int)) =~= before.push(word@) + words(
            v@.skip(end as int),
        ));
        i = end;
    }
    out
}

/// The first word of a text, empty where there is none.
pub open spec fn first_word(s: Seq<char>) -> Seq<char> {
    let t = trimmed_start(s);
    t.take(word_len(t) as int)
}

pub fn leading_word(s: &str) -> (out: String)
    ensures
        out@ == first_word(s@),
{
    let v = chars(s);
    assert(v@.skip(0) =~= v@);
    let start = skip_white(&v, 0);
    let end = skip_word(&v, start);
    let out = slice(&v, start, end);
    assert(out@ =~= v@.skip(start as int).take(end - start));
    out
}

/// Whether `needle` stands in `hay` at position `i`.
pub open spec fn occurs_at(hay: Seq<char>, needle: Seq<char>, i: int) -> bool {
    0 <= i && i + needle.len() <= hay.len() && hay.subrange(i, i + needle.len()) == needle
}

pub open spec fn holds(hay: Seq<char>, needle: Seq<char>) -> bool {
    exists|i: int| occurs_at(hay, needle, i)
}

fn matches_at(hay: &Vec<char>, needle: &Vec<char>, at: usize) -> (r: bool)
    requires
        at + needle@.len() <= hay@.len(),
    ensures
        r == occurs_at(hay@, needle@, at as int),
{
    let mut j: usize = 0;
    while j < needle.len()
        invariant
            j <= needle@.len(),
            at + needle.len() <= hay.len(),
            forall|k: int| 0 <= k < j ==> hay@[at + k] == needle@[k],
        decreases needle@.len() - j,
    {
        if hay[at + j] != needle[j] {
            assert(hay@.subrange(at as int, at + needle@.len())[j as int] != needle@[j as int]);
            return false;
        }
        j += 1;
    }
    assert(hay@.subrange(at as int, at + needle@.len()) =~= needle@);
    true
}

/// Whether `needle` occurs somewhere in `hay`.
pub fn contains(hay: &str, needle: &str) -> (r: bool)
    ensures
        r == holds(hay@, needle@),
{
    let h = chars(hay);
    let n = chars(needle);
    if n.len() > h.len() {
        return false;
    }
    let mut i: usize = 0;
    while i <= h.len() - n.len()
        invariant
            h@ == hay@,
            n@ == needle@,
            i <= h@.len() - n@.len() + 1,
            n@.len() <= h@.len(),
            forall|k: int| 0 <= k < i ==> !occurs_at(h@, n@, k),
        decreases h@.len() + 1 - i,
    {
        if matches_at(&h, &n, i) {
            assert(occurs_at(hay@, needle@, i as int));
            return true;
        }
        if i == h.len() - n.len() {
            return false;
        }
        i += 1;
    }
    false
}

/// Whether `s` begins with `prefix`.
pub fn starts_with(s: &str, prefix: &str) -> (r: bool)
    ensures
        r == prefix@.is_prefix_of(s@),
{
    let h = chars(s);
    let n = chars(prefix);
    if n.len() > h.len() {
        return false;
    }
    let r = matches_at(&h, &n, 0);
    assert(h@.subrange(0, n@.len() as int) =~= h@.take(n@.len() as int));
    r
}

/// Order by code point, character by character; a proper prefix comes first.
pub open spec fn before(a: Seq<char>, b: Seq<char>) -> bool
    decreases a.len(),
{
    if b.len() == 0 {
        false
    } else if a.len() == 0 {
        true
    } else if a[0] == b[0] {
        before(a.drop_first(), b.drop_first())
    } else {
        (a[0] as int) < (b[0] as int)
    }
}

pub proof fn before_irreflexive(a: Seq<char>)
    ensures
        !before(a, a),
    decreases a.len(),
{
    if a.len() > 0 {
        before_irreflexive(a.drop_first());
    }
}

pub proof fn before_transitive(a: Seq<char>, b: Seq<char>, c: Seq<char>)
    requires
        before(a, b),
        before(b, c),
    ensures
        before(a, c),
    decreases a.len(),
{
    if a.len() > 0 && b.len() > 0 && c.len() > 0 && a[0] == b[0] && b[0] == c[0] {
        before_transitive(a.drop_first(), b.drop_first(), c.drop_first());
    }
}

pub proof fn before_total(a: Seq<char>, b: Seq<char>)
    ensures
        before(a, b) || before(b, a) || a == b,
    decreases a.len(),
{
    if a.len() > 0 && b.len() > 0 && a[0] == b[0] {
        before_total(a.drop_first(), b.drop_first());
        if a.drop_first() == b.drop_first() {
            assert(a =~= seq![a[0]] + a.drop_first());
            assert(b =~= seq![b[0]] + b.drop_first());
        }
    } else if a.len() == 0 && b.len() == 0 {
        assert(a =~= b);
    }
}

fn smaller(a: char, b: char) -> (r: bool)
    ensures
        r == ((a as int) < (b as int)),
{
    (a as u32) < (b as u32)
}

/// Whether `a` sorts strictly before `b`.
pub fn sorts_before(a: &str, b: &str) -> (r: bool)
    ensures
        r == before(a@, b@),
{
    let x = chars(a);
    let y = chars(b);
    let mut i: usize = 0;
    assert(x@.skip(0) =~= x@);
    assert(y@.skip(0) =~= y@);
    loop
        invariant
            i <= x@.len(),
            i <= y@.len(),
            before(x@.skip(i as int), y@.skip(i as int)) == before(a@, b@),
        decreases x@.len() - i,
    {
        if i == y.len() {
            return false;
        }
        if i == x.len() {
            return true;
        }
        if x[i] != y[i] {
            return smaller(x[i], y[i]);
        }
        assert(x@.skip(i as int).drop_first() =~= x@.skip(i + 1));
        assert(y@.skip(i as int).drop_first() =~= y@.skip(i + 1));
        i += 1;
    }
}

/// The decimal digits of a number, without leading zeros.
pub open spec fn decimal(n: nat) -> Seq<char>
    decreases n,
{
    if n < 10 {
        seq![digit(n)]
    } else {
        decimal(n / 10).push(digit(n % 10))
    }
}

/// The decimal digit of a number below ten, the hexadecimal one (in lower case) below sixteen.
pub open spec fn digit(n: nat) -> char {
    if n == 0 { '0' } else if n == 1 { '1' } else if n == 2 { '2' } else if n == 3 { '3' }
    else if n == 4 { '4' } else if n == 5 { '5' } else if n == 6 { '6' } else if n == 7 { '7' }
    else if n == 8 { '8' } else if n == 9 { '9' } else if n == 10 { 'a' } else if n == 11 { 'b' }
    else if n == 12 { 'c' } else if n == 13 { 'd' } else if n == 14 { 'e' } else { 'f' }
}

fn digit_char(n: u64) -> (c: char)
    requires
        n < 16,
    ensures
        c == digit(n as nat),
{
    if n == 0 { '0' } else if n == 1 { '1' } else if n == 2 { '2' } else if n == 3 { '3' }
    else if n == 4 { '4' } else if n == 5 { '5' } else if n == 6 { '6' } else if n == 7 { '7' }
    else if n == 8 { '8' } else if n == 9 { '9' } else if n == 10 { 'a' } else if n == 11 { 'b' }
    else if n == 12 { 'c' } else if n == 13 { 'd' } else if n == 14 { 'e' } else { 'f' }
}

/// Writes a number in decimal.
pub fn decimal_text(n: u64) -> (out: String)
    ensures
        out@ == decimal(n as nat),
    decreases n,
{
    let mut out = if n < 10 {
        String::new()
    } else {
        decimal_text(n / 10)
    };
    out.push(digit_char(n % 10));
    assert(n < 10 ==> out@ =~= decimal(n as nat));
    out
}

/// The decimal form of an integer, with a minus sign where it is negative.
pub open spec fn signed_decimal(n: int) -> Seq<char> {
    if n < 0 {
        seq!['-'] + decimal((-n) as nat)
    } else {
        decimal(n as nat)
    }
}

/// Writes an integer in decimal.
pub fn signed_decimal_text(n: i64) -> (out: String)
    ensures
        out@ == signed_decimal(n as int),
{
    if n >= 0 {
        return decimal_text(n as u64);
    }
    let mut out = String::new();
    out.push('-');
    let magnitude: u64 = if n == i64::MIN {
        9223372036854775808
    } else {
        (-n) as u64
    };
    let digits = decimal_text(magnitude);
    out.append(digits.as_str());
    assert(out@ =~= signed_decimal(n as int));
    out
}

/// Two lower-case hexadecimal digits for each byte.
pub open spec fn hex(bytes: Seq<u8>) -> Seq<char>
    decreases bytes.len(),
{
    if bytes.len() == 0 {
        seq![]
    } else {
        hex(bytes.drop_last()).push(digit((bytes.last() / 16) as nat)).push(
            digit((bytes.last() % 16) as nat),
        )
    }
}

pub proof fn hex_len(bytes: Seq<u8>)
    ensures
        hex(bytes).len() == 2 * bytes.len(),
    decreases bytes.len(),
{
    if bytes.len() > 0 {
        hex_len(bytes.drop_last());
    }
}

/// Writes bytes in hexadecimal.
pub fn hex_text(bytes: &Vec<u8>) -> (out: String)
    ensures
        out@ == hex(bytes@),
{
    let mut out = String::new();
    let mut i: usize = 0;
    while i < bytes.len()
        invariant
            i <= bytes@.len(),
            out@ == hex(bytes@.take(i as int)),
        decreases bytes@.len() - i,
    {
        let b = bytes[i];
        out.push(digit_char((b / 16) as u64));
        out.push(digit_char((b % 16) as u64));
        assert(bytes@.take(i + 1).drop_last() =~= bytes@.take(i as int));
        i += 1;
    }
    assert(bytes@.take(i as int) =~= bytes@);
    out
}

/// The first `n` characters, or all of them.
pub open spec fn prefix(s: Seq<char>, n: int) -> Seq<char> {
    if n < s.len() {
        s.take(n)
    } else {
        s
    }
}

pub fn first_chars(s: &str, n: usize) -> (out: String)
    ensures
        out@ == prefix(s@, n as int),
{
    let v = chars(s);
    if n < v.len() {
        let out = slice(&v, 0, n);
        assert(out@ =~= s@.take(n as int));
        out
    } else {
        whole(&v)
    }
}

/// The value of a run of decimal digits.
pub open spec fn value_of(s: Seq<char>) -> nat
    decreases s.len(),
{
    if s.len() == 0 {
        0
    } else {
        value_of(s.drop_last()) * 10 + digit_value(s.last())
    }
}

pub open spec fn digit_value(c: char) -> nat {
    if ascii_digit(c) {
        (c as int - '0' as int) as nat
    } else {
        0
    }
}

pub open spec fn all_digits(s: Seq<char>) -> bool {
    forall|i: int| 0 <= i < s.len() ==> ascii_digit(#[trigger] s[i])
}

/// The number that an optional plus sign and one or more decimal digits denote, unless it is
/// over `max`.
pub open spec fn unsigned_number(s: Seq<char>, max: nat) -> Option<nat> {
    let digits = if s.len() > 0 && s[0] == '+' {
        s.drop_first()
    } else {
        s
    };
    if digits.len() > 0 && all_digits(digits) && value_of(digits) <= max {
        Some(value_of(digits))
    } else {
        None
    }
}

/// The integer of 64 bits that an optional sign and one or more decimal digits denote.
pub open spec fn signed_number(s: Seq<char>) -> Option<int> {
    let body = if s.len() > 0 && (s[0] == '+' || s[0] == '-') {
        s.drop_first()
    } else {
        s
    };
    let magnitude = if s.len() > 0 && s[0] == '-' {
        -(value_of(body) as int)
    } else {
        value_of(body) as int
    };
    if body.len() > 0 && all_digits(body) && i64::MIN <= magnitude <= i64::MAX {
        Some(magnitude)
    } else {
        None
    }
}

proof fn value_of_prefix(s: Seq<char>, n: int)
    requires
        0 <= n <= s.len(),
    ensures
        value_of(s.take(n)) <= value_of(s),
    decreases s.len() - n,
{
    if n < s.len() {
        value_of_prefix(s, n + 1);
        assert(s.take(n + 1).drop_last() =~= s.take(n));
    } else {
        assert(s.take(n) =~= s);
    }
}

fn read_digit(c: char) -> (r: Option<u64>)
    ensures
        match r {
            Some(d) => ascii_digit(c) && d == digit_value(c) && d < 10,
            None => !ascii_digit(c),
        },
{
    if '0' <= c && c <= '9' {
        Some((c as u32 - '0' as u32) as u64)
    } else {
        None
    }
}

fn digits_value(v: &Vec<char>, from: usize, max: u64) -> (r: Option<u64>)
    requires
        from <= v@.len(),
    ensures
        ({
            let body = v@.skip(from as int);
            match r {
                Some(n) => body.len() > 0 && all_digits(body) && value_of(body) == n && n <= max,
                None => !(body.len() > 0 && all_digits(body) && value_of(body) <= max),
            }
        }),
{
    let ghost body = v@.skip(from as int);
    if from == v.len() {
        return None;
    }
    let mut n: u64 = 0;
    let mut i: usize = from;
    assert(body.take(0) =~= seq![]);
    while i < v.len()
        invariant
            from <= i <= v@.len(),
            body == v@.skip(from as int),
            n == value_of(body.take(i - from)),
            n <= max,
            forall|k: int| 0 <= k < i - from ==> ascii_digit(#[trigger] body[k]),
        decreases v@.len() - i,
    {
        let c = v[i];
        assert(body[i - from] == c);
        let d = match read_digit(c) {
            Some(d) => d,
            None => {
                return None;
            },
        };
        proof {
            value_of_prefix(body, i - from + 1);
            assert(body.take(i - from + 1).drop_last() =~= body.take(i - from));
        }
        if n > (u64::MAX - d) / 10 {
            return None;
        }
        n = n * 10 + d;
        if n > max {
            return None;
        }
        i += 1;
    }
    assert(body.take(i - from) =~= body);
    Some(n)
}

/// A number that was written in decimal is read back.
pub proof fn decimals_are_read_back(n: nat, max: nat)
    requires
        n <= max,
    ensures
        decimal(n).len() > 0,
        all_digits(decimal(n)),
        unsigned_number(decimal(n), max) == Some(n),
{
    decimal_value(n);
    assert(ascii_digit(decimal(n)[0]));
}

proof fn decimal_value(n: nat)
    ensures
        decimal(n).len() > 0,
        all_digits(decimal(n)),
        value_of(decimal(n)) == n,
    decreases n,
{
    let s = decimal(n);
    assert(digit_value(digit(n % 10)) == n % 10);
    assert(s.last() == digit(n % 10));
    assert(value_of(s) == value_of(s.drop_last()) * 10 + n % 10);
    if n < 10 {
        assert(s.drop_last() =~= seq![]);
        assert(value_of(s.drop_last()) == 0);
    } else {
        decimal_value(n / 10);
        assert(s.drop_last() =~= decimal(n / 10));
        assert forall|i: int| 0 <= i < s.len() implies ascii_digit(#[trigger] s[i]) by {
            if i < s.len() - 1 {
                assert(s[i] == decimal(n / 10)[i]);
            }
        }
    }
}

/// Reads an unsigned number: an optional plus sign, then decimal digits.
pub fn parse_unsigned(s: &str, max: u64) -> (r: Option<u64>)
    ensures
        match r {
            Some(n) => unsigned_number(s@, max as nat) == Some(n as nat),
            None => unsigned_number(s@, max as nat) is None,
        },
{
    let v = chars(s);
    assert(v@.skip(0) =~= v@);
    assert(v@.len() > 0 ==> v@.skip(1) =~= v@.drop_first());
    if v.len() > 0 && v[0] == '+' {
        digits_value(&v, 1, max)
    } else {
        digits_value(&v, 0, max)
    }
}

/// Reads a signed number: an optional sign, then decimal digits.
pub fn parse_signed(s: &str) -> (r: Option<i64>)
    ensures
        match r {
            Some(n) => signed_number(s@) == Some(n as int),
            None => signed_number(s@) is None,
        },
{
    let v = chars(s);
    assert(v@.skip(0) =~= v@);
    assert(v@.len() > 0 ==> v@.skip(1) =~= v@.drop_first());
    if v.len() > 0 && v[0] == '-' {
        match digits_value(&v, 1, 9223372036854775808) {
            Some(n) => if n == 9223372036854775808 {
                Some(i64::MIN)
            } else {
                Some(-(n as i64))
            },
            None => None,
        }
    } else {
        let from: usize = if v.len() > 0 && v[0] == '+' { 1 } else { 0 };
        match digits_value(&v, from, 9223372036854775807) {
            Some(n) => Some(n as i64),
            None => None,
        }
    }
}

/// The view of an optional text.
pub open spec fn optional_view(s: Option<String>) -> Option<Seq<char>> {
    match s {
        Some(t) => Some(t@),
        None => None,
    }
}

pub fn clone_optional(s: &Option<String>) -> (out: Option<String>)
    ensures
        optional_view(out) == optional_view(*s),
{
    match s {
        Some(t) => Some(t.clone()),
        None => None,
    }
}

/// The views of a list of texts.
pub open spec fn list_view(v: Seq<String>) -> Seq<Seq<char>> {
    Seq::new(v.len(), |i: int| v[i]@)
}

pub fn clone_list(v: &Vec<String>) -> (out: Vec<String>)
    ensures
        list_view(out@) == list_view(v@),
{
    let mut out: Vec<String> = Vec::new();
    let mut i: usize = 0;
    while i < v.len()
        invariant
            i <= v@.len(),
            out@.len() == i,
            forall|k: int| 0 <= k < i ==> (#[trigger] out@[k])@ == v@[k]@,
        decreases v@.len() - i,
    {
        out.push(v[i].clone());
        i += 1;
    }
    assert(list_view(out@) =~= list_view(v@));
    out
}

pub proof fn encode_concat(a: Seq<char>, b: Seq<char>)
    ensures
        utf8::encode_utf8(a + b) == utf8::encode_utf8(a) + utf8::encode_utf8(b),
        utf8_len(a + b) == utf8_len(a) + utf8_len(b),
    decreases a.len(),
{
    if a.len() == 0 {
        assert(a + b =~= b);
    } else {
        assert((a + b).drop_first() =~= a.drop_first() + b);
        encode_concat(a.drop_first(), b);
        assert(utf8::encode_utf8(a + b) =~= utf8::encode_utf8(a) + utf8::encode_utf8(b));
    }
}

/// The number of bytes of a character's UTF-8 form.
pub open spec fn char_width(c: char) -> nat {
    let n = c as u32;
    if n < 0x80 {
        1
    } else if n < 0x800 {
        2
    } else if n < 0x1_0000 {
        3
    } else {
        4
    }
}

fn width_of(c: char) -> (n: usize)
    ensures
        n == char_width(c),
{
    let code = c as u32;
    if code < 0x80 {
        1
    } else if code < 0x800 {
        2
    } else if code < 0x1_0000 {
        3
    } else {
        4
    }
}

proof fn one_more(s: Seq<char>, i: int)
    requires
        0 <= i < s.len(),
    ensures
        utf8_len(s.take(i + 1)) == utf8_len(s.take(i)) + char_width(s[i]),
{
    let one = seq![s[i]];
    assert(s.take(i + 1) =~= s.take(i) + one);
    encode_concat(s.take(i), one);
    assert(one.drop_first() =~= seq![]);
    scalar_width(s[i]);
    assert(utf8::encode_utf8(one) =~= utf8::encode_scalar(s[i] as u32) + utf8::encode_utf8(seq![]));
}

proof fn scalar_width(c: char)
    ensures
        utf8::encode_scalar(c as u32).len() == char_width(c),
{
    let n = c as u32;
    assert(utf8::has_width_1_encoding(n) <==> n < 0x80);
    assert(utf8::has_width_2_encoding(n) <==> 0x80 <= n < 0x800);
    assert(utf8::has_width_3_encoding(n) <==> 0x800 <= n < 0x1_0000);
}

/// The longest prefix whose UTF-8 form has at most `max` bytes.
pub open spec fn fitting(s: Seq<char>, max: nat) -> Seq<char>
    decreases s.len(),
{
    if s.len() == 0 || utf8_len(s) <= max {
        s
    } else {
        fitting(s.drop_last(), max)
    }
}

pub proof fn fitting_bound(s: Seq<char>, max: nat)
    ensures
        utf8_len(fitting(s, max)) <= max,
        fitting(s, max).is_prefix_of(s),
    decreases s.len(),
{
    if s.len() > 0 && utf8_len(s) > max {
        fitting_bound(s.drop_last(), max);
        assert(fitting(s, max) =~= s.take(fitting(s, max).len() as int));
    } else {
        assert(s.take(s.len() as int) =~= s);
    }
}

proof fn fitting_take(s: Seq<char>, i: int, max: nat)
    requires
        0 <= i <= s.len(),
        utf8_len(s.take(i)) <= max,
        i == s.len() || utf8_len(s.take(i + 1)) > max,
    ensures
        fitting(s, max) == s.take(i),
    decreases s.len(),
{
    if i == s.len() {
        assert(s.take(i) =~= s);
    } else {
        longer(s, i + 1);
        assert(s.drop_last().take(i) =~= s.take(i));
        if i < s.len() - 1 {
            assert(s.drop_last().take(i + 1) =~= s.take(i + 1));
        }
        fitting_take(s.drop_last(), i, max);
    }
}

proof fn longer(s: Seq<char>, i: int)
    requires
        0 <= i <= s.len(),
    ensures
        utf8_len(s.take(i)) <= utf8_len(s),
{
    assert(s =~= s.take(i) + s.skip(i));
    encode_concat(s.take(i), s.skip(i));
}

/// Cuts a text to its longest prefix of at most `max` bytes.
pub fn truncated(s: &str, max: usize) -> (out: String)
    ensures
        out@ == fitting(s@, max as nat),
        utf8_len(out@) <= max,
{
    proof {
        fitting_bound(s@, max as nat);
    }
    if byte_len(s) <= max {
        return s.to_owned();
    }
    let v = chars(s);
    let mut i: usize = 0;
    let mut used: usize = 0;
    assert(v@.take(0) =~= seq![]);
    while i < v.len()
        invariant_except_break
            used == utf8_len(v@.take(i as int)),
        invariant
            v@ == s@,
            i <= v@.len(),
            used <= max,
        ensures
            used == utf8_len(v@.take(i as int)),
            i == v@.len() || utf8_len(v@.take(i + 1)) > max,
        decreases v@.len() - i,
    {
        let w = width_of(v[i]);
        proof {
            one_more(v@, i as int);
        }
        if w > max - used {
            break ;
        }
        used += w;
        i += 1;
    }
    proof {
        fitting_take(v@, i as int, max as nat);
    }
    let out = slice(&v, 0, i);
    assert(out@ =~= v@.take(i as int));
    out
}

/// What `String::from_utf8_lossy` makes of bytes.
pub uninterp spec fn lossy(bytes: Seq<u8>) -> Seq<char>;

/// Calls `String::from_utf8_lossy`: the text of the bytes, with U+FFFD in place of what is no
/// UTF-8. Bytes that are UTF-8 give the text that they encode.
#[verifier::external_body]
pub(crate) fn lossy_text(bytes: &[u8]) -> (r: String)
    ensures
        r@ == lossy(bytes@),
        utf8::valid_utf8(bytes@) ==> r@ == utf8::decode_utf8(bytes@),
{
    String::from_utf8_lossy(bytes).into_owned()
}

/// What `str::to_lowercase` makes of a text.
pub uninterp spec fn lowered(s: Seq<char>) -> Seq<char>;

/// Calls `str::to_lowercase`.
#[verifier::external_body]
pub(crate) fn lowercase(s: &str) -> (r: String)
    ensures
        r@ == lowered(s@),
{
    s.to_lowercase()
}

/// What the `Debug` format of `str` makes of a text.
pub uninterp spec fn debugged(s: Seq<char>) -> Seq<char>;

/// Formats a text with `{:?}`: in quotes, with what cannot be shown escaped.
#[verifier::external_body]
pub(crate) fn debug(s: &str) -> (r: String)
    ensures
        r@ == debugged(s@),
{
    format!("{:?}", s)
}

/// What `char::is_alphanumeric` says of a character.
pub uninterp spec fn alphanumeric(c: char) -> bool;

/// Calls `char::is_alphanumeric`: whether a character is a letter or a number in Unicode.
#[verifier::external_body]
pub(crate) fn is_alphanumeric(c: char) -> (r: bool)
    ensures
        r == alphanumeric(c),
{
    c.is_alphanumeric()
}

/// Whether a list holds a text.
pub fn list_has(v: &Vec<String>, t: &str) -> (r: bool)
    ensures
        r == list_view(v@).contains(t@),
{
    let ghost all = list_view(v@);
    let mut i: usize = 0;
    while i < v.len()
        invariant
            all == list_view(v@),
            i <= v@.len(),
            forall|k: int| 0 <= k < i ==> all[k] != t@,
        decreases v@.len() - i,
    {
        assert(all[i as int] == v@[i as int]@);
        if same(v[i].as_str(), t) {
            return true;
        }
        i += 1;
    }
    assert(all.len() == v@.len());
    false
}

/// Calls `std::str::from_utf8`: the text that bytes encode, or nothing where they are no UTF-8.
#[verifier::external_body]
pub(crate) fn from_utf8(bytes: &[u8]) -> (r: Option<String>)
    ensures
        match r {
            Some(s) => utf8::valid_utf8(bytes@) && s@ == utf8::decode_utf8(bytes@),
            None => !utf8::valid_utf8(bytes@),
        },
{
    std::str::from_utf8(bytes).ok().map(str::to_owned)
}

/// The text before the first line feed, or all of it.
pub open spec fn first_line(s: Seq<char>) -> Seq<char>
    decreases s.len(),
{
    if s.len() == 0 || s[0] == '\n' {
        seq![]
    } else {
        seq![s[0]] + first_line(s.drop_first())
    }
}

pub fn line_one(s: &str) -> (out: String)
    ensures
        out@ == first_line(s@),
{
    let v = chars(s);
    let mut out = String::new();
    let mut i: usize = 0;
    assert(v@.skip(0) =~= v@);
    assert(out@ + first_line(v@.skip(0)) =~= first_line(s@));
    while i < v.len() && v[i] != '\n'
        invariant
            v@ == s@,
            i <= v@.len(),
            out@ + first_line(v@.skip(i as int)) == first_line(s@),
        decreases v@.len() - i,
    {
        let ghost rest = v@.skip(i as int);
        assert(rest[0] == v@[i as int]);
        assert(rest.drop_first() =~= v@.skip(i + 1));
        let ghost before = out@;
        out.push(v[i]);
        assert(out@ + first_line(v@.skip(i + 1)) =~= before + first_line(rest));
        i += 1;
    }
    assert(first_line(v@.skip(i as int)) =~= seq![]);
    assert(out@ =~= first_line(s@));
    out
}

/// What follows a prefix, where a text begins with it.
pub open spec fn behind(s: Seq<char>, prefix: Seq<char>) -> Option<Seq<char>> {
    if prefix.is_prefix_of(s) {
        Some(s.skip(prefix.len() as int))
    } else {
        None
    }
}

pub fn strip_prefix(s: &str, prefix: &str) -> (out: Option<String>)
    ensures
        optional_view(out) == behind(s@, prefix@),
{
    if !starts_with(s, prefix) {
        return None;
    }
    let v = chars(s);
    let n = chars(prefix).len();
    let out = slice(&v, n, v.len());
    assert(out@ =~= s@.skip(prefix@.len() as int));
    Some(out)
}

pub fn ascii_lowercase(s: &str) -> (out: String)
    ensures
        out@ == ascii_lowered(s@),
{
    let v = chars(s);
    let mut out = String::new();
    let mut i: usize = 0;
    while i < v.len()
        invariant
            v@ == s@,
            i <= v@.len(),
            out@ == ascii_lowered(s@).take(i as int),
        decreases v@.len() - i,
    {
        out.push(lower_char(v[i]));
        assert(out@ =~= ascii_lowered(s@).take(i + 1));
        i += 1;
    }
    assert(out@ =~= ascii_lowered(s@));
    out
}

fn lower_char(c: char) -> (r: char)
    ensures
        r == ascii_lower(c),
{
    if 'A' <= c && c <= 'Z' {
        ((c as u8) + 32) as char
    } else {
        c
    }
}

/// The lines of a text: the pieces between its line feeds.
pub open spec fn lines(s: Seq<char>) -> Seq<Seq<char>>
    decreases s.len(),
{
    if !s.contains('\n') {
        seq![s]
    } else {
        proof {
            first_line_bound(s);
        }
        seq![first_line(s)] + lines(s.skip(first_line(s).len() as int + 1))
    }
}

pub proof fn first_line_bound(s: Seq<char>)
    ensures
        first_line(s).len() <= s.len(),
        first_line(s) == s.take(first_line(s).len() as int),
        s.contains('\n') ==> first_line(s).len() < s.len() && s[first_line(s).len() as int] == '\n',
        !s.contains('\n') ==> first_line(s) == s,
        forall|i: int| 0 <= i < first_line(s).len() ==> s[i] != '\n',
    decreases s.len(),
{
    if s.len() > 0 && s[0] != '\n' {
        let rest = s.drop_first();
        first_line_bound(rest);
        assert(first_line(s) =~= s.take(first_line(s).len() as int));
        if s.contains('\n') {
            let i = choose|i: int| 0 <= i < s.len() && s[i] == '\n';
            assert(rest[i - 1] == '\n');
        }
        if rest.contains('\n') {
            let i = choose|i: int| 0 <= i < rest.len() && rest[i] == '\n';
            assert(s[i + 1] == '\n');
        }
        assert forall|i: int| 0 <= i < first_line(s).len() implies s[i] != '\n' by {
            if i > 0 {
                assert(s[i] == rest[i - 1]);
            }
        }
    } else if s.len() > 0 {
        assert(s.contains('\n'));
        assert(first_line(s) =~= s.take(0));
    } else {
        assert(first_line(s) =~= s);
        assert(first_line(s) =~= s.take(0));
    }
}

/// Splits a text into its lines.
pub fn split_lines(s: &str) -> (out: Vec<String>)
    ensures
        list_view(out@) == lines(s@),
{
    let v = chars(s);
    let mut out: Vec<String> = Vec::new();
    let mut from: usize = 0;
    let mut i: usize = 0;
    assert(v@.skip(0) =~= v@);
    assert(list_view(out@) + lines(v@.skip(0)) =~= lines(s@));
    while i < v.len()
        invariant
            v@ == s@,
            from <= i <= v@.len(),
            forall|k: int| from <= k < i ==> v@[k] != '\n',
            list_view(out@) + lines(v@.skip(from as int)) == lines(s@),
        decreases v@.len() - i,
    {
        if v[i] == '\n' {
            let ghost rest = v@.skip(from as int);
            proof {
                first_line_bound(rest);
                assert(rest[i - from] == '\n');
                let n = first_line(rest).len() as int;
                if n < i - from {
                    assert(v@[from + n] == rest[n]);
                }
                assert(n == i - from);
                assert(rest.skip(n + 1) =~= v@.skip(i + 1));
                assert(first_line(rest) =~= v@.subrange(from as int, i as int));
            }
            let ghost before = list_view(out@);
            out.push(slice(&v, from, i));
            assert(list_view(out@) =~= before.push(v@.subrange(from as int, i as int)));
            assert(list_view(out@) + lines(v@.skip(i + 1)) =~= before + lines(rest));
            from = i + 1;
        }
        i += 1;
    }
    let ghost rest = v@.skip(from as int);
    assert(!rest.contains('\n'));
    let ghost before = list_view(out@);
    out.push(slice(&v, from, v.len()));
    assert(v@.subrange(from as int, v@.len() as int) =~= rest);
    assert(list_view(out@) =~= before.push(rest));
    assert(list_view(out@) =~= before + lines(rest));
    out
}

/// The place of the first occurrence of a character, or the length of the text.
pub open spec fn place_of(s: Seq<char>, c: char) -> nat
    decreases s.len(),
{
    if s.len() == 0 || s[0] == c {
        0
    } else {
        1 + place_of(s.drop_first(), c)
    }
}

/// What stands before and behind the first occurrence of a character.
pub open spec fn parted(s: Seq<char>, c: char) -> Option<(Seq<char>, Seq<char>)> {
    let n = place_of(s, c) as int;
    if n < s.len() {
        Some((s.take(n), s.skip(n + 1)))
    } else {
        None
    }
}

/// Splits a text at the first occurrence of a character.
pub fn split_once(s: &str, c: char) -> (r: Option<(String, String)>)
    ensures
        match r {
            Some((a, b)) => parted(s@, c) == Some((a@, b@)),
            None => parted(s@, c) is None,
        },
{
    let v = chars(s);
    let mut i: usize = 0;
    assert(v@.skip(0) =~= v@);
    while i < v.len() && v[i] != c
        invariant
            v@ == s@,
            i <= v@.len(),
            place_of(s@, c) == i + place_of(v@.skip(i as int), c),
        decreases v@.len() - i,
    {
        assert(v@.skip(i as int)[0] == v@[i as int]);
        assert(v@.skip(i as int).drop_first() =~= v@.skip(i + 1));
        i += 1;
    }
    if i == v.len() {
        return None;
    }
    assert(v@.skip(i as int)[0] == v@[i as int]);
    let a = slice(&v, 0, i);
    let b = slice(&v, i + 1, v.len());
    assert(a@ =~= s@.take(i as int));
    assert(b@ =~= s@.skip(i + 1));
    Some((a, b))
}

/// Only the empty text has no bytes.
pub proof fn utf8_len_zero(s: Seq<char>)
    ensures
        utf8_len(s) == 0 <==> s.len() == 0,
{
    fitting_bound(s, 0);
    if s.len() == 0 {
        assert(s =~= seq![]);
    }
}

/// A line without the carriage return at its end.
pub open spec fn without_return(s: Seq<char>) -> Seq<char> {
    if s.len() > 0 && s.last() == '\r' {
        s.drop_last()
    } else {
        s
    }
}

/// The lines of a text without their ends: a line feed, or a carriage return and a line feed. What
/// follows the last line feed is a line only where it is not empty.
pub open spec fn text_lines(s: Seq<char>) -> Seq<Seq<char>> {
    let pieces = lines(s);
    let ended = Seq::new((pieces.len() - 1) as nat, |i: int| without_return(pieces[i]));
    if pieces.last().len() == 0 {
        ended
    } else {
        ended.push(pieces.last())
    }
}

proof fn lines_len(s: Seq<char>)
    ensures
        lines(s).len() >= 1,
{
}

fn drop_return(s: &String) -> (out: String)
    ensures
        out@ == without_return(s@),
{
    let v = chars(s.as_str());
    if v.len() > 0 && v[v.len() - 1] == '\r' {
        let out = slice(&v, 0, v.len() - 1);
        assert(out@ =~= s@.drop_last());
        out
    } else {
        s.clone()
    }
}

/// Splits a text into its lines, without their ends.
pub fn split_text_lines(s: &str) -> (out: Vec<String>)
    ensures
        list_view(out@) == text_lines(s@),
{
    let pieces = split_lines(s);
    let ghost all = list_view(pieces@);
    proof {
        lines_len(s@);
    }
    let mut out: Vec<String> = Vec::new();
    let n = pieces.len() - 1;
    let mut i: usize = 0;
    while i < n
        invariant
            all == list_view(pieces@),
            n == pieces@.len() - 1,
            i <= n,
            list_view(out@) == Seq::new(i as nat, |k: int| without_return(all[k])),
        decreases n - i,
    {
        let ghost before = list_view(out@);
        assert(all[i as int] == pieces@[i as int]@);
        out.push(drop_return(&pieces[i]));
        assert(list_view(out@) =~= before.push(without_return(all[i as int])));
        assert(list_view(out@) =~= Seq::new((i + 1) as nat, |k: int| without_return(all[k])));
        i += 1;
    }
    let ghost ended = list_view(out@);
    assert(all.last() == pieces@[n as int]@);
    proof {
        utf8_len_zero(pieces@[n as int]@);
    }
    if byte_len(pieces[n].as_str()) > 0 {
        out.push(pieces[n].clone());
        assert(list_view(out@) =~= ended.push(all.last()));
    }
    out
}

/// The first line of a text without its end.
pub open spec fn head_line(s: Seq<char>) -> Seq<char> {
    if s.contains('\n') {
        without_return(first_line(s))
    } else {
        s
    }
}

/// The first of a text's lines is its head line; a text without lines has an empty one.
pub proof fn head_line_is_first(s: Seq<char>)
    ensures
        text_lines(s).len() > 0 ==> text_lines(s)[0] == head_line(s),
        text_lines(s).len() == 0 ==> head_line(s).len() == 0,
{
    if s.contains('\n') {
        lines_len(s.skip(first_line(s).len() as int + 1));
        assert(lines(s)[0] == first_line(s));
    }
}

/// The first line of a text without its end.
pub fn leading_line(s: &str) -> (out: String)
    ensures
        out@ == head_line(s@),
{
    let line = line_one(s);
    proof {
        first_line_bound(s@);
        utf8_cut(s@, line@.len() as int);
    }
    if byte_len(line.as_str()) < byte_len(s) {
        drop_return(&line)
    } else {
        line
    }
}

proof fn utf8_cut(s: Seq<char>, n: int)
    requires
        0 <= n <= s.len(),
    ensures
        utf8_len(s.take(n)) < utf8_len(s) <==> n < s.len(),
{
    assert(s =~= s.take(n) + s.skip(n));
    encode_concat(s.take(n), s.skip(n));
    utf8_len_zero(s.skip(n));
}

/// Texts with another between each two of them.
pub open spec fn joined(parts: Seq<Seq<char>>, between: Seq<char>) -> Seq<char>
    decreases parts.len(),
{
    if parts.len() == 0 {
        seq![]
    } else if parts.len() == 1 {
        parts[0]
    } else {
        joined(parts.drop_last(), between) + between + parts.last()
    }
}

/// Joins texts with another between each two of them.
pub fn join(parts: &Vec<String>, between: &str) -> (out: String)
    ensures
        out@ == joined(list_view(parts@), between@),
{
    let ghost all = list_view(parts@);
    let mut out = String::new();
    let mut i: usize = 0;
    assert(all.take(0) =~= seq![]);
    assert(out@ =~= joined(all.take(0), between@));
    while i < parts.len()
        invariant
            all == list_view(parts@),
            i <= parts@.len(),
            out@ == joined(all.take(i as int), between@),
        decreases parts@.len() - i,
    {
        assert(all[i as int] == parts@[i as int]@);
        assert(all.take(i + 1).drop_last() =~= all.take(i as int));
        if i == 0 {
            out = parts[i].clone();
        } else {
            out.append(between);
            out.append(parts[i].as_str());
        }
        i += 1;
    }
    assert(all.take(i as int) =~= all);
    out
}

/// A text has at most four bytes more than the text without its last character.
pub proof fn utf8_len_step(s: Seq<char>)
    requires
        s.len() > 0,
    ensures
        utf8_len(s) <= utf8_len(s.drop_last()) + 4,
{
    one_more(s, s.len() - 1);
    assert(s.take(s.len() as int) =~= s);
    assert(s.take(s.len() - 1) =~= s.drop_last());
}

}
