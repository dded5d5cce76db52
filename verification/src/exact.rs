//! JSON texts tell values apart: two values have the same text only where they are alike.
use vstd::prelude::*;

use crate::json;
use crate::json::JsonView;
use crate::text;

verus! {

/// Whether two values are the same but for how a number is held beside its text.
pub open spec fn alike(v: JsonView, w: JsonView) -> bool
    decreases v,
{
    match (v, w) {
        (JsonView::Null, JsonView::Null) => true,
        (JsonView::Bool(a), JsonView::Bool(b)) => a == b,
        (JsonView::Number(a), JsonView::Number(b)) => a.text == b.text,
        (JsonView::Text(a), JsonView::Text(b)) => a == b,
        (JsonView::List(a), JsonView::List(b)) => alike_items(a, b),
        (JsonView::Object(a), JsonView::Object(b)) => alike_fields(a, b),
        _ => false,
    }
}

/// Whether lists hold alike values, one for one.
pub open spec fn alike_items(a: Seq<JsonView>, b: Seq<JsonView>) -> bool
    decreases a,
{
    &&& a.len() == b.len()
    &&& forall|i: int| 0 <= i < a.len() ==> alike(#[trigger] a[i], b[i])
}

/// Whether objects hold alike values under the same keys, in the same order.
pub open spec fn alike_fields(
    a: Seq<(Seq<char>, JsonView)>,
    b: Seq<(Seq<char>, JsonView)>,
) -> bool
    decreases a,
{
    &&& a.len() == b.len()
    &&& forall|i: int|
        0 <= i < a.len() ==> (#[trigger] a[i]).0 == b[i].0 && alike(a[i].1, b[i].1)
}

/// A character that a JSON number is made of.
pub open spec fn numeric(c: char) -> bool {
    text::ascii_digit(c) || c == '-' || c == '+' || c == '.' || c == 'e' || c == 'E'
}

/// Whether a text can be that of a number.
pub open spec fn numeral(t: Seq<char>) -> bool {
    t.len() > 0 && forall|i: int| 0 <= i < t.len() ==> numeric(#[trigger] t[i])
}

/// Whether every number in a value has the text of a number.
pub open spec fn written(v: JsonView) -> bool
    decreases v,
{
    match v {
        JsonView::Number(n) => numeral(n.text),
        JsonView::List(items) => forall|i: int|
            0 <= i < items.len() ==> written(#[trigger] items[i]),
        JsonView::Object(fields) => forall|i: int|
            0 <= i < fields.len() ==> written((#[trigger] fields[i]).1),
        _ => true,
    }
}

/// An object is written with numbers where the values of its fields are.
pub proof fn fields_are_written(fields: Seq<(Seq<char>, JsonView)>)
    ensures
        written(JsonView::Object(fields)) <==> forall|i: int|
            0 <= i < fields.len() ==> written((#[trigger] fields[i]).1),
{
    let v = JsonView::Object(fields);
    if written(v) {
        assert forall|i: int| 0 <= i < fields.len() implies written((#[trigger] fields[i]).1) by {
            assert(written((v->Object_0)[i].1));
        }
    }
}

/// Giving a name a value that is written with numbers keeps an object so.
pub proof fn put_is_written(
    fields: Seq<(Seq<char>, JsonView)>,
    key: Seq<char>,
    value: JsonView,
)
    requires
        written(JsonView::Object(fields)),
        written(value),
    ensures
        written(JsonView::Object(json::put(fields, key, value))),
    decreases fields.len(),
{
    fields_are_written(fields);
    let after = json::put(fields, key, value);
    let rest = fields.drop_first();
    if fields.len() > 0 {
        assert forall|i: int| 0 <= i < rest.len() implies written((#[trigger] rest[i]).1) by {
            assert(rest[i] == fields[i + 1]);
        }
        fields_are_written(rest);
        put_is_written(rest, key, value);
        fields_are_written(json::put(rest, key, value));
    }
    assert forall|i: int| 0 <= i < after.len() implies written((#[trigger] after[i]).1) by {
        if fields.len() == 0 {
            assert(after[i] == (key, value));
        } else {
            assert(written(fields[0].1));
            if fields[0].0 == key {
                assert(after == seq![(key, value)] + rest);
                assert(i == 0 || after[i] == rest[i - 1]);
            } else if text::before(key, fields[0].0) {
                assert(after == seq![(key, value)] + fields);
                assert(i == 0 || after[i] == fields[i - 1]);
            } else {
                assert(after == seq![fields[0]] + json::put(rest, key, value));
                assert(i == 0 || after[i] == json::put(rest, key, value)[i - 1]);
            }
        }
    }
    fields_are_written(after);
}

/// Whether a value can end before a text: there, or in front of a comma or a closing bracket.
spec fn ends(t: Seq<char>) -> bool {
    t.len() == 0 || t[0] == ',' || t[0] == ']' || t[0] == '}'
}

proof fn skip_same(x: Seq<char>, r: Seq<char>, s: Seq<char>)
    requires
        x + r == x + s,
    ensures
        r == s,
{
    assert((x + r).skip(x.len() as int) =~= r);
    assert((x + s).skip(x.len() as int) =~= s);
}

/// The escaped form of a text begins with that of its first character.
proof fn escaped_from_front(s: Seq<char>)
    requires
        s.len() > 0,
    ensures
        json::escaped_all(s) == json::escaped(s[0]) + json::escaped_all(s.drop_first()),
    decreases s.len(),
{
    if s.len() == 1 {
        assert(s.drop_last() =~= seq![]);
        assert(s.drop_first() =~= seq![]);
        assert(json::escaped_all(s) =~= json::escaped(s[0]) + json::escaped_all(s.drop_first()));
    } else {
        escaped_from_front(s.drop_last());
        assert(s.drop_last().drop_first() =~= s.drop_first().drop_last());
        assert(json::escaped_all(s) =~= json::escaped(s[0]) + json::escaped_all(s.drop_first()));
    }
}

/// No escaped character begins another one.
proof fn escapes_tell_apart(c: char, d: char, x: Seq<char>, y: Seq<char>)
    requires
        json::escaped(c) + x == json::escaped(d) + y,
    ensures
        c == d,
        x == y,
{
    let e = json::escaped(c);
    let f = json::escaped(d);
    let l = e + x;
    let m = f + y;
    assert(l[0] == e[0] && m[0] == f[0]);
    if e.len() > 1 {
        assert(l[1] == e[1]);
    }
    if f.len() > 1 {
        assert(m[1] == f[1]);
    }
    if e.len() == 6 && f.len() == 6 {
        assert(l[4] == e[4] && m[4] == f[4]);
        assert(l[5] == e[5] && m[5] == f[5]);
        let n = c as u32;
        let k = d as u32;
        assert(n / 16 == k / 16 && n % 16 == k % 16);
        assert(n == k);
    }
    assert(c == d);
    skip_same(e, x, y);
}

proof fn escapes_begin(c: char)
    ensures
        json::escaped(c).len() > 0,
        json::escaped(c)[0] != '"',
{
}

/// The closing quote ends a string where its text ends.
proof fn strings_tell_apart(s: Seq<char>, t: Seq<char>, x: Seq<char>, y: Seq<char>)
    requires
        json::escaped_all(s) + seq!['"'] + x == json::escaped_all(t) + seq!['"'] + y,
    ensures
        s == t,
        x == y,
    decreases s.len(),
{
    let quote = seq!['"'];
    let l = json::escaped_all(s) + quote + x;
    let m = json::escaped_all(t) + quote + y;
    if s.len() == 0 && t.len() == 0 {
        assert(s =~= t);
        assert(l =~= quote + x);
        assert(m =~= quote + y);
        skip_same(quote, x, y);
    } else if s.len() == 0 {
        escaped_from_front(t);
        escapes_begin(t[0]);
        assert(l[0] == '"');
        assert(m[0] == json::escaped(t[0])[0]);
    } else if t.len() == 0 {
        escaped_from_front(s);
        escapes_begin(s[0]);
        assert(m[0] == '"');
        assert(l[0] == json::escaped(s[0])[0]);
    } else {
        escaped_from_front(s);
        escaped_from_front(t);
        let p = s.drop_first();
        let q = t.drop_first();
        assert(l =~= json::escaped(s[0]) + (json::escaped_all(p) + quote + x));
        assert(m =~= json::escaped(t[0]) + (json::escaped_all(q) + quote + y));
        escapes_tell_apart(
            s[0],
            t[0],
            json::escaped_all(p) + quote + x,
            json::escaped_all(q) + quote + y,
        );
        strings_tell_apart(p, q, x, y);
        assert(s =~= seq![s[0]] + p);
        assert(t =~= seq![t[0]] + q);
    }
}

/// The text of a value begins with a character that shows what kind of value it is.
proof fn text_begins(v: JsonView)
    requires
        written(v),
    ensures
        json::json_text(v).len() > 0,
        ({
            let c = json::json_text(v)[0];
            match v {
                JsonView::Null => c == 'n',
                JsonView::Bool(b) => c == (if b {
                    't'
                } else {
                    'f'
                }),
                JsonView::Number(_) => numeric(c),
                JsonView::Text(_) => c == '"',
                JsonView::List(_) => c == '[',
                JsonView::Object(_) => c == '{',
            }
        }),
{
    reveal_strlit("null");
    reveal_strlit("true");
    reveal_strlit("false");
}

/// What follows the first value of a list, up to its closing bracket and behind it.
spec fn behind_item(items: Seq<JsonView>, r: Seq<char>) -> Seq<char> {
    if items.len() == 1 {
        seq![']'] + r
    } else {
        seq![','] + json::items_text(items.drop_first()) + seq![']'] + r
    }
}

/// The text of a list begins with that of its first value.
proof fn items_from_front(items: Seq<JsonView>)
    requires
        items.len() > 1,
    ensures
        json::items_text(items) == json::json_text(items[0]) + seq![','] + json::items_text(
            items.drop_first(),
        ),
    decreases items.len(),
{
    let front = items.drop_last();
    let rest = items.drop_first();
    if items.len() == 2 {
        assert(front.len() == 1 && front[0] == items[0]);
        assert(rest.len() == 1 && rest[0] == items.last());
        assert(json::items_text(front) == json::json_text(items[0]));
        assert(json::items_text(items) =~= json::json_text(items[0]) + seq![',']
            + json::items_text(rest));
    } else {
        items_from_front(front);
        assert(front.drop_first() =~= rest.drop_last());
        assert(rest.last() == items.last());
        assert(json::items_text(items) =~= json::json_text(items[0]) + seq![',']
            + json::items_text(rest));
    }
}

proof fn list_from_front(items: Seq<JsonView>, r: Seq<char>)
    requires
        items.len() > 0,
    ensures
        json::items_text(items) + seq![']'] + r == json::json_text(items[0]) + behind_item(
            items,
            r,
        ),
        ends(behind_item(items, r)),
{
    if items.len() > 1 {
        items_from_front(items);
    }
    assert(json::items_text(items) + seq![']'] + r =~= json::json_text(items[0]) + behind_item(
        items,
        r,
    ));
}

/// A field: its key, a colon, and its value.
spec fn field_text(f: (Seq<char>, JsonView)) -> Seq<char> {
    json::quoted(f.0) + seq![':'] + json::json_text(f.1)
}

/// What follows the first field of an object, up to its closing bracket and behind it.
spec fn behind_field(fields: Seq<(Seq<char>, JsonView)>, r: Seq<char>) -> Seq<char> {
    if fields.len() == 1 {
        seq!['}'] + r
    } else {
        seq![','] + json::fields_text(fields.drop_first()) + seq!['}'] + r
    }
}

/// The text of an object begins with that of its first field.
proof fn fields_from_front(fields: Seq<(Seq<char>, JsonView)>)
    requires
        fields.len() > 1,
    ensures
        json::fields_text(fields) == field_text(fields[0]) + seq![','] + json::fields_text(
            fields.drop_first(),
        ),
    decreases fields.len(),
{
    let front = fields.drop_last();
    let rest = fields.drop_first();
    if fields.len() == 2 {
        assert(front.len() == 1 && front[0] == fields[0]);
        assert(rest.len() == 1 && rest[0] == fields.last());
        assert(json::fields_text(front) == field_text(fields[0]));
        assert(json::fields_text(fields) =~= field_text(fields[0]) + seq![',']
            + json::fields_text(rest));
    } else {
        fields_from_front(front);
        assert(front.drop_first() =~= rest.drop_last());
        assert(rest.last() == fields.last());
        assert(json::fields_text(fields) =~= field_text(fields[0]) + seq![',']
            + json::fields_text(rest));
    }
}

proof fn object_from_front(fields: Seq<(Seq<char>, JsonView)>, r: Seq<char>)
    requires
        fields.len() > 0,
    ensures
        json::fields_text(fields) + seq!['}'] + r == seq!['"'] + (json::escaped_all(fields[0].0)
            + seq!['"'] + (seq![':'] + (json::json_text(fields[0].1) + behind_field(fields, r)))),
        ends(behind_field(fields, r)),
{
    if fields.len() > 1 {
        fields_from_front(fields);
    }
    assert(json::fields_text(fields) + seq!['}'] + r =~= seq!['"'] + (json::escaped_all(
        fields[0].0,
    ) + seq!['"'] + (seq![':'] + (json::json_text(fields[0].1) + behind_field(fields, r)))));
}

/// A number ends where a character follows that is not part of one.
proof fn numerals_tell_apart(a: Seq<char>, b: Seq<char>, r: Seq<char>, s: Seq<char>)
    requires
        numeral(a),
        numeral(b),
        a + r == b + s,
        ends(r),
        ends(s),
    ensures
        a == b,
        r == s,
{
    let l = a + r;
    if a.len() < b.len() {
        assert(l[a.len() as int] == r[0]);
        assert((b + s)[a.len() as int] == b[a.len() as int]);
    } else if b.len() < a.len() {
        assert((b + s)[b.len() as int] == s[0]);
        assert(l[b.len() as int] == a[b.len() as int]);
    }
    assert((a + r).take(a.len() as int) =~= a);
    assert((b + s).take(b.len() as int) =~= b);
    skip_same(a, r, s);
}

/// What a text holds up to where a value ends tells which value it is, and what follows it.
proof fn values_tell_apart(v: JsonView, w: JsonView, r: Seq<char>, s: Seq<char>)
    requires
        written(v),
        written(w),
        json::json_text(v) + r == json::json_text(w) + s,
        ends(r),
        ends(s),
    ensures
        alike(v, w),
        r == s,
    decreases v,
{
    text_begins(v);
    text_begins(w);
    let l = json::json_text(v) + r;
    assert(l[0] == json::json_text(v)[0]);
    assert((json::json_text(w) + s)[0] == json::json_text(w)[0]);
    match (v, w) {
        (JsonView::Null, JsonView::Null) => {
            skip_same("null"@, r, s);
        },
        (JsonView::Bool(a), JsonView::Bool(b)) => {
            assert(a == b);
            skip_same(json::json_text(v), r, s);
        },
        (JsonView::Number(a), JsonView::Number(b)) => {
            numerals_tell_apart(a.text, b.text, r, s);
        },
        (JsonView::Text(a), JsonView::Text(b)) => {
            let x = json::escaped_all(a) + seq!['"'] + r;
            let y = json::escaped_all(b) + seq!['"'] + s;
            assert(l =~= seq!['"'] + x);
            assert(json::json_text(w) + s =~= seq!['"'] + y);
            skip_same(seq!['"'], x, y);
            strings_tell_apart(a, b, r, s);
        },
        (JsonView::List(a), JsonView::List(b)) => {
            let x = json::items_text(a) + seq![']'] + r;
            let y = json::items_text(b) + seq![']'] + s;
            assert(l =~= seq!['['] + x);
            assert(json::json_text(w) + s =~= seq!['['] + y);
            skip_same(seq!['['], x, y);
            lists_tell_apart(a, b, r, s);
        },
        (JsonView::Object(a), JsonView::Object(b)) => {
            let x = json::fields_text(a) + seq!['}'] + r;
            let y = json::fields_text(b) + seq!['}'] + s;
            assert(l =~= seq!['{'] + x);
            assert(json::json_text(w) + s =~= seq!['{'] + y);
            skip_same(seq!['{'], x, y);
            objects_tell_apart(a, b, r, s);
        },
        _ => {},
    }
}

proof fn lists_tell_apart(a: Seq<JsonView>, b: Seq<JsonView>, r: Seq<char>, s: Seq<char>)
    requires
        forall|i: int| 0 <= i < a.len() ==> written(#[trigger] a[i]),
        forall|i: int| 0 <= i < b.len() ==> written(#[trigger] b[i]),
        json::items_text(a) + seq![']'] + r == json::items_text(b) + seq![']'] + s,
    ensures
        alike_items(a, b),
        r == s,
    decreases a,
{
    let x = json::items_text(a) + seq![']'] + r;
    let y = json::items_text(b) + seq![']'] + s;
    if a.len() == 0 && b.len() == 0 {
        assert(x =~= seq![']'] + r);
        assert(y =~= seq![']'] + s);
        skip_same(seq![']'], r, s);
    } else if a.len() == 0 {
        list_from_front(b, s);
        text_begins(b[0]);
        assert(x[0] == ']');
        assert(y[0] == json::json_text(b[0])[0]);
    } else if b.len() == 0 {
        list_from_front(a, r);
        text_begins(a[0]);
        assert(y[0] == ']');
        assert(x[0] == json::json_text(a[0])[0]);
    } else {
        list_from_front(a, r);
        list_from_front(b, s);
        let p = behind_item(a, r);
        let q = behind_item(b, s);
        values_tell_apart(a[0], b[0], p, q);
        assert(p[0] == q[0]);
        assert(p[0] == (if a.len() == 1 {
            ']'
        } else {
            ','
        }));
        assert(q[0] == (if b.len() == 1 {
            ']'
        } else {
            ','
        }));
        if a.len() == 1 {
            skip_same(seq![']'], r, s);
        } else {
            let c = a.drop_first();
            let d = b.drop_first();
            let m = json::items_text(c) + seq![']'] + r;
            let n = json::items_text(d) + seq![']'] + s;
            assert(p =~= seq![','] + m);
            assert(q =~= seq![','] + n);
            skip_same(seq![','], m, n);
            lists_tell_apart(c, d, r, s);
            assert forall|i: int| 0 <= i < a.len() implies alike(#[trigger] a[i], b[i]) by {
                if i > 0 {
                    assert(c[i - 1] == a[i] && d[i - 1] == b[i]);
                }
            }
        }
    }
}

proof fn objects_tell_apart(
    a: Seq<(Seq<char>, JsonView)>,
    b: Seq<(Seq<char>, JsonView)>,
    r: Seq<char>,
    s: Seq<char>,
)
    requires
        forall|i: int| 0 <= i < a.len() ==> written((#[trigger] a[i]).1),
        forall|i: int| 0 <= i < b.len() ==> written((#[trigger] b[i]).1),
        json::fields_text(a) + seq!['}'] + r == json::fields_text(b) + seq!['}'] + s,
    ensures
        alike_fields(a, b),
        r == s,
    decreases a,
{
    let x = json::fields_text(a) + seq!['}'] + r;
    let y = json::fields_text(b) + seq!['}'] + s;
    if a.len() == 0 && b.len() == 0 {
        assert(x =~= seq!['}'] + r);
        assert(y =~= seq!['}'] + s);
        skip_same(seq!['}'], r, s);
    } else if a.len() == 0 {
        object_from_front(b, s);
        assert(x[0] == '}');
        assert(y[0] == '"');
    } else if b.len() == 0 {
        object_from_front(a, r);
        assert(y[0] == '}');
        assert(x[0] == '"');
    } else {
        object_from_front(a, r);
        object_from_front(b, s);
        let p = behind_field(a, r);
        let q = behind_field(b, s);
        let av = json::json_text(a[0].1) + p;
        let bv = json::json_text(b[0].1) + q;
        skip_same(
            seq!['"'],
            json::escaped_all(a[0].0) + seq!['"'] + (seq![':'] + av),
            json::escaped_all(b[0].0) + seq!['"'] + (seq![':'] + bv),
        );
        strings_tell_apart(a[0].0, b[0].0, seq![':'] + av, seq![':'] + bv);
        skip_same(seq![':'], av, bv);
        values_tell_apart(a[0].1, b[0].1, p, q);
        assert(p[0] == q[0]);
        assert(p[0] == (if a.len() == 1 {
            '}'
        } else {
            ','
        }));
        assert(q[0] == (if b.len() == 1 {
            '}'
        } else {
            ','
        }));
        if a.len() == 1 {
            skip_same(seq!['}'], r, s);
        } else {
            let c = a.drop_first();
            let d = b.drop_first();
            let m = json::fields_text(c) + seq!['}'] + r;
            let n = json::fields_text(d) + seq!['}'] + s;
            assert(p =~= seq![','] + m);
            assert(q =~= seq![','] + n);
            skip_same(seq![','], m, n);
            objects_tell_apart(c, d, r, s);
            assert forall|i: int| 0 <= i < a.len() implies (#[trigger] a[i]).0 == b[i].0 && alike(
                a[i].1,
                b[i].1,
            ) by {
                if i > 0 {
                    assert(c[i - 1] == a[i] && d[i - 1] == b[i]);
                }
            }
        }
    }
}

/// Every value is alike to itself.
pub proof fn alike_to_itself(v: JsonView)
    ensures
        alike(v, v),
    decreases v,
{
    match v {
        JsonView::List(a) => {
            assert forall|i: int| 0 <= i < a.len() implies alike(#[trigger] a[i], a[i]) by {
                alike_to_itself(a[i]);
            }
        },
        JsonView::Object(a) => {
            assert forall|i: int| 0 <= i < a.len() implies (#[trigger] a[i]).0 == a[i].0 && alike(
                a[i].1,
                a[i].1,
            ) by {
                alike_to_itself(a[i].1);
            }
        },
        _ => {},
    }
}

proof fn alike_have_one_text(v: JsonView, w: JsonView)
    requires
        alike(v, w),
    ensures
        json::json_text(v) == json::json_text(w),
    decreases v,
{
    match (v, w) {
        (JsonView::List(a), JsonView::List(b)) => {
            alike_lists_have_one_text(a, b);
        },
        (JsonView::Object(a), JsonView::Object(b)) => {
            alike_objects_have_one_text(a, b);
        },
        _ => {},
    }
}

proof fn alike_lists_have_one_text(a: Seq<JsonView>, b: Seq<JsonView>)
    requires
        alike_items(a, b),
    ensures
        json::items_text(a) == json::items_text(b),
    decreases a,
{
    if a.len() > 0 {
        alike_have_one_text(a.last(), b.last());
        let c = a.drop_last();
        let d = b.drop_last();
        assert forall|i: int| 0 <= i < c.len() implies alike(#[trigger] c[i], d[i]) by {
            assert(c[i] == a[i] && d[i] == b[i]);
        }
        alike_lists_have_one_text(c, d);
    }
}

proof fn alike_objects_have_one_text(
    a: Seq<(Seq<char>, JsonView)>,
    b: Seq<(Seq<char>, JsonView)>,
)
    requires
        alike_fields(a, b),
    ensures
        json::fields_text(a) == json::fields_text(b),
    decreases a,
{
    if a.len() > 0 {
        let k = a.len() - 1;
        assert(a[k].0 == b[k].0);
        alike_have_one_text(a[k].1, b[k].1);
        let c = a.drop_last();
        let d = b.drop_last();
        assert forall|i: int| 0 <= i < c.len() implies (#[trigger] c[i]).0 == d[i].0 && alike(
            c[i].1,
            d[i].1,
        ) by {
            assert(c[i] == a[i] && d[i] == b[i]);
        }
        alike_objects_have_one_text(c, d);
    }
}

/// Values that are alike have the same JSON text. Where their numbers have the texts of numbers,
/// no others do.
pub proof fn texts_are_exact(v: JsonView, w: JsonView)
    ensures
        alike(v, w) ==> json::json_text(v) == json::json_text(w),
        written(v) && written(w) && json::json_text(v) == json::json_text(w) ==> alike(v, w),
{
    if written(v) && written(w) && json::json_text(v) == json::json_text(w) {
        let none: Seq<char> = seq![];
        assert(json::json_text(v) + none == json::json_text(w) + none);
        values_tell_apart(v, w, none, none);
    }
    if alike(v, w) {
        alike_have_one_text(v, w);
    }
}

/// Lists of four values are alike where their values are, one for one.
pub proof fn alike_in_fours(a: Seq<JsonView>, b: Seq<JsonView>)
    requires
        a.len() == 4,
        b.len() == 4,
    ensures
        alike(JsonView::List(a), JsonView::List(b)) <==> alike(a[0], b[0]) && alike(a[1], b[1])
            && alike(a[2], b[2]) && alike(a[3], b[3]),
{
    if alike(a[0], b[0]) && alike(a[1], b[1]) && alike(a[2], b[2]) && alike(a[3], b[3]) {
        assert forall|i: int| 0 <= i < a.len() implies alike(#[trigger] a[i], b[i]) by {
            assert(i == 0 || i == 1 || i == 2 || i == 3);
        }
    }
}

/// Integers are written as numbers, each with a text of its own.
pub proof fn integers_are_exact(n: int, m: int)
    ensures
        written(json::integer(n)),
        alike(json::integer(n), json::integer(m)) <==> n == m,
{
    integer_is_numeral(n);
    integer_is_numeral(m);
    let s = text::signed_decimal(n);
    let t = text::signed_decimal(m);
    if s == t && n != m {
        if n < 0 && m < 0 {
            skip_same(seq!['-'], text::decimal((-n) as nat), text::decimal((-m) as nat));
            decimals_differ((-n) as nat, (-m) as nat);
        } else if n >= 0 && m >= 0 {
            decimals_differ(n as nat, m as nat);
        } else {
            assert(s[0] == '-' <==> n < 0);
            assert(t[0] == '-' <==> m < 0);
        }
    }
}

proof fn integer_is_numeral(n: int)
    ensures
        numeral(text::signed_decimal(n)),
        text::signed_decimal(n)[0] == '-' <==> n < 0,
{
    let k: nat = if n < 0 {
        (-n) as nat
    } else {
        n as nat
    };
    text::decimals_are_read_back(k, k);
    let s = text::signed_decimal(n);
    assert forall|i: int| 0 <= i < s.len() implies numeric(#[trigger] s[i]) by {
        if n < 0 && i > 0 {
            assert(s[i] == text::decimal(k)[i - 1]);
        }
    }
    assert(text::ascii_digit(text::decimal(k)[0]));
}

proof fn decimals_differ(n: nat, m: nat)
    requires
        n != m,
    ensures
        text::decimal(n) != text::decimal(m),
{
    let max = if n < m {
        m
    } else {
        n
    };
    text::decimals_are_read_back(n, max);
    text::decimals_are_read_back(m, max);
}

}
