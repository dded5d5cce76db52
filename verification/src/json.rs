//! JSON values, read and written.
use vstd::prelude::*;
use vstd::utf8;

use crate::exact;
use crate::form;
use crate::ieee;
use crate::ieee::{Real, RealView};
use crate::text;

verus! {

/// A JSON number: its text, and its value in each form that can hold it.
///
/// A number that was made from an integer has no real form.
pub struct Number {
    pub text: String,
    pub unsigned: Option<u64>,
    pub signed: Option<i64>,
    pub real: Option<Real>,
}

#[verifier::ext_equal]
pub struct NumberView {
    pub text: Seq<char>,
    pub unsigned: Option<u64>,
    pub signed: Option<i64>,
    pub real: Option<RealView>,
}

impl Number {
    pub open spec fn view(&self) -> NumberView {
        NumberView {
            text: self.text@,
            unsigned: self.unsigned,
            signed: self.signed,
            real: ieee::optional_view(self.real),
        }
    }
}

impl Clone for Number {
    fn clone(&self) -> (r: Self)
        ensures
            r@ == self@,
    {
        Number {
            text: self.text.clone(),
            unsigned: self.unsigned,
            signed: self.signed,
            real: ieee::clone_optional(&self.real),
        }
    }
}

/// A JSON value. An object keeps its fields in the order in which they are written.
pub enum Json {
    Null,
    Bool(bool),
    Number(Number),
    Text(String),
    List(Vec<Json>),
    Object(Vec<(String, Json)>),
}

pub enum JsonView {
    Null,
    Bool(bool),
    Number(NumberView),
    Text(Seq<char>),
    List(Seq<JsonView>),
    Object(Seq<(Seq<char>, JsonView)>),
}

impl Json {
    pub open spec fn view(&self) -> JsonView
        decreases self,
    {
        match self {
            Json::Null => JsonView::Null,
            Json::Bool(b) => JsonView::Bool(*b),
            Json::Number(n) => JsonView::Number(n@),
            Json::Text(s) => JsonView::Text(s@),
            Json::List(v) => JsonView::List(
                Seq::new(
                    v@.len(),
                    |i: int|
                        if 0 <= i < v@.len() {
                            v@[i].view()
                        } else {
                            JsonView::Null
                        },
                ),
            ),
            Json::Object(v) => JsonView::Object(
                Seq::new(
                    v@.len(),
                    |i: int|
                        if 0 <= i < v@.len() {
                            (v@[i].0@, v@[i].1.view())
                        } else {
                            (Seq::empty(), JsonView::Null)
                        },
                ),
            ),
        }
    }
}

/// The views of a list of values.
pub open spec fn list_view(v: Seq<Json>) -> Seq<JsonView> {
    Seq::new(v.len(), |i: int| v[i]@)
}

/// The views of a list of fields.
pub open spec fn fields_view(v: Seq<(String, Json)>) -> Seq<(Seq<char>, JsonView)> {
    Seq::new(v.len(), |i: int| (v[i].0@, v[i].1@))
}

pub broadcast proof fn view_of_list(v: Vec<Json>)
    ensures
        #[trigger] Json::List(v)@ == JsonView::List(list_view(v@)),
{
    assert(Json::List(v)@->List_0 =~= list_view(v@));
}

pub broadcast proof fn view_of_object(v: Vec<(String, Json)>)
    ensures
        #[trigger] Json::Object(v)@ == JsonView::Object(fields_view(v@)),
{
    assert(Json::Object(v)@->Object_0 =~= fields_view(v@));
}

impl Clone for Json {
    fn clone(&self) -> (r: Self)
        ensures
            r@ == self@,
        decreases self,
    {
        broadcast use {view_of_list, view_of_object};

        match self {
            Json::Null => Json::Null,
            Json::Bool(b) => Json::Bool(*b),
            Json::Number(n) => Json::Number(n.clone()),
            Json::Text(s) => Json::Text(s.clone()),
            Json::List(v) => {
                let mut out: Vec<Json> = Vec::new();
                let mut i: usize = 0;
                while i < v.len()
                    invariant
                        self matches Json::List(w) && w == v,
                        i <= v@.len(),
                        list_view(out@) == list_view(v@).take(i as int),
                    decreases v@.len() - i,
                {
                    let item = v[i].clone();
                    let ghost before = out@;
                    out.push(item);
                    assert(list_view(out@) =~= list_view(before).push(item@));
                    assert(list_view(v@).take(i + 1) =~= list_view(v@).take(i as int).push(
                        v@[i as int]@,
                    ));
                    i += 1;
                }
                assert(list_view(v@).take(i as int) =~= list_view(v@));
                Json::List(out)
            },
            Json::Object(v) => {
                let mut out: Vec<(String, Json)> = Vec::new();
                let mut i: usize = 0;
                while i < v.len()
                    invariant
                        self matches Json::Object(w) && w == v,
                        i <= v@.len(),
                        fields_view(out@) == fields_view(v@).take(i as int),
                    decreases v@.len() - i,
                {
                    let field = (v[i].0.clone(), v[i].1.clone());
                    let ghost before = out@;
                    out.push(field);
                    assert(fields_view(out@) =~= fields_view(before).push((field.0@, field.1@)));
                    assert(fields_view(v@).take(i + 1) =~= fields_view(v@).take(i as int).push(
                        fields_view(v@)[i as int],
                    ));
                    i += 1;
                }
                assert(fields_view(v@).take(i as int) =~= fields_view(v@));
                Json::Object(out)
            },
        }
    }
}

/// The value of the first field with a name.
pub open spec fn lookup(fields: Seq<(Seq<char>, JsonView)>, key: Seq<char>) -> Option<JsonView>
    decreases fields.len(),
{
    if fields.len() == 0 {
        None
    } else if fields[0].0 == key {
        Some(fields[0].1)
    } else {
        lookup(fields.drop_first(), key)
    }
}

/// Whether a value stands under a name: no earlier field has that name.
pub open spec fn holds(fields: Seq<(Seq<char>, JsonView)>, key: Seq<char>, value: JsonView) -> bool {
    exists|k: int|
        0 <= k < fields.len() && #[trigger] fields[k] == (key, value) && forall|m: int|
            0 <= m < k ==> (#[trigger] fields[m]).0 != key
}

/// What is looked up is what stands under the name.
pub proof fn lookups_find_what_is_held(fields: Seq<(Seq<char>, JsonView)>, key: Seq<char>)
    ensures
        forall|v: JsonView|
            #![auto]
            lookup(fields, key) == Some(v) <==> holds(fields, key, v),
        lookup(fields, key) is None <==> forall|k: int|
            0 <= k < fields.len() ==> (#[trigger] fields[k]).0 != key,
    decreases fields.len(),
{
    if fields.len() > 0 {
        let rest = fields.drop_first();
        lookups_find_what_is_held(rest, key);
        assert(forall|k: int| 0 <= k < rest.len() ==> #[trigger] rest[k] == fields[k + 1]);
        if fields[0].0 == key {
            let v = fields[0].1;
            assert(fields[0] == (key, v));
            assert(holds(fields, key, v));
            assert forall|w: JsonView| #[trigger] holds(fields, key, w) implies w == v by {
                let k = choose|k: int|
                    0 <= k < fields.len() && #[trigger] fields[k] == (key, w) && forall|m: int|
                        0 <= m < k ==> (#[trigger] fields[m]).0 != key;
                if k > 0 {
                    assert(fields[0].0 != key);
                }
            }
        } else {
            assert forall|w: JsonView| #[trigger] holds(fields, key, w) <==> holds(rest, key, w) by {
                if holds(fields, key, w) {
                    let k = choose|k: int|
                        0 <= k < fields.len() && #[trigger] fields[k] == (key, w) && forall|m: int|
                            0 <= m < k ==> (#[trigger] fields[m]).0 != key;
                    assert(k > 0);
                    assert(rest[k - 1] == (key, w));
                    assert forall|m: int| 0 <= m < k - 1 implies (#[trigger] rest[m]).0 != key by {
                        assert(rest[m] == fields[m + 1]);
                    }
                }
                if holds(rest, key, w) {
                    let k = choose|k: int|
                        0 <= k < rest.len() && #[trigger] rest[k] == (key, w) && forall|m: int|
                            0 <= m < k ==> (#[trigger] rest[m]).0 != key;
                    assert(fields[k + 1] == (key, w));
                    assert forall|m: int| 0 <= m < k + 1 implies (#[trigger] fields[m]).0 != key by {
                        if m > 0 {
                            assert(rest[m - 1] == fields[m]);
                        }
                    }
                }
            }
            if lookup(rest, key) is None {
                assert forall|k: int| 0 <= k < fields.len() implies (#[trigger] fields[k]).0
                    != key by {
                    if k > 0 {
                        assert(rest[k - 1] == fields[k]);
                    }
                }
            } else {
                let k = choose|k: int| 0 <= k < rest.len() && (#[trigger] rest[k]).0 == key;
                assert(fields[k + 1].0 == key);
            }
        }
    } else {
        assert(forall|w: JsonView| !(#[trigger] holds(fields, key, w)));
    }
}

/// Giving a new name a value adds one field, and giving a known one a value adds none.
pub proof fn put_adds_new_names(
    fields: Seq<(Seq<char>, JsonView)>,
    key: Seq<char>,
    value: JsonView,
)
    requires
        sorted(fields),
    ensures
        put(fields, key, value).len() == fields.len() + (if lookup(fields, key) is None {
            1int
        } else {
            0int
        }),
    decreases fields.len(),
{
    if fields.len() > 0 {
        let rest = fields.drop_first();
        if fields[0].0 != key {
            if text::before(key, fields[0].0) {
                assert forall|k: int| 0 <= k < fields.len() implies (#[trigger] fields[k]).0
                    != key by {
                    text::before_irreflexive(key);
                    if k > 0 && fields[k].0 == key {
                        assert(text::before(fields[0].0, fields[k].0));
                        text::before_transitive(key, fields[0].0, key);
                    }
                }
                lookups_find_what_is_held(fields, key);
            } else {
                assert(sorted(rest)) by {
                    assert forall|i: int, j: int| 0 <= i < j < rest.len() implies text::before(
                        (#[trigger] rest[i]).0,
                        (#[trigger] rest[j]).0,
                    ) by {
                        assert(fields[i + 1] == rest[i]);
                        assert(fields[j + 1] == rest[j]);
                    }
                }
                put_adds_new_names(rest, key, value);
            }
        }
    }
}

/// Giving a name a value leaves it under that name, and what stands under the others.
pub proof fn put_is_held(fields: Seq<(Seq<char>, JsonView)>, key: Seq<char>, value: JsonView)
    requires
        sorted(fields),
    ensures
        sorted(put(fields, key, value)),
        holds(put(fields, key, value), key, value),
        forall|other: Seq<char>, v: JsonView|
            other != key ==> (#[trigger] holds(put(fields, key, value), other, v) == holds(
                fields,
                other,
                v,
            )),
{
    put_keeps_order(fields, key, value);
    put_then_lookup(fields, key, value, key);
    lookups_find_what_is_held(put(fields, key, value), key);
    assert forall|other: Seq<char>, v: JsonView| other != key implies (#[trigger] holds(
        put(fields, key, value),
        other,
        v,
    ) == holds(fields, other, v)) by {
        put_then_lookup(fields, key, value, other);
        lookups_find_what_is_held(put(fields, key, value), other);
        lookups_find_what_is_held(fields, other);
    }
}

/// The value of an object's field; nothing where the value is no object or has no such field.
pub open spec fn field(v: JsonView, key: Seq<char>) -> Option<JsonView> {
    match v {
        JsonView::Object(fields) => lookup(fields, key),
        _ => None,
    }
}

/// The value of the first field with a name.
pub fn find<'a>(v: &'a Vec<(String, Json)>, key: &str) -> (r: Option<&'a Json>)
    ensures
        match r {
            Some(x) => lookup(fields_view(v@), key@) == Some(x@),
            None => lookup(fields_view(v@), key@) is None,
        },
{
    let ghost fields = fields_view(v@);
    let mut i: usize = 0;
    assert(fields.skip(0) =~= fields);
    while i < v.len()
        invariant
            fields == fields_view(v@),
            i <= v@.len(),
            lookup(fields.skip(i as int), key@) == lookup(fields, key@),
        decreases v@.len() - i,
    {
        assert(fields.skip(i as int)[0] == (v@[i as int].0@, v@[i as int].1@));
        if text::same(v[i].0.as_str(), key) {
            return Some(&v[i].1);
        }
        assert(fields.skip(i as int).drop_first() =~= fields.skip(i + 1));
        i += 1;
    }
    None
}

pub fn clone_fields(v: &Vec<(String, Json)>) -> (r: Vec<(String, Json)>)
    ensures
        fields_view(r@) == fields_view(v@),
{
    let mut out: Vec<(String, Json)> = Vec::new();
    let mut i: usize = 0;
    while i < v.len()
        invariant
            i <= v@.len(),
            out@.len() == i,
            forall|k: int|
                0 <= k < i ==> (#[trigger] out@[k]).0@ == v@[k].0@ && out@[k].1@ == v@[k].1@,
        decreases v@.len() - i,
    {
        out.push((v[i].0.clone(), v[i].1.clone()));
        i += 1;
    }
    assert(fields_view(out@) =~= fields_view(v@));
    out
}

impl Json {
    /// The value of a field.
    pub fn get(&self, key: &str) -> (r: Option<&Json>)
        ensures
            match r {
                Some(v) => field(self@, key@) == Some(v@),
                None => field(self@, key@) is None,
            },
    {
        broadcast use {view_of_list, view_of_object};

        match self {
            Json::Object(v) => find(v, key),
            _ => None,
        }
    }

    /// The text of a string value.
    pub fn as_text(&self) -> (r: Option<&String>)
        ensures
            match r {
                Some(s) => self@ == JsonView::Text(s@),
                None => self@ !is Text,
            },
    {
        match self {
            Json::Text(s) => Some(s),
            _ => None,
        }
    }
}

/// The number that stands for an unsigned integer.
pub open spec fn whole_number(n: int) -> NumberView {
    NumberView {
        text: text::signed_decimal(n),
        unsigned: if 0 <= n <= u64::MAX {
            Some(n as u64)
        } else {
            None
        },
        signed: if i64::MIN <= n <= i64::MAX {
            Some(n as i64)
        } else {
            None
        },
        real: None,
    }
}

/// The view of an integer.
pub open spec fn integer(n: int) -> JsonView {
    JsonView::Number(whole_number(n))
}

/// The view of an optional text: `null` where there is none.
pub open spec fn optional_text(s: Option<Seq<char>>) -> JsonView {
    match s {
        Some(t) => JsonView::Text(t),
        None => JsonView::Null,
    }
}

/// An unsigned integer.
pub fn unsigned(n: u64) -> (r: Json)
    ensures
        r@ == integer(n as int),
{
    let signed = if n <= 9223372036854775807 {
        Some(n as i64)
    } else {
        None
    };
    Json::Number(Number { text: text::decimal_text(n), unsigned: Some(n), signed, real: None })
}

/// A signed integer.
pub fn signed(n: i64) -> (r: Json)
    ensures
        r@ == integer(n as int),
{
    let unsigned = if n >= 0 {
        Some(n as u64)
    } else {
        None
    };
    Json::Number(
        Number { text: text::signed_decimal_text(n), unsigned, signed: Some(n), real: None },
    )
}

/// A string.
pub fn string(s: &str) -> (r: Json)
    ensures
        r@ == JsonView::Text(s@),
{
    Json::Text(s.to_owned())
}

/// A string, or `null`.
pub fn optional(s: &Option<String>) -> (r: Json)
    ensures
        r@ == optional_text(
            match s {
                Some(t) => Some(t@),
                None => None,
            },
        ),
{
    match s {
        Some(t) => Json::Text(t.clone()),
        None => Json::Null,
    }
}

/// The view of a real number.
pub open spec fn real_number(r: RealView) -> JsonView {
    JsonView::Number(NumberView { text: r.text, unsigned: None, signed: None, real: Some(r) })
}

/// A real number.
pub fn number(r: &Real) -> (j: Json)
    ensures
        j@ == real_number(r@),
{
    Json::Number(
        Number { text: r.text.clone(), unsigned: None, signed: None, real: Some(r.clone()) },
    )
}

/// Fields with one more at the end, where there is a value for it.
pub open spec fn push_some(
    fields: Seq<(Seq<char>, JsonView)>,
    key: Seq<char>,
    value: Option<JsonView>,
) -> Seq<(Seq<char>, JsonView)> {
    match value {
        Some(v) => fields.push((key, v)),
        None => fields,
    }
}

/// The view of an optional text as a value.
pub open spec fn text_value(s: Option<Seq<char>>) -> Option<JsonView> {
    match s {
        Some(t) => Some(JsonView::Text(t)),
        None => None,
    }
}

/// The view of an optional real number as a value.
pub open spec fn real_value(r: Option<RealView>) -> Option<JsonView> {
    match r {
        Some(x) => Some(real_number(x)),
        None => None,
    }
}

/// A list of texts.
pub open spec fn text_list(v: Seq<Seq<char>>) -> JsonView {
    JsonView::List(Seq::new(v.len(), |i: int| JsonView::Text(v[i])))
}

pub fn strings(v: &Vec<String>) -> (r: Json)
    ensures
        r@ == text_list(text::list_view(v@)),
{
    broadcast use {view_of_list, view_of_object};

    let mut out: Vec<Json> = Vec::new();
    let mut i: usize = 0;
    while i < v.len()
        invariant
            i <= v@.len(),
            out@.len() == i,
            forall|k: int| 0 <= k < i ==> (#[trigger] out@[k])@ == JsonView::Text(v@[k]@),
        decreases v@.len() - i,
    {
        out.push(Json::Text(v[i].clone()));
        i += 1;
    }
    assert(list_view(out@) =~= text_list(text::list_view(v@))->List_0);
    Json::List(out)
}

/// The fields of an object that is being put together.
pub struct Fields {
    entries: Vec<(String, Json)>,
}

impl Fields {
    pub closed spec fn view(&self) -> Seq<(Seq<char>, JsonView)> {
        fields_view(self.entries@)
    }

    pub fn new() -> (r: Self)
        ensures
            r@ == Seq::<(Seq<char>, JsonView)>::empty(),
    {
        let r = Fields { entries: Vec::new() };
        assert(r@ =~= Seq::<(Seq<char>, JsonView)>::empty());
        r
    }

    /// Adds a field at the end.
    pub fn with(self, key: &str, value: Json) -> (r: Self)
        ensures
            r@ == self@.push((key@, value@)),
    {
        let mut entries = self.entries;
        entries.push((key.to_owned(), value));
        let r = Fields { entries };
        assert(r@ =~= self@.push((key@, value@)));
        r
    }

    /// Adds a field at the end where there is a text for it.
    pub fn with_text(self, key: &str, value: &Option<String>) -> (r: Self)
        ensures
            r@ == push_some(self@, key@, text_value(text::optional_view(*value))),
    {
        match value {
            Some(t) => self.with(key, Json::Text(t.clone())),
            None => self,
        }
    }

    /// Adds a field at the end where there is a number for it.
    pub fn with_real(self, key: &str, value: &Option<Real>) -> (r: Self)
        ensures
            r@ == push_some(self@, key@, real_value(ieee::optional_view(*value))),
    {
        match value {
            Some(x) => self.with(key, number(x)),
            None => self,
        }
    }

    pub fn object(self) -> (r: Json)
        ensures
            r@ == JsonView::Object(self@),
    {
        broadcast use {view_of_list, view_of_object};

        Json::Object(self.entries)
    }
}

/// The items of a list that is being put together.
pub struct Items {
    entries: Vec<Json>,
}

impl Items {
    pub closed spec fn view(&self) -> Seq<JsonView> {
        list_view(self.entries@)
    }

    pub fn new() -> (r: Self)
        ensures
            r@ == Seq::<JsonView>::empty(),
    {
        let r = Items { entries: Vec::new() };
        assert(r@ =~= Seq::<JsonView>::empty());
        r
    }

    /// Adds an item at the end.
    pub fn with(self, value: Json) -> (r: Self)
        ensures
            r@ == self@.push(value@),
    {
        let mut entries = self.entries;
        entries.push(value);
        let r = Items { entries };
        assert(r@ =~= self@.push(value@));
        r
    }

    pub fn list(self) -> (r: Json)
        ensures
            r@ == JsonView::List(self@),
    {
        broadcast use {view_of_list, view_of_object};

        Json::List(self.entries)
    }
}

/// The fields of an object in the order of their names, each name once.
pub struct Table {
    entries: Vec<(String, Json)>,
}

/// Whether the names of fields are in strictly rising order.
pub open spec fn sorted(fields: Seq<(Seq<char>, JsonView)>) -> bool {
    forall|i: int, j: int|
        0 <= i < j < fields.len() ==> text::before((#[trigger] fields[i]).0, (#[trigger] fields[j]).0)
}

/// Fields in which one name has a new value, in its place in the order.
pub open spec fn put(
    fields: Seq<(Seq<char>, JsonView)>,
    key: Seq<char>,
    value: JsonView,
) -> Seq<(Seq<char>, JsonView)>
    decreases fields.len(),
{
    if fields.len() == 0 {
        seq![(key, value)]
    } else if fields[0].0 == key {
        seq![(key, value)] + fields.drop_first()
    } else if text::before(key, fields[0].0) {
        seq![(key, value)] + fields
    } else {
        seq![fields[0]] + put(fields.drop_first(), key, value)
    }
}

/// What stands under a name after it was given a value is that value; the other names keep
/// theirs.
pub proof fn put_then_lookup(
    fields: Seq<(Seq<char>, JsonView)>,
    key: Seq<char>,
    value: JsonView,
    other: Seq<char>,
)
    requires
        sorted(fields),
    ensures
        lookup(put(fields, key, value), key) == Some(value),
        other != key ==> lookup(put(fields, key, value), other) == lookup(
            fields,
            other,
        ),
    decreases fields.len(),
{
    let after = put(fields, key, value);
    if fields.len() == 0 {
        assert(after.drop_first() =~= fields);
    } else if fields[0].0 == key {
        assert(after.drop_first() =~= fields.drop_first());
    } else if text::before(key, fields[0].0) {
        assert(after.drop_first() =~= fields);
    } else {
        assert(after.drop_first() =~= put(fields.drop_first(), key, value));
        assert(after[0] == fields[0]);
        assert(sorted(fields.drop_first())) by {
            assert forall|i: int, j: int|
                0 <= i < j < fields.drop_first().len() implies text::before(
                (#[trigger] fields.drop_first()[i]).0,
                (#[trigger] fields.drop_first()[j]).0,
            ) by {
                assert(fields[i + 1] == fields.drop_first()[i]);
                assert(fields[j + 1] == fields.drop_first()[j]);
            }
        }
        put_then_lookup(fields.drop_first(), key, value, other);
    }
}

/// Giving a name a value keeps the names in order, each once, and adds no name but that one.
pub proof fn put_keeps_order(
    fields: Seq<(Seq<char>, JsonView)>,
    key: Seq<char>,
    value: JsonView,
)
    requires
        sorted(fields),
    ensures
        sorted(put(fields, key, value)),
        forall|i: int|
            0 <= i < put(fields, key, value).len() ==> ((#[trigger] put(fields, key, value)[i]).0
                == key || exists|j: int|
                0 <= j < fields.len() && #[trigger] fields[j] == put(fields, key, value)[i]),
    decreases fields.len(),
{
    let after = put(fields, key, value);
    if fields.len() == 0 {
    } else if fields[0].0 == key {
        assert forall|i: int| 0 <= i < after.len() implies ((#[trigger] after[i]).0 == key || exists|
            j: int,
        |
            0 <= j < fields.len() && #[trigger] fields[j] == after[i]) by {
            if i > 0 {
                assert(fields[i] == after[i]);
            }
        }
        assert forall|i: int, j: int| 0 <= i < j < after.len() implies text::before(
            (#[trigger] after[i]).0,
            (#[trigger] after[j]).0,
        ) by {
            assert(fields[i].0 == after[i].0);
            assert(fields[j] == after[j]);
        }
    } else if text::before(key, fields[0].0) {
        assert forall|i: int| 0 <= i < after.len() implies ((#[trigger] after[i]).0 == key || exists|
            j: int,
        |
            0 <= j < fields.len() && #[trigger] fields[j] == after[i]) by {
            if i > 0 {
                assert(fields[i - 1] == after[i]);
            }
        }
        assert forall|i: int, j: int| 0 <= i < j < after.len() implies text::before(
            (#[trigger] after[i]).0,
            (#[trigger] after[j]).0,
        ) by {
            assert(fields[j - 1] == after[j]);
            if i > 0 {
                assert(fields[i - 1] == after[i]);
            } else if j > 1 {
                text::before_transitive(key, fields[0].0, fields[j - 1].0);
            }
        }
    } else {
        let rest = fields.drop_first();
        assert(sorted(rest)) by {
            assert forall|i: int, j: int| 0 <= i < j < rest.len() implies text::before(
                (#[trigger] rest[i]).0,
                (#[trigger] rest[j]).0,
            ) by {
                assert(fields[i + 1] == rest[i]);
                assert(fields[j + 1] == rest[j]);
            }
        }
        put_keeps_order(rest, key, value);
        text::before_total(key, fields[0].0);
        let tail = put(rest, key, value);
        assert forall|i: int| 0 <= i < tail.len() implies text::before(
            fields[0].0,
            (#[trigger] tail[i]).0,
        ) by {
            if tail[i].0 != key {
                let j = choose|j: int| 0 <= j < rest.len() && #[trigger] rest[j] == tail[i];
                assert(fields[j + 1] == rest[j]);
            }
        }
        assert forall|i: int| 0 <= i < after.len() implies ((#[trigger] after[i]).0 == key || exists|
            j: int,
        |
            0 <= j < fields.len() && #[trigger] fields[j] == after[i]) by {
            if i == 0 {
                assert(fields[0] == after[0]);
            } else {
                assert(tail[i - 1] == after[i]);
                if tail[i - 1].0 != key {
                    let j = choose|j: int| 0 <= j < rest.len() && #[trigger] rest[j] == tail[i - 1];
                    assert(fields[j + 1] == rest[j]);
                }
            }
        }
        assert forall|i: int, j: int| 0 <= i < j < after.len() implies text::before(
            (#[trigger] after[i]).0,
            (#[trigger] after[j]).0,
        ) by {
            assert(tail[j - 1] == after[j]);
            if i > 0 {
                assert(tail[i - 1] == after[i]);
            }
        }
    }
}

impl Table {
    pub closed spec fn view(&self) -> Seq<(Seq<char>, JsonView)> {
        fields_view(self.entries@)
    }

    pub fn new() -> (r: Self)
        ensures
            r@ == Seq::<(Seq<char>, JsonView)>::empty(),
            sorted(r@),
    {
        let r = Table { entries: Vec::new() };
        assert(r@ =~= Seq::<(Seq<char>, JsonView)>::empty());
        r
    }

    /// Gives a name a value.
    pub fn insert(&mut self, key: &str, value: Json)
        ensures
            final(self)@ == put(old(self)@, key@, value@),
            sorted(old(self)@) ==> sorted(final(self)@),
    {
        let ghost before = self@;
        proof {
            if sorted(before) {
                put_keeps_order(before, key@, value@);
            }
        }
        let mut i: usize = 0;
        assert(before.skip(0) =~= before);
        assert(before.take(0) + put(before.skip(0), key@, value@) =~= put(before, key@, value@));
        while i < self.entries.len() && !text::same(self.entries[i].0.as_str(), key)
            && !text::sorts_before(key, self.entries[i].0.as_str())
            invariant
                self@ == before,
                i <= self.entries@.len(),
                before.take(i as int) + put(before.skip(i as int), key@, value@) == put(
                    before,
                    key@,
                    value@,
                ),
            decreases self.entries@.len() - i,
        {
            let ghost rest = before.skip(i as int);
            assert(rest[0] == before[i as int]);
            assert(rest.drop_first() =~= before.skip(i + 1));
            assert(before.take(i + 1) + put(before.skip(i + 1), key@, value@) =~= before.take(
                i as int,
            ) + put(rest, key@, value@));
            i += 1;
        }
        let ghost rest = before.skip(i as int);
        if i < self.entries.len() && text::same(self.entries[i].0.as_str(), key) {
            assert(rest[0] == before[i as int]);
            self.entries.set(i, (key.to_owned(), value));
            assert(self@ =~= before.take(i as int) + put(rest, key@, value@));
        } else {
            if i < self.entries.len() {
                assert(rest[0] == before[i as int]);
            }
            self.entries.insert(i, (key.to_owned(), value));
            assert(self@ =~= before.take(i as int) + put(rest, key@, value@));
        }
    }

    /// What stands under a name.
    pub fn get(&self, key: &str) -> (r: Option<&Json>)
        ensures
            match r {
                Some(v) => lookup(self@, key@) == Some(v@),
                None => lookup(self@, key@) is None,
            },
    {
        find(&self.entries, key)
    }

    /// The table in the `Debug` format of a map.
    pub fn debug_text(&self) -> (r: String)
        ensures
            r@ == form::map_form(self@),
    {
        form::map_text(&self.entries)
    }

    /// The table as a JSON object.
    pub fn json(&self) -> (r: Json)
        ensures
            r@ == JsonView::Object(self@),
    {
        broadcast use {view_of_list, view_of_object};

        Json::Object(clone_fields(&self.entries))
    }
}

impl Clone for Table {
    fn clone(&self) -> (r: Self)
        ensures
            r@ == self@,
    {
        Table { entries: clone_fields(&self.entries) }
    }
}

/// A character as it stands between the quotes of a JSON string.
pub open spec fn escaped(c: char) -> Seq<char> {
    let n = c as u32;
    if c == '"' {
        seq!['\\', '"']
    } else if c == '\\' {
        seq!['\\', '\\']
    } else if n == 8 {
        seq!['\\', 'b']
    } else if n == 9 {
        seq!['\\', 't']
    } else if n == 10 {
        seq!['\\', 'n']
    } else if n == 12 {
        seq!['\\', 'f']
    } else if n == 13 {
        seq!['\\', 'r']
    } else if n < 0x20 {
        seq!['\\', 'u', '0', '0', text::digit((n / 16) as nat), text::digit((n % 16) as nat)]
    } else {
        seq![c]
    }
}

pub open spec fn escaped_all(s: Seq<char>) -> Seq<char>
    decreases s.len(),
{
    if s.len() == 0 {
        seq![]
    } else {
        escaped_all(s.drop_last()) + escaped(s.last())
    }
}

/// A text as a JSON string.
pub open spec fn quoted(s: Seq<char>) -> Seq<char> {
    seq!['"'] + escaped_all(s) + seq!['"']
}

/// Calls `serde_json::to_string` on a string: the text in quotes, with quotes, backslashes and
/// the control characters below U+0020 escaped, and every other character as it is.
#[verifier::external_body]
pub(crate) fn quote(s: &str) -> (r: String)
    ensures
        r@ == quoted(s@),
{
    serde_json::to_string(s).expect("a string is always serialisable")
}

/// The compact JSON text of a value.
pub open spec fn json_text(v: JsonView) -> Seq<char>
    decreases v,
{
    match v {
        JsonView::Null => "null"@,
        JsonView::Bool(b) => if b {
            "true"@
        } else {
            "false"@
        },
        JsonView::Number(n) => n.text,
        JsonView::Text(s) => quoted(s),
        JsonView::List(items) => seq!['['] + items_text(items) + seq![']'],
        JsonView::Object(fields) => seq!['{'] + fields_text(fields) + seq!['}'],
    }
}

/// Values with commas between them.
pub open spec fn items_text(items: Seq<JsonView>) -> Seq<char>
    decreases items,
{
    if items.len() == 0 {
        seq![]
    } else if items.len() == 1 {
        json_text(items[0])
    } else {
        items_text(items.drop_last()) + seq![','] + json_text(items.last())
    }
}

/// Fields with commas between them.
pub open spec fn fields_text(fields: Seq<(Seq<char>, JsonView)>) -> Seq<char>
    decreases fields,
{
    if fields.len() == 0 {
        seq![]
    } else if fields.len() == 1 {
        quoted(fields[0].0) + seq![':'] + json_text(fields[0].1)
    } else {
        fields_text(fields.drop_last()) + seq![','] + quoted(fields.last().0) + seq![':']
            + json_text(fields.last().1)
    }
}

impl Json {
    /// Writes the compact JSON text at the end of `out`.
    fn write(&self, out: &mut String)
        ensures
            final(out)@ == old(out)@ + json_text(self@),
        decreases self,
    {
        broadcast use {view_of_list, view_of_object};

        match self {
            Json::Null => out.append("null"),
            Json::Bool(b) => if *b {
                out.append("true")
            } else {
                out.append("false")
            },
            Json::Number(n) => out.append(n.text.as_str()),
            Json::Text(s) => {
                let q = quote(s.as_str());
                out.append(q.as_str());
            },
            Json::List(v) => {
                let ghost start = out@;
                out.push('[');
                let mut i: usize = 0;
                while i < v.len()
                    invariant
                        self matches Json::List(w) && w == v,
                        i <= v@.len(),
                        out@ == start + seq!['['] + items_text(list_view(v@).take(i as int)),
                    decreases v@.len() - i,
                {
                    let ghost done = list_view(v@).take(i as int);
                    let ghost now = list_view(v@).take(i + 1);
                    assert(now.drop_last() =~= done);
                    assert(now.last() == v@[i as int]@);
                    if i > 0 {
                        out.push(',');
                    } else {
                        assert(done =~= seq![]);
                    }
                    v[i].write(out);
                    assert(out@ =~= start + seq!['['] + items_text(now));
                    i += 1;
                }
                out.push(']');
                assert(list_view(v@).take(i as int) =~= list_view(v@));
                assert(out@ =~= start + json_text(self@));
            },
            Json::Object(v) => {
                let ghost start = out@;
                out.push('{');
                let mut i: usize = 0;
                while i < v.len()
                    invariant
                        self matches Json::Object(w) && w == v,
                        i <= v@.len(),
                        out@ == start + seq!['{'] + fields_text(fields_view(v@).take(i as int)),
                    decreases v@.len() - i,
                {
                    let ghost done = fields_view(v@).take(i as int);
                    let ghost now = fields_view(v@).take(i + 1);
                    assert(now.drop_last() =~= done);
                    assert(now.last() == (v@[i as int].0@, v@[i as int].1@));
                    if i > 0 {
                        out.push(',');
                    } else {
                        assert(done =~= seq![]);
                    }
                    let q = quote(v[i].0.as_str());
                    out.append(q.as_str());
                    out.push(':');
                    v[i].1.write(out);
                    assert(out@ =~= start + seq!['{'] + fields_text(now));
                    i += 1;
                }
                out.push('}');
                assert(fields_view(v@).take(i as int) =~= fields_view(v@));
                assert(out@ =~= start + json_text(self@));
            },
        }
    }

    /// The compact JSON text.
    pub fn text(&self) -> (r: String)
        ensures
            r@ == json_text(self@),
    {
        let mut out = String::new();
        self.write(&mut out);
        assert(out@ =~= json_text(self@));
        out
    }
}

/// The text of a value over several lines: every item and field has a line of its own, two blanks
/// further in than the line that its list or object begins on. `pad` stands before that line.
pub open spec fn spread_text(v: JsonView, pad: Seq<char>) -> Seq<char>
    decreases v,
{
    match v {
        JsonView::List(items) => if items.len() == 0 {
            seq!['[', ']']
        } else {
            seq!['['] + spread_items(items, pad + "  "@) + seq!['\n'] + pad + seq![']']
        },
        JsonView::Object(fields) => if fields.len() == 0 {
            seq!['{', '}']
        } else {
            seq!['{'] + spread_fields(fields, pad + "  "@) + seq!['\n'] + pad + seq!['}']
        },
        _ => json_text(v),
    }
}

/// Values with commas between them, each on a line of its own.
pub open spec fn spread_items(items: Seq<JsonView>, pad: Seq<char>) -> Seq<char>
    decreases items,
{
    if items.len() == 0 {
        seq![]
    } else {
        let before = spread_items(items.drop_last(), pad);
        (if items.len() == 1 {
            before
        } else {
            before.push(',')
        }) + seq!['\n'] + pad + spread_text(items.last(), pad)
    }
}

/// Fields with commas between them, each on a line of its own.
pub open spec fn spread_fields(fields: Seq<(Seq<char>, JsonView)>, pad: Seq<char>) -> Seq<char>
    decreases fields,
{
    if fields.len() == 0 {
        seq![]
    } else {
        let before = spread_fields(fields.drop_last(), pad);
        (if fields.len() == 1 {
            before
        } else {
            before.push(',')
        }) + seq!['\n'] + pad + quoted(fields.last().0) + seq![':', ' '] + spread_text(
            fields.last().1,
            pad,
        )
    }
}

/// The text of a value over several lines.
pub open spec fn pretty_json(v: JsonView) -> Seq<char> {
    spread_text(v, seq![])
}

impl Json {
    /// Writes the text over several lines at the end of `out`.
    fn spread(&self, out: &mut String, pad: &str)
        ensures
            final(out)@ == old(out)@ + spread_text(self@, pad@),
        decreases self,
    {
        broadcast use {view_of_list, view_of_object};

        match self {
            Json::List(v) => {
                let ghost start = out@;
                let ghost all = list_view(v@);
                if v.len() == 0 {
                    out.push('[');
                    out.push(']');
                    assert(out@ =~= start + spread_text(self@, pad@));
                    return ;
                }
                let mut deeper = pad.to_owned();
                deeper.append("  ");
                out.push('[');
                let mut i: usize = 0;
                assert(all.take(0) =~= seq![]);
                assert(out@ =~= start + seq!['['] + spread_items(all.take(0), deeper@));
                while i < v.len()
                    invariant
                        self matches Json::List(w) && w == v,
                        all == list_view(v@),
                        i <= v@.len(),
                        out@ == start + seq!['['] + spread_items(all.take(i as int), deeper@),
                    decreases v@.len() - i,
                {
                    let ghost now = all.take(i + 1);
                    assert(now.drop_last() =~= all.take(i as int));
                    assert(now.last() == v@[i as int]@);
                    if i > 0 {
                        out.push(',');
                    }
                    out.push('\n');
                    out.append(deeper.as_str());
                    v[i].spread(out, deeper.as_str());
                    assert(out@ =~= start + seq!['['] + spread_items(now, deeper@));
                    i += 1;
                }
                assert(all.take(i as int) =~= all);
                out.push('\n');
                out.append(pad);
                out.push(']');
                assert(out@ =~= start + spread_text(self@, pad@));
            },
            Json::Object(v) => {
                let ghost start = out@;
                let ghost all = fields_view(v@);
                if v.len() == 0 {
                    out.push('{');
                    out.push('}');
                    assert(out@ =~= start + spread_text(self@, pad@));
                    return ;
                }
                let mut deeper = pad.to_owned();
                deeper.append("  ");
                out.push('{');
                let mut i: usize = 0;
                assert(all.take(0) =~= seq![]);
                assert(out@ =~= start + seq!['{'] + spread_fields(all.take(0), deeper@));
                while i < v.len()
                    invariant
                        self matches Json::Object(w) && w == v,
                        all == fields_view(v@),
                        i <= v@.len(),
                        out@ == start + seq!['{'] + spread_fields(all.take(i as int), deeper@),
                    decreases v@.len() - i,
                {
                    let ghost now = all.take(i + 1);
                    assert(now.drop_last() =~= all.take(i as int));
                    assert(now.last() == (v@[i as int].0@, v@[i as int].1@));
                    if i > 0 {
                        out.push(',');
                    }
                    out.push('\n');
                    out.append(deeper.as_str());
                    let q = quote(v[i].0.as_str());
                    out.append(q.as_str());
                    out.push(':');
                    out.push(' ');
                    v[i].1.spread(out, deeper.as_str());
                    assert(out@ =~= start + seq!['{'] + spread_fields(now, deeper@));
                    i += 1;
                }
                assert(all.take(i as int) =~= all);
                out.push('\n');
                out.append(pad);
                out.push('}');
                assert(out@ =~= start + spread_text(self@, pad@));
            },
            _ => self.write(out),
        }
    }

    /// The text over several lines.
    pub fn pretty_text(&self) -> (r: String)
        ensures
            r@ == pretty_json(self@),
    {
        let mut out = String::new();
        self.spread(&mut out, "");
        proof {
            reveal_strlit("");
            assert(""@ =~= seq![]);
        }
        assert(out@ =~= pretty_json(self@));
        out
    }
}

/// `serde_json::Value`, a JSON value as it was read; nothing is known of it but what it holds, by
/// `value_view`.
#[verifier::external_type_specification]
#[verifier::external_body]
pub struct ExValue(serde_json::Value);

/// What a parsed value holds.
pub uninterp spec fn value_view(v: serde_json::Value) -> JsonView;

/// What `serde_json::from_slice` makes of bytes, as a value without a schema.
pub uninterp spec fn parsed(bytes: Seq<u8>) -> Option<JsonView>;

/// Calls `serde_json::from_slice`: the value that the bytes denote, or nothing where they are no
/// JSON text.
#[verifier::external_body]
fn value_from_slice(bytes: &[u8]) -> (r: Option<serde_json::Value>)
    ensures
        match r {
            Some(v) => parsed(bytes@) == Some(value_view(v)),
            None => parsed(bytes@) is None,
        },
{
    serde_json::from_slice(bytes).ok()
}

/// One level of a parsed value.
pub enum Node {
    Null,
    Bool(bool),
    Number(Number),
    Text(String),
    List(Vec<serde_json::Value>),
    Object(Vec<(String, serde_json::Value)>),
}

pub open spec fn node_view(n: Node) -> JsonView {
    match n {
        Node::Null => JsonView::Null,
        Node::Bool(b) => JsonView::Bool(b),
        Node::Number(n) => JsonView::Number(n@),
        Node::Text(s) => JsonView::Text(s@),
        Node::List(v) => JsonView::List(Seq::new(v@.len(), |i: int| value_view(v@[i]))),
        Node::Object(v) => JsonView::Object(
            Seq::new(v@.len(), |i: int| (v@[i].0@, value_view(v@[i].1))),
        ),
    }
}

/// Takes a `serde_json::Value` apart by its variant: the parts hold what the value held. A number
/// gives its text (`Number::to_string`), which is made of digits, signs, a point and the mark of an
/// exponent, its value by `as_u64`, `as_i64` and `as_f64`, and for the last also the text of that
/// number alone.
#[verifier::external_body]
fn take_apart(value: serde_json::Value) -> (r: Node)
    ensures
        node_view(r) == value_view(value),
        r matches Node::Number(n) ==> exact::numeral(n.text@),
{
    match value {
        serde_json::Value::Null => Node::Null,
        serde_json::Value::Bool(b) => Node::Bool(b),
        serde_json::Value::Number(n) => Node::Number(
            Number { text: n.to_string(), unsigned: n.as_u64(), signed: n.as_i64(), real: n.as_f64().map(|r| Real { bits: r.to_bits(), text: serde_json::Value::from(r).to_string() }) },
        ),
        serde_json::Value::String(s) => Node::Text(s),
        serde_json::Value::Array(v) => Node::List(v),
        serde_json::Value::Object(m) => Node::Object(m.into_iter().collect()),
    }
}

fn read_value(value: serde_json::Value) -> (r: Json)
    ensures
        r@ == value_view(value),
        exact::written(r@),
    decreases value_view(value),
{
    broadcast use {view_of_list, view_of_object};

    let ghost whole = value_view(value);
    match take_apart(value) {
        Node::Null => Json::Null,
        Node::Bool(b) => Json::Bool(b),
        Node::Number(n) => Json::Number(n),
        Node::Text(s) => Json::Text(s),
        Node::List(v) => {
            let mut rest = v;
            let mut out: Vec<Json> = Vec::new();
            let ghost all = whole->List_0;
            while rest.len() > 0
                invariant
                    whole == JsonView::List(all),
                    whole == value_view(value),
                    rest@.len() + out@.len() == all.len(),
                    forall|i: int|
                        0 <= i < rest@.len() ==> value_view(#[trigger] rest@[i]) == all[i],
                    forall|i: int|
                        0 <= i < out@.len() ==> (#[trigger] out@[i])@ == all[all.len() - 1 - i]
                            && exact::written(out@[i]@),
                decreases rest@.len(),
            {
                let last = rest.pop().unwrap();
                assert(value_view(last) == all[rest@.len() as int]);
                assert(decreases_to!(whole => whole->List_0));
                assert(decreases_to!(all => all[rest@.len() as int]));
                out.push(read_value(last));
            }
            let mut items: Vec<Json> = Vec::new();
            while out.len() > 0
                invariant
                    whole == JsonView::List(all),
                    out@.len() + items@.len() == all.len(),
                    forall|i: int|
                        0 <= i < out@.len() ==> (#[trigger] out@[i])@ == all[all.len() - 1 - i]
                            && exact::written(out@[i]@),
                    forall|i: int|
                        0 <= i < items@.len() ==> (#[trigger] items@[i])@ == all[i]
                            && exact::written(items@[i]@),
                decreases out@.len(),
            {
                items.push(out.pop().unwrap());
            }
            assert(list_view(items@) =~= all);
            assert forall|i: int| 0 <= i < all.len() implies exact::written(#[trigger] all[i]) by {
                assert(items@[i]@ == all[i]);
            }
            Json::List(items)
        },
        Node::Object(v) => {
            let mut rest = v;
            let mut out: Vec<(String, Json)> = Vec::new();
            let ghost all = whole->Object_0;
            while rest.len() > 0
                invariant
                    whole == JsonView::Object(all),
                    whole == value_view(value),
                    rest@.len() + out@.len() == all.len(),
                    forall|i: int|
                        0 <= i < rest@.len() ==> ((#[trigger] rest@[i]).0@, value_view(rest@[i].1))
                            == all[i],
                    forall|i: int|
                        0 <= i < out@.len() ==> ((#[trigger] out@[i]).0@, out@[i].1@) == all[
                        all.len() - 1 - i] && exact::written(out@[i].1@),
                decreases rest@.len(),
            {
                let last = rest.pop().unwrap();
                assert((last.0@, value_view(last.1)) == all[rest@.len() as int]);
                assert(decreases_to!(whole => whole->Object_0));
                assert(decreases_to!(all => all[rest@.len() as int]));
                assert(decreases_to!(all[rest@.len() as int] => all[rest@.len() as int].1));
                out.push((last.0, read_value(last.1)));
            }
            let mut fields: Vec<(String, Json)> = Vec::new();
            while out.len() > 0
                invariant
                    whole == JsonView::Object(all),
                    out@.len() + fields@.len() == all.len(),
                    forall|i: int|
                        0 <= i < out@.len() ==> ((#[trigger] out@[i]).0@, out@[i].1@) == all[
                        all.len() - 1 - i] && exact::written(out@[i].1@),
                    forall|i: int|
                        0 <= i < fields@.len() ==> ((#[trigger] fields@[i]).0@, fields@[i].1@)
                            == all[i] && exact::written(fields@[i].1@),
                decreases out@.len(),
            {
                fields.push(out.pop().unwrap());
            }
            assert(fields_view(fields@) =~= all);
            assert forall|i: int| 0 <= i < all.len() implies exact::written(
                (#[trigger] all[i]).1,
            ) by {
                assert(fields@[i].1@ == all[i].1);
            }
            Json::Object(fields)
        },
    }
}

/// Reads a JSON text.
pub fn parse(bytes: &[u8]) -> (r: Option<Json>)
    ensures
        match r {
            Some(v) => parsed(bytes@) == Some(v@) && exact::written(v@),
            None => parsed(bytes@) is None,
        },
{
    match value_from_slice(bytes) {
        Some(v) => Some(read_value(v)),
        None => None,
    }
}

/// What the UTF-8 form of a text denotes.
pub open spec fn parsed_text(s: Seq<char>) -> Option<JsonView> {
    parsed(utf8::encode_utf8(s))
}

}
