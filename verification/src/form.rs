//! How values look in the `Debug` format: every value under the name of its kind.
use vstd::prelude::*;

use crate::json;
use crate::json::{Json, JsonView};
use crate::text;

verus! {

/// A value in the `Debug` format.
pub open spec fn value_form(v: JsonView) -> Seq<char>
    decreases v,
{
    match v {
        JsonView::Null => "Null"@,
        JsonView::Bool(b) => if b {
            "Bool(true)"@
        } else {
            "Bool(false)"@
        },
        JsonView::Number(n) => "Number("@ + n.text + ")"@,
        JsonView::Text(s) => "String("@ + text::debugged(s) + ")"@,
        JsonView::List(items) => "Array ["@ + items_form(items) + "]"@,
        JsonView::Object(fields) => "Object {"@ + fields_form(fields) + "}"@,
    }
}

/// Values in the `Debug` format, with commas between them.
pub open spec fn items_form(items: Seq<JsonView>) -> Seq<char>
    decreases items,
{
    if items.len() == 0 {
        seq![]
    } else if items.len() == 1 {
        value_form(items[0])
    } else {
        items_form(items.drop_last()) + ", "@ + value_form(items.last())
    }
}

/// Fields in the `Debug` format, with commas between them.
pub open spec fn fields_form(fields: Seq<(Seq<char>, JsonView)>) -> Seq<char>
    decreases fields,
{
    if fields.len() == 0 {
        seq![]
    } else if fields.len() == 1 {
        text::debugged(fields[0].0) + ": "@ + value_form(fields[0].1)
    } else {
        fields_form(fields.drop_last()) + ", "@ + text::debugged(fields.last().0) + ": "@
            + value_form(fields.last().1)
    }
}

/// A map of names to values in the `Debug` format.
pub open spec fn map_form(fields: Seq<(Seq<char>, JsonView)>) -> Seq<char> {
    "{"@ + fields_form(fields) + "}"@
}

/// Writes a value in the `Debug` format at the end of `out`.
fn write_value(v: &Json, out: &mut String)
    ensures
        final(out)@ == old(out)@ + value_form(v@),
    decreases v,
{
    broadcast use {json::view_of_list, json::view_of_object};

    let ghost start = out@;
    match v {
        Json::Null => out.append("Null"),
        Json::Bool(b) => if *b {
            out.append("Bool(true)")
        } else {
            out.append("Bool(false)")
        },
        Json::Number(n) => {
            out.append("Number(");
            out.append(n.text.as_str());
            out.append(")");
            assert(out@ =~= start + value_form(v@));
        },
        Json::Text(s) => {
            out.append("String(");
            let q = text::debug(s.as_str());
            out.append(q.as_str());
            out.append(")");
            assert(out@ =~= start + value_form(v@));
        },
        Json::List(items) => {
            out.append("Array [");
            let ghost all = json::list_view(items@);
            let ghost head = out@;
            let mut i: usize = 0;
            while i < items.len()
                invariant
                    v matches Json::List(w) && w == items,
                    all == json::list_view(items@),
                    i <= items@.len(),
                    out@ == head + items_form(all.take(i as int)),
                decreases items@.len() - i,
            {
                let ghost done = all.take(i as int);
                let ghost now = all.take(i + 1);
                assert(now.drop_last() =~= done);
                assert(now.last() == items@[i as int]@);
                if i > 0 {
                    out.append(", ");
                } else {
                    assert(done =~= seq![]);
                }
                write_value(&items[i], out);
                assert(out@ =~= head + items_form(now));
                i += 1;
            }
            out.append("]");
            assert(all.take(i as int) =~= all);
            assert(out@ =~= start + value_form(v@));
        },
        Json::Object(fields) => {
            out.append("Object {");
            let ghost all = json::fields_view(fields@);
            let ghost head = out@;
            let mut i: usize = 0;
            while i < fields.len()
                invariant
                    v matches Json::Object(w) && w == fields,
                    all == json::fields_view(fields@),
                    i <= fields@.len(),
                    out@ == head + fields_form(all.take(i as int)),
                decreases fields@.len() - i,
            {
                let ghost done = all.take(i as int);
                let ghost now = all.take(i + 1);
                assert(now.drop_last() =~= done);
                assert(now.last() == (fields@[i as int].0@, fields@[i as int].1@));
                if i > 0 {
                    out.append(", ");
                } else {
                    assert(done =~= seq![]);
                }
                let q = text::debug(fields[i].0.as_str());
                out.append(q.as_str());
                out.append(": ");
                write_value(&fields[i].1, out);
                assert(out@ =~= head + fields_form(now));
                i += 1;
            }
            out.append("}");
            assert(all.take(i as int) =~= all);
            assert(out@ =~= start + value_form(v@));
        },
    }
}

/// A map of names to values in the `Debug` format.
pub fn map_text(fields: &Vec<(String, Json)>) -> (out: String)
    ensures
        out@ == map_form(json::fields_view(fields@)),
{
    let mut out = "{".to_owned();
    let ghost all = json::fields_view(fields@);
    let ghost head = out@;
    let mut i: usize = 0;
    assert(all.take(0) =~= seq![]);
    assert(out@ =~= head + fields_form(all.take(0)));
    while i < fields.len()
        invariant
            all == json::fields_view(fields@),
            i <= fields@.len(),
            out@ == head + fields_form(all.take(i as int)),
        decreases fields@.len() - i,
    {
        let ghost done = all.take(i as int);
        let ghost now = all.take(i + 1);
        assert(now.drop_last() =~= done);
        assert(now.last() == (fields@[i as int].0@, fields@[i as int].1@));
        if i > 0 {
            out.append(", ");
        } else {
            assert(done =~= seq![]);
        }
        let q = text::debug(fields[i].0.as_str());
        out.append(q.as_str());
        out.append(": ");
        write_value(&fields[i].1, &mut out);
        assert(out@ =~= head + fields_form(now));
        i += 1;
    }
    out.append("}");
    assert(all.take(i as int) =~= all);
    assert(out@ =~= map_form(all));
    out
}

}
