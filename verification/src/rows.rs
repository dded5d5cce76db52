//! Tables of rows, each under a name of its own.
use vstd::prelude::*;

verus! {

/// A row of a table: its name, and what stands under it.
pub trait Row: Sized {
    type Body;

    spec fn name(&self) -> Seq<char>;

    spec fn body(&self) -> Self::Body;

    fn key(&self) -> (r: &String)
        ensures
            r@ == self.name(),
    ;
}

/// What a table holds, in the order in which the names came.
pub open spec fn table<R: Row>(rows: Seq<R>) -> Seq<(Seq<char>, R::Body)> {
    Seq::new(rows.len(), |i: int| (rows[i].name(), rows[i].body()))
}

/// What stands under a name.
pub open spec fn find<B>(rows: Seq<(Seq<char>, B)>, key: Seq<char>) -> Option<B>
    decreases rows.len(),
{
    if rows.len() == 0 {
        None
    } else if rows[0].0 == key {
        Some(rows[0].1)
    } else {
        find(rows.drop_first(), key)
    }
}

/// A table in which something new stands under a name: in the place of what stood there, or at
/// the end.
pub open spec fn put<B>(rows: Seq<(Seq<char>, B)>, key: Seq<char>, body: B) -> Seq<(Seq<char>, B)>
    decreases rows.len(),
{
    if rows.len() == 0 {
        seq![(key, body)]
    } else if rows[0].0 == key {
        seq![(key, body)] + rows.drop_first()
    } else {
        seq![rows[0]] + put(rows.drop_first(), key, body)
    }
}

/// A table without a name.
pub open spec fn remove<B>(rows: Seq<(Seq<char>, B)>, key: Seq<char>) -> Seq<(Seq<char>, B)>
    decreases rows.len(),
{
    if rows.len() == 0 {
        seq![]
    } else if rows[0].0 == key {
        rows.drop_first()
    } else {
        seq![rows[0]] + remove(rows.drop_first(), key)
    }
}

/// Whether each name occurs once.
pub open spec fn distinct<B>(rows: Seq<(Seq<char>, B)>) -> bool {
    forall|i: int, j: int|
        0 <= i < j < rows.len() ==> (#[trigger] rows[i]).0 != (#[trigger] rows[j]).0
}

/// The place of a name.
pub open spec fn place<B>(rows: Seq<(Seq<char>, B)>, key: Seq<char>) -> int
    decreases rows.len(),
{
    if rows.len() == 0 || rows[0].0 == key {
        0
    } else {
        1 + place(rows.drop_first(), key)
    }
}

pub proof fn place_of<B>(rows: Seq<(Seq<char>, B)>, key: Seq<char>)
    ensures
        0 <= place(rows, key) <= rows.len(),
        place(rows, key) < rows.len() ==> rows[place(rows, key)].0 == key,
        forall|i: int| 0 <= i < place(rows, key) ==> (#[trigger] rows[i]).0 != key,
        find(rows, key) == (if place(rows, key) < rows.len() {
            Some(rows[place(rows, key)].1)
        } else {
            None
        }),
    decreases rows.len(),
{
    if rows.len() > 0 && rows[0].0 != key {
        place_of(rows.drop_first(), key);
        let rest = rows.drop_first();
        assert forall|i: int| 0 <= i < place(rows, key) implies (#[trigger] rows[i]).0 != key by {
            if i > 0 {
                assert(rest[i - 1] == rows[i]);
            }
        }
    }
}

pub proof fn put_by_place<B>(rows: Seq<(Seq<char>, B)>, key: Seq<char>, body: B)
    ensures
        place(rows, key) < rows.len() ==> put(rows, key, body) == rows.update(
            place(rows, key),
            (key, body),
        ),
        place(rows, key) == rows.len() ==> put(rows, key, body) == rows.push((key, body)),
    decreases rows.len(),
{
    place_of(rows, key);
    if rows.len() == 0 {
        assert(put(rows, key, body) =~= rows.push((key, body)));
    } else if rows[0].0 == key {
        assert(put(rows, key, body) =~= rows.update(0, (key, body)));
    } else {
        let rest = rows.drop_first();
        place_of(rest, key);
        put_by_place(rest, key, body);
        if place(rest, key) < rest.len() {
            assert(put(rows, key, body) =~= rows.update(place(rows, key), (key, body)));
        } else {
            assert(put(rows, key, body) =~= rows.push((key, body)));
        }
    }
}

pub proof fn remove_by_place<B>(rows: Seq<(Seq<char>, B)>, key: Seq<char>)
    ensures
        place(rows, key) < rows.len() ==> remove(rows, key) == rows.remove(place(rows, key)),
        place(rows, key) == rows.len() ==> remove(rows, key) == rows,
    decreases rows.len(),
{
    place_of(rows, key);
    if rows.len() > 0 && rows[0].0 != key {
        let rest = rows.drop_first();
        place_of(rest, key);
        remove_by_place(rest, key);
        if place(rest, key) < rest.len() {
            assert(remove(rows, key) =~= rows.remove(place(rows, key)));
        } else {
            assert(remove(rows, key) =~= rows);
        }
    } else if rows.len() > 0 {
        assert(remove(rows, key) =~= rows.remove(0));
    } else {
        assert(remove(rows, key) =~= rows);
    }
}

/// What was put under a name is found there, and every other name keeps what it had; the table
/// grows only where the name is new.
pub proof fn put_then_find<B>(
    rows: Seq<(Seq<char>, B)>,
    key: Seq<char>,
    body: B,
    other: Seq<char>,
)
    ensures
        find(put(rows, key, body), key) == Some(body),
        other != key ==> find(put(rows, key, body), other) == find(rows, other),
        put(rows, key, body).len() == (if find(rows, key) is Some {
            rows.len()
        } else {
            rows.len() + 1
        }),
        distinct(rows) ==> distinct(put(rows, key, body)),
    decreases rows.len(),
{
    place_of(rows, key);
    put_by_place(rows, key, body);
    let after = put(rows, key, body);
    if rows.len() > 0 {
        let rest = rows.drop_first();
        if rows[0].0 != key {
            put_then_find(rest, key, body, other);
            if distinct(rows) {
                assert(distinct(rest)) by {
                    assert forall|i: int, j: int| 0 <= i < j < rest.len() implies (
                    #[trigger] rest[i]).0 != (#[trigger] rest[j]).0 by {
                        assert(rows[i + 1] == rest[i] && rows[j + 1] == rest[j]);
                    }
                }
            }
            assert(after.drop_first() =~= put(rest, key, body));
        } else {
            assert(after.drop_first() =~= rest);
        }
    } else {
        assert(after.drop_first() =~= rows);
    }
    if distinct(rows) {
        assert forall|i: int, j: int| 0 <= i < j < after.len() implies (#[trigger] after[i]).0 != (
        #[trigger] after[j]).0 by {
            if j < rows.len() {
                assert(after[i].0 == rows[i].0 && after[j].0 == rows[j].0);
            } else {
                assert(after[i] == rows[i]);
            }
        }
    }
}

/// What was removed is not found, and every other name keeps what it had.
pub proof fn remove_then_find<B>(rows: Seq<(Seq<char>, B)>, key: Seq<char>, other: Seq<char>)
    requires
        distinct(rows),
    ensures
        find(remove(rows, key), key) is None,
        other != key ==> find(remove(rows, key), other) == find(rows, other),
        remove(rows, key).len() <= rows.len(),
        distinct(remove(rows, key)),
    decreases rows.len(),
{
    place_of(rows, key);
    remove_by_place(rows, key);
    let after = remove(rows, key);
    if rows.len() > 0 {
        let rest = rows.drop_first();
        assert(distinct(rest)) by {
            assert forall|i: int, j: int| 0 <= i < j < rest.len() implies (#[trigger] rest[i]).0
                != (#[trigger] rest[j]).0 by {
                assert(rows[i + 1] == rest[i] && rows[j + 1] == rest[j]);
            }
        }
        if rows[0].0 != key {
            remove_then_find(rest, key, other);
            assert(after.drop_first() =~= remove(rest, key));
        } else {
            place_of(rest, key);
            if place(rest, key) < rest.len() {
                assert(rows[place(rest, key) + 1] == rest[place(rest, key)]);
            }
        }
    }
    assert forall|i: int, j: int| 0 <= i < j < after.len() implies (#[trigger] after[i]).0 != (
    #[trigger] after[j]).0 by {
        let p = place(rows, key);
        let a = if p < rows.len() && i >= p {
            i + 1
        } else {
            i
        };
        let b = if p < rows.len() && j >= p {
            j + 1
        } else {
            j
        };
        assert(after[i] == rows[a] && after[j] == rows[b]);
    }
}

pub fn position<R: Row>(rows: &Vec<R>, key: &String) -> (r: usize)
    ensures
        r == place(table(rows@), key@),
        r <= rows@.len(),
        match find(table(rows@), key@) {
            Some(b) => r < rows@.len() && rows@[r as int].body() == b && rows@[r as int].name()
                == key@,
            None => r == rows@.len(),
        },
{
    let ghost t = table(rows@);
    let mut i: usize = 0;
    assert(t.skip(0) =~= t);
    proof {
        place_of(t, key@);
    }
    while i < rows.len()
        invariant
            t == table(rows@),
            i <= rows@.len(),
            place(t, key@) == i + place(t.skip(i as int), key@),
            0 <= place(t, key@) <= t.len(),
            place(t, key@) < t.len() ==> t[place(t, key@)].0 == key@,
            find(t, key@) == (if place(t, key@) < t.len() {
                Some(t[place(t, key@)].1)
            } else {
                None
            }),
        decreases rows@.len() - i,
    {
        assert(t.skip(i as int)[0] == (rows@[i as int].name(), rows@[i as int].body()));
        if *rows[i].key() == *key {
            return i;
        }
        assert(t.skip(i as int).drop_first() =~= t.skip(i + 1));
        i += 1;
    }
    assert(t.skip(i as int).len() == 0);
    i
}

/// Puts a row in its place.
pub fn put_row<R: Row>(rows: &mut Vec<R>, row: R)
    ensures
        table(final(rows)@) == put(table(old(rows)@), row.name(), row.body()),
{
    let ghost before = table(rows@);
    let at = position(rows, row.key());
    proof {
        put_by_place(before, row.name(), row.body());
    }
    let ghost entry = (row.name(), row.body());
    if at < rows.len() {
        rows.set(at, row);
        assert(table(rows@) =~= before.update(at as int, entry));
    } else {
        rows.push(row);
        assert(table(rows@) =~= before.push(entry));
    }
}

/// Removes the row under a name.
pub fn remove_row<R: Row>(rows: &mut Vec<R>, key: &String)
    ensures
        table(final(rows)@) == remove(table(old(rows)@), key@),
{
    let ghost before = table(rows@);
    let at = position(rows, key);
    proof {
        remove_by_place(before, key@);
    }
    if at < rows.len() {
        rows.remove(at);
        assert(table(rows@) =~= before.remove(at as int));
    }
}

}
