//! What a framer makes of bytes: lines that end at their line feeds, are cut where they are too
//! long, and are marked where they belong to a private key.
use vstd::prelude::*;

use crate::events;
use crate::events::{FramerView, LineView};
use crate::pattern;
use crate::text;

verus! {

/// Whether a framer holds no more of a line than it may.
pub open spec fn bounded(f: FramerView) -> bool {
    f.buffer.len() <= 64 * 1024
}

/// What is held of a line once it has one byte more.
pub open spec fn longer(f: FramerView, b: u8) -> Seq<u8> {
    if f.buffer.len() < 64 * 1024 {
        f.buffer.push(b)
    } else {
        f.buffer
    }
}

/// Each byte does its part, and with all its pieces a whole input does: a line feed completes one
/// line, the bytes since the line feed before it, and any other byte completes none. Of a line that
/// is too long the first bytes are kept, and only such a line is marked as cut.
pub proof fn lines_end_at_their_feeds(f: FramerView, b: u8)
    requires
        bounded(f),
    ensures
        ({
            let (g, lines) = f.pushed(seq![b]);
            let cut = f.truncated || f.buffer.len() == 64 * 1024;
            &&& b == 10 ==> {
                &&& lines.len() == 1
                &&& lines[0].bytes == longer(f, b) && lines[0].truncated == cut
                &&& g.buffer.len() == 0 && !g.truncated
            }
            &&& b != 10 ==> {
                &&& lines.len() == 0
                &&& g.buffer == longer(f, b) && g.truncated == cut
            }
        }),
        f.pushed(seq![]) == (f, Seq::<LineView>::empty()),
{
    let one = seq![b];
    assert(one.drop_first() =~= seq![]);
    assert(events::through_feed(one.drop_first()) == 0);
    assert(events::through_feed(one) == 1);
    assert(one.take(1) =~= one);
    assert(one.skip(1) =~= seq![]);
    let next = f.step(one).0;
    assert(next.pushed(one.skip(1)) == (next, Seq::<LineView>::empty()));
    assert(one.take(0) =~= seq![]);
    assert(f.buffer + one =~= f.buffer.push(b));
    assert(f.buffer + Seq::<u8>::empty() =~= f.buffer);
    let lines = f.step(one).1;
    assert(lines + Seq::<LineView>::empty() =~= lines);
}

/// What ends without a line feed is a line as well, unless there is nothing of it.
pub proof fn the_last_line_is_kept(f: FramerView)
    ensures
        f.line() is None <==> f.buffer.len() == 0 && !f.truncated,
        f.line() matches Some(line) ==> line.bytes == f.buffer && line.truncated == f.truncated
            && line.private == f.private,
        f.cleared().buffer.len() == 0 && !f.cleared().truncated,
        f.cleared().in_key == f.in_key,
{
}

/// The marks of private keys in the bytes of a line, and in what was seen of it before.
pub open spec fn marks(f: FramerView, line: Seq<u8>) -> Seq<Seq<char>> {
    pattern::captured(pattern::PEM@, f.marker + text::lossy(line))
}

/// Lines of a private key are marked: one that has a mark, and every one behind a mark that begins
/// a key, until one that ends it. No other line is marked, and behind the line with the last mark
/// a key goes on exactly where that mark begins one.
pub proof fn lines_of_private_keys_are_marked(f: FramerView, line: Seq<u8>)
    requires
        bounded(f),
        line.len() > 0,
        line.last() == 10,
        f.in_key ==> f.private,
    ensures
        ({
            let (g, lines) = f.step(line);
            let seen = marks(f, line);
            &&& lines.len() == 1
            &&& lines[0].private <==> f.private || seen.len() > 0
            &&& g.in_key <==> (if seen.len() > 0 {
                seen[seen.len() - 1] == "BEGIN"@
            } else {
                f.in_key
            })
            &&& g.private == g.in_key
            &&& g.marker == Seq::<char>::empty()
        }),
{
    let after = f.scanned(line);
    assert(after.buffer.len() > 0 || after.truncated) by {
        if line.len() <= f.room() {
            assert(line.take(line.len() as int) =~= line);
        } else if f.room() == 0 {
            assert(f.buffer.len() > 0);
        }
    }
}

/// While a line is not at its end, no more than its last 128 characters are looked at again for
/// marks, and all of them are.
pub proof fn marks_across_pieces_are_seen(f: FramerView, piece: Seq<u8>)
    requires
        piece.len() > 0,
        piece.last() != 10,
    ensures
        ({
            let (g, lines) = f.step(piece);
            let scan = f.marker + text::lossy(piece);
            let kept: int = if scan.len() < 128 {
                scan.len() as int
            } else {
                128
            };
            &&& lines.len() == 0
            &&& g.marker == scan.subrange(scan.len() - kept, scan.len() as int)
            &&& g.private <==> f.private || f.in_key || marks(f, piece).len() > 0
            &&& g.in_key <==> (if marks(f, piece).len() > 0 {
                marks(f, piece)[marks(f, piece).len() - 1] == "BEGIN"@
            } else {
                f.in_key
            })
        }),
{
    let scan = f.marker + text::lossy(piece);
    if scan.len() <= 128 {
        assert(scan.subrange(0, scan.len() as int) =~= scan);
    } else {
        assert(scan.skip(scan.len() - 128) =~= scan.subrange(
            scan.len() - 128,
            scan.len() as int,
        ));
    }
}

}
