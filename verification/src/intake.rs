//! What becomes of a finite input: it is read to its end, and whatever is not read is on record.
use vstd::prelude::*;

use crate::events::EventView;
use crate::grouping;
use crate::report::MetricsView;
use crate::runtime;
use crate::runtime::{Arrival, IngestView, Shortfall};

verus! {

/// Reading goes on exactly while bytes come and the limit is not reached. Where it ends, that is put
/// on record unless the input was at its end: as a failure where a read failed, and otherwise as a
/// limit. Past the limit one more byte is enough to tell that there was more.
pub proof fn reading_ends_for_a_reason(i: IngestView, came: Arrival)
    ensures
        ({
            let full = i.read == i.max_bytes;
            let more = came matches Arrival::Count(n) && n > 0;
            let why = i.shortfall(came);
            &&& i.goes_on(came) is Some <==> more && !full
            &&& i.goes_on(came) matches Some(n) ==> came == Arrival::Count(n)
            &&& why == Some(Shortfall::Limit) <==> full && (more || came is Failed)
            &&& why == Some(Shortfall::Stopped) <==> !full && came is Cancelled
            &&& why == Some(Shortfall::ReadFailed) <==> !full && came is Failed
            &&& why != Some(Shortfall::Queued)
            &&& came == Arrival::Count(0) ==> why is None && i.goes_on(came) is None
            &&& i.goes_on(came) is Some ==> why is None
        }),
        forall|s: Shortfall| #[trigger]
            runtime::shortfall_status(s) == if s == Shortfall::ReadFailed {
                "error"@
            } else {
                "limited"@
            },
{
}

/// Bytes that are taken in count as read, and only they.
pub proof fn bytes_count_as_read(i: IngestView, bytes: Seq<u8>)
    requires
        i.read + bytes.len() <= i.max_bytes,
    ensures
        ({
            let t = i.taken(bytes).0;
            &&& t.read == i.read + bytes.len()
            &&& t.max_bytes == i.max_bytes && t.source == i.source
            &&& t.framer == i.framer.pushed(bytes).0
            &&& i.taken(bytes).1 == i.parser.fed_all(i.framer.pushed(bytes).1).1
        }),
{
}

/// The last line of an input is kept where there is anything of it, with its bytes; and it counts as
/// cut short where it was, where the limit was reached, and where the reading was stopped.
pub proof fn the_last_line_counts_as_cut(i: IngestView, stopped: bool)
    ensures
        ({
            let line = i.last_line(stopped);
            &&& line is Some <==> i.framer.buffer.len() > 0 || i.framer.truncated
            &&& line matches Some(l) ==> {
                &&& l.bytes == i.framer.buffer
                &&& l.private == i.framer.private
                &&& l.truncated <==> i.framer.truncated || i.read == i.max_bytes || stopped
            }
        }),
{
}

/// What the end of an input leaves: the event that its last line completes, if it completes one, and
/// the event that is still open. Where the reading was stopped, that last one counts as cut short,
/// and it belongs to the group of such an event; nothing else of it changes.
pub proof fn the_end_of_an_input_leaves_its_events(i: IngestView, stopped: bool)
    ensures
        ({
            let rest = i.rest(stopped);
            let behind = match i.last_line(stopped) {
                Some(line) => i.parser.fed(line).0,
                None => i.parser,
            };
            let first = match i.last_line(stopped) {
                Some(line) => i.parser.fed(line).1,
                None => None,
            };
            let open = behind.flushed();
            let done: int = if first is Some {
                1
            } else {
                0
            };
            &&& rest.len() == done + (if open is Some {
                1int
            } else {
                0int
            })
            &&& first matches Some(e) ==> rest[0] == e
            &&& open matches Some(e) ==> {
                let last = rest[done];
                &&& !stopped ==> last == e
                &&& stopped ==> last.truncated && last.group_id == grouping::group_of(last)
                &&& last == (EventView {
                    truncated: last.truncated,
                    group_id: last.group_id,
                    ..e
                })
            }
        }),
{
    let behind = match i.last_line(stopped) {
        Some(line) => i.parser.fed(line).0,
        None => i.parser,
    };
    if behind.flushed() is Some {
        let e = behind.flushed()->Some_0;
        let cut = runtime::cut_off(e);
        let marked = EventView { truncated: true, ..e };
        assert(grouping::group_key(cut) =~= grouping::group_key(marked));
    }
}

/// How many events were cut short.
pub open spec fn cut_short(events: Seq<EventView>) -> nat
    decreases events.len(),
{
    if events.len() == 0 {
        0
    } else {
        cut_short(events.drop_last()) + if events.last().truncated {
            1nat
        } else {
            0nat
        }
    }
}

/// Every event that was cut short leaves a gap on record, and no other does. The record names the
/// source of the event and asks for a review.
pub proof fn cut_events_leave_gaps(m: MetricsView, events: Seq<EventView>)
    requires
        m.coverage_gaps + events.len() <= u64::MAX,
    ensures
        ({
            let n = m.with_oversized(events);
            &&& cut_short(events) <= events.len()
            &&& n.coverage_gaps == m.coverage_gaps + cut_short(events)
            &&& cut_short(events) == 0 ==> n == m
            &&& events.len() > 0 && events.last().truncated ==> {
                &&& n.coverage.len() > 0
                &&& n.coverage[n.coverage.len() - 1].source == events.last().source
                &&& n.coverage[n.coverage.len() - 1].status == "limited"@
                &&& n.coverage[n.coverage.len() - 1].warnings == seq![
                    "Oversized or incomplete event; classification requires review"@,
                ]
            }
            &&& n.dropped == m.dropped && n.received == m.received
        }),
    decreases events.len(),
{
    reveal_strlit("Oversized or incomplete event; classification requires review");
    reveal_strlit("limited");
    reveal_strlit("ok");
    assert("limited"@.len() == 7 && "ok"@.len() == 2);
    if events.len() > 0 {
        cut_events_leave_gaps(m, events.drop_last());
    }
}

}
