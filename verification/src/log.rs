use vstd::prelude::*;
use crate::codec::{lemma_op_round_trip, parse_op_line, parse_op_spec, render_op, render_op_line};
use crate::item::Item;
use crate::op::{labels, payloads, replay, replay_from, Op, OpView, Payload,
    PayloadView, ReplayError};
use crate::render::{render_stack, show_items};

verus! {

/// A record line that could not be parsed: `line` is the position of the
/// first offending line, counting every line of the file from 0.
#[derive(Debug)]
pub struct LoadError {
    pub line: usize,
}

/// The views of a file's lines.
pub open spec fn line_views(lines: Seq<String>) -> Seq<Seq<char>> {
    lines.map_values(|s: String| s@)
}

/// Which records a sequence of lines denotes: empty lines are skipped, and
/// every non-empty line must be a well-formed record.
pub open spec fn parse_log(lines: Seq<Seq<char>>) -> Option<Seq<OpView>>
    decreases lines.len(),
{
    if lines.len() == 0 {
        Some(Seq::empty())
    } else {
        match parse_log(lines.drop_last()) {
            None => None,
            Some(ops) => if lines.last().len() == 0 {
                Some(ops)
            } else {
                match parse_op_spec(lines.last()) {
                    Some(op) => Some(ops.push(op)),
                    None => None,
                }
            },
        }
    }
}

/// A log that fails to parse keeps failing however it is extended.
proof fn lemma_parse_log_prefix_none(lines: Seq<Seq<char>>, j: int)
    requires
        0 <= j <= lines.len(),
        parse_log(lines.take(j)) is None,
    ensures
        parse_log(lines) is None,
    decreases lines.len(),
{
    if j == lines.len() {
        assert(lines.take(j) =~= lines);
    } else {
        assert(lines.drop_last().take(j) =~= lines.take(j));
        lemma_parse_log_prefix_none(lines.drop_last(), j);
    }
}

/// The event log as loaded in memory: an ordered, append-only sequence of
/// records. The stack of work items is never stored; it is recomputed by
/// replaying the records.
#[derive(Debug)]
pub struct WIP {
    ops: Vec<Op>,
}

impl View for WIP {
    type V = Seq<OpView>;

    closed spec fn view(&self) -> Seq<OpView> {
        self.ops@.map_values(|o: Op| o@)
    }
}

/// Relies on chrono's `Local::now` and `DateTime::format`: the current local
/// wall-clock time, rendered with second precision and a numeric UTC offset.
/// Nothing is assumed of the value: it depends on the clock.
#[verifier::external_body]
fn now_timestamp() -> String {
    chrono::Local::now().format("%Y-%m-%dT%H:%M:%S%z").to_string()
}

impl WIP {
    /// A log with no records: what a missing or empty backing file denotes.
    pub fn new() -> (w: WIP)
        ensures
            w@ == Seq::<OpView>::empty(),
    {
        let w = WIP { ops: Vec::new() };
        proof {
            assert(w@ =~= Seq::<OpView>::empty());
        }
        w
    }

    /// Loads a log from the lines of its backing file. Fails on the first
    /// line that is no well-formed record, and reports that line's position.
    pub fn load(lines: &Vec<String>) -> (r: Result<WIP, LoadError>)
        ensures
            (match r {
                Ok(w) => parse_log(line_views(lines@)) == Some(w@),
                Err(e) => {
                    &&& parse_log(line_views(lines@)) is None
                    &&& e.line < lines@.len()
                    &&& line_views(lines@)[e.line as int].len() > 0
                    &&& parse_op_spec(line_views(lines@)[e.line as int]) is None
                    &&& parse_log(line_views(lines@).take(e.line as int)) is Some
                },
            }),
    {
        let ghost lvs = line_views(lines@);
        let mut ops: Vec<Op> = Vec::new();
        let mut i: usize = 0;
        proof {
            assert(lvs.take(0) =~= Seq::<Seq<char>>::empty());
            assert(ops@.map_values(|o: Op| o@) =~= Seq::<OpView>::empty());
        }
        while i < lines.len()
            invariant
                i <= lines.len(),
                lvs == line_views(lines@),
                lvs.len() == lines@.len(),
                parse_log(lvs.take(i as int)) == Some(ops@.map_values(|o: Op| o@)),
            decreases lines.len() - i,
        {
            proof {
                assert(lvs.take(i as int + 1).drop_last() =~= lvs.take(i as int));
                assert(lvs.take(i as int + 1).last() == lvs[i as int]);
                assert(lvs[i as int] == lines@[i as int]@);
            }
            let line: &String = &lines[i];
            if !line.as_str().is_empty() {
                let parsed = parse_op_line(line.as_str());
                match parsed {
                    Some(op) => {
                        let ghost prev = ops@.map_values(|o: Op| o@);
                        let ghost ov = op@;
                        ops.push(op);
                        proof {
                            assert(ops@.map_values(|o: Op| o@) =~= prev.push(ov));
                        }
                    },
                    None => {
                        proof {
                            lemma_parse_log_prefix_none(lvs, i as int + 1);
                        }
                        return Err(LoadError { line: i });
                    },
                }
            }
            i = i + 1;
        }
        proof {
            assert(lvs.take(lines@.len() as int) =~= lvs);
        }
        Ok(WIP { ops })
    }

    /// The records of the log, in order.
    pub fn ops(&self) -> (r: &Vec<Op>)
        ensures
            r@.map_values(|o: Op| o@) == self@,
    {
        &self.ops
    }

    /// Appends one record to the log and yields the line that, appended to
    /// the backing file, makes the record durable. The line parses back to
    /// the record, so a later load sees exactly what was appended.
    pub fn append(&mut self, op: Op) -> (line: String)
        ensures
            final(self)@ == old(self)@.push(op@),
            line@ == render_op(op@),
            parse_op_spec(line@) == Some(op@),
    {
        let line = render_op_line(&op);
        let ghost prev = self.ops@.map_values(|o: Op| o@);
        let ghost ov = op@;
        proof {
            lemma_op_round_trip(ov);
        }
        self.ops.push(op);
        proof {
            assert(self.ops@.map_values(|o: Op| o@) =~= prev.push(ov));
        }
        line
    }

    /// Records pushing `item`, stamped with the current wall-clock time.
    pub fn push(&mut self, item: Item) -> (line: String)
        ensures
            final(self)@.len() == old(self)@.len() + 1,
            final(self)@.drop_last() == old(self)@,
            final(self)@.last().payload == PayloadView::Push(item@),
            line@ == render_op(final(self)@.last()),
    {
        let op = Op { occurred_at: now_timestamp(), payload: Payload::Push(item) };
        let line = self.append(op);
        proof {
            assert(self@.drop_last() =~= old(self)@);
        }
        line
    }

    /// Records popping the top item, stamped with the current wall-clock
    /// time.
    pub fn pop(&mut self) -> (line: String)
        ensures
            final(self)@.len() == old(self)@.len() + 1,
            final(self)@.drop_last() == old(self)@,
            final(self)@.last().payload == PayloadView::Pop,
            line@ == render_op(final(self)@.last()),
    {
        let op = Op { occurred_at: now_timestamp(), payload: Payload::Pop };
        let line = self.append(op);
        proof {
            assert(self@.drop_last() =~= old(self)@);
        }
        line
    }

    /// Records promoting the item at position `index` to the top, stamped
    /// with the current wall-clock time. Whether the position exists is only
    /// decided when the log is replayed.
    pub fn focus(&mut self, index: u64) -> (line: String)
        ensures
            final(self)@.len() == old(self)@.len() + 1,
            final(self)@.drop_last() == old(self)@,
            final(self)@.last().payload == PayloadView::Focus(index),
            line@ == render_op(final(self)@.last()),
    {
        let op = Op { occurred_at: now_timestamp(), payload: Payload::Focus(index) };
        let line = self.append(op);
        proof {
            assert(self@.drop_last() =~= old(self)@);
        }
        line
    }

    /// The stack of items the log projects to, bottom first: the fold of all
    /// records over the empty stack. Faults exactly when some `Focus` is out
    /// of range at its point in the fold.
    pub fn items(&self) -> (r: Result<Vec<Item>, ReplayError>)
        ensures
            (match replay(payloads(self@)) {
                Ok(s) => r is Ok && labels(r->Ok_0@) == s,
                Err(f) => r is Err && r->Err_0@ == f,
            }),
    {
        let ghost ps = payloads(self@);
        let mut items: Vec<Item> = Vec::new();
        let mut i: usize = 0;
        proof {
            assert(ps.skip(0) =~= ps);
            assert(labels(items@) =~= Seq::<Seq<char>>::empty());
        }
        while i < self.ops.len()
            invariant
                i <= self.ops.len(),
                ps == payloads(self@),
                ps.len() == self.ops@.len(),
                replay_from(labels(items@), ps.skip(i as int)) == replay(ps),
            decreases self.ops.len() - i,
        {
            proof {
                assert(ps[i as int] == self.ops@[i as int]@.payload);
                assert(ps.skip(i as int)[0] == ps[i as int]);
                assert(ps.skip(i as int).drop_first() =~= ps.skip(i as int + 1));
            }
            let p = self.ops[i].payload.clone();
            let stepped = p.apply(items);
            match stepped {
                Ok(next) => {
                    items = next;
                },
                Err(e) => {
                    return Err(e);
                },
            }
            i = i + 1;
        }
        proof {
            assert(ps.skip(self.ops@.len() as int) =~= Seq::<PayloadView>::empty());
        }
        Ok(items)
    }

    /// Renders the projected stack for display: the literal "No WIP" when it
    /// is empty, else one line per item, top of the stack first.
    pub fn show(&self) -> (r: Result<String, ReplayError>)
        ensures
            (match replay(payloads(self@)) {
                Ok(s) => r is Ok && r->Ok_0@ == render_stack(s),
                Err(f) => r is Err && r->Err_0@ == f,
            }),
    {
        let projected = self.items();
        match projected {
            Ok(items) => Ok(show_items(&items)),
            Err(e) => Err(e),
        }
    }
}

} // verus!
