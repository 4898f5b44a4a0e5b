use vstd::prelude::*;
use crate::codec::{lemma_op_round_trip, render_op, head_mark};
use crate::log::parse_log;
use crate::op::{payloads, replay, OpView};

verus! {

/// Appends are durable and ordered: the lines of any record sequence, loaded
/// afresh, denote exactly those records in write order — so the stack a fresh
/// load projects equals folding the appended records in one pass.
pub proof fn lemma_log_round_trip(ops: Seq<OpView>)
    ensures
        parse_log(ops.map_values(|o: OpView| render_op(o))) == Some(ops),
        replay(payloads(parse_log(ops.map_values(|o: OpView| render_op(o)))->Some_0)) == replay(
            payloads(ops),
        ),
    decreases ops.len(),
{
    let lines = ops.map_values(|o: OpView| render_op(o));
    if ops.len() == 0 {
        assert(lines =~= Seq::<Seq<char>>::empty());
    } else {
        lemma_log_round_trip(ops.drop_last());
        lemma_op_round_trip(ops.last());
        assert(lines.drop_last() =~= ops.drop_last().map_values(|o: OpView| render_op(o)));
        assert(lines.last() == render_op(ops.last()));
        reveal_strlit("{\"occurred_at\":\"");
        assert(lines.last().len() >= head_mark().len());
        assert(ops.drop_last().push(ops.last()) =~= ops);
    }
}

/// Loading is idempotent: the same lines always denote the same records and
/// project the same stack. Both are pure functions of the lines, so two loads
/// of an unchanged file agree.
pub proof fn lemma_load_deterministic(lines: Seq<Seq<char>>, a: Seq<OpView>, b: Seq<OpView>)
    requires
        parse_log(lines) == Some(a),
        parse_log(lines) == Some(b),
    ensures
        a == b,
        replay(payloads(a)) == replay(payloads(b)),
{
}

} // verus!
