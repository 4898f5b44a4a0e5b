use vstd::prelude::*;
use vstd::string::StringExecFns;
use crate::digits::{canonical_digits, digits_val, dec_digits, lemma_dec_digits, parse_dec, u64_to_dec};
use crate::item::Item;
use crate::op::{Op, OpView, Payload, PayloadView};
use crate::text::{append_escaped, chars_of, escape, lemma_parse_escaped, parse_string, parse_string_at};

verus! {

// The fixed pieces of a record line. A record is one line of text shaped as
// an object: the timestamp field first, then the operation kind, then the
// operation's payload where it has one.
pub open spec fn head_mark() -> Seq<char> {
    "{\"occurred_at\":\""@
}

pub open spec fn pop_mark() -> Seq<char> {
    ",\"type\":\"pop\"}"@
}

pub open spec fn push_mark() -> Seq<char> {
    ",\"type\":\"push\",\"payload\":\""@
}

pub open spec fn focus_mark() -> Seq<char> {
    ",\"type\":\"focus\",\"payload\":"@
}

/// The one-line on-disk form of a record. This is the stable format: a record
/// the library writes re-reads byte for byte.
pub open spec fn render_op(op: OpView) -> Seq<char> {
    head_mark() + escape(op.at) + seq!['"'] + (match op.payload {
        PayloadView::Pop => pop_mark(),
        PayloadView::Push(t) => push_mark() + escape(t) + seq!['"', '}'],
        PayloadView::Focus(i) => focus_mark() + dec_digits(i as nat) + seq!['}'],
    })
}

/// What follows the timestamp field: which payload, if any, the remainder
/// `rest` of a line denotes.
pub open spec fn parse_tail(at: Seq<char>, rest: Seq<char>) -> Option<OpView> {
    if rest == pop_mark() {
        Some(OpView { at, payload: PayloadView::Pop })
    } else if rest.len() >= push_mark().len() && rest.take(push_mark().len() as int)
        == push_mark() {
        match parse_string(rest.skip(push_mark().len() as int)) {
            Some(p) => if p.1 == seq!['}'] {
                Some(OpView { at, payload: PayloadView::Push(p.0) })
            } else {
                None
            },
            None => None,
        }
    } else if rest.len() > focus_mark().len() && rest.take(focus_mark().len() as int)
        == focus_mark() {
        let num = rest.skip(focus_mark().len() as int);
        if num.len() >= 2 && num.last() == '}' && canonical_digits(num.drop_last()) && digits_val(
            num.drop_last(),
        ) <= u64::MAX as nat {
            Some(OpView { at, payload: PayloadView::Focus(digits_val(num.drop_last()) as u64) })
        } else {
            None
        }
    } else {
        None
    }
}

/// Which record, if any, the line `s` denotes.
pub open spec fn parse_op_spec(s: Seq<char>) -> Option<OpView> {
    if s.len() < head_mark().len() || s.take(head_mark().len() as int) != head_mark() {
        None
    } else {
        match parse_string(s.skip(head_mark().len() as int)) {
            Some(p) => parse_tail(p.0, p.1),
            None => None,
        }
    }
}

/// Rendering a record and parsing the line back is the identity: every record
/// the library writes is read again unchanged.
pub proof fn lemma_op_round_trip(op: OpView)
    ensures
        parse_op_spec(render_op(op)) == Some(op),
{
    reveal_strlit("{\"occurred_at\":\"");
    reveal_strlit(",\"type\":\"pop\"}");
    reveal_strlit(",\"type\":\"push\",\"payload\":\"");
    reveal_strlit(",\"type\":\"focus\",\"payload\":");
    let s = render_op(op);
    let tail = match op.payload {
        PayloadView::Pop => pop_mark(),
        PayloadView::Push(t) => push_mark() + escape(t) + seq!['"', '}'],
        PayloadView::Focus(i) => focus_mark() + dec_digits(i as nat) + seq!['}'],
    };
    assert(s =~= head_mark() + (escape(op.at) + seq!['"'] + tail));
    assert(s.len() >= head_mark().len());
    assert(s.take(head_mark().len() as int) =~= head_mark());
    assert(s.skip(head_mark().len() as int) =~= escape(op.at) + seq!['"'] + tail);
    lemma_parse_escaped(op.at, tail);
    assert(parse_string(s.skip(head_mark().len() as int)) == Some((op.at, tail)));
    match op.payload {
        PayloadView::Pop => {
            assert(parse_tail(op.at, tail) == Some(op));
        },
        PayloadView::Push(t) => {
            // not the pop form: it is longer
            assert(tail.len() >= push_mark().len() + 2);
            assert(tail != pop_mark());
            assert(tail.take(push_mark().len() as int) =~= push_mark());
            assert(tail.skip(push_mark().len() as int) =~= escape(t) + seq!['"'] + seq!['}']);
            lemma_parse_escaped(t, seq!['}']);
            assert(parse_string(tail.skip(push_mark().len() as int)) == Some((t, seq!['}'])));
            assert(parse_tail(op.at, tail) == Some(op));
        },
        PayloadView::Focus(i) => {
            lemma_dec_digits(i as nat);
            let num = dec_digits(i as nat) + seq!['}'];
            // not the pop form and not the push form
            assert(tail.len() > focus_mark().len() + 1);
            assert(tail != pop_mark());
            assert(tail[9] == 'f' && push_mark()[9] == 'p');
            assert(tail.len() >= push_mark().len() ==> tail.take(push_mark().len() as int)[9]
                == 'f');
            assert(!(tail.len() >= push_mark().len() && tail.take(push_mark().len() as int)
                == push_mark()));
            assert(tail.take(focus_mark().len() as int) =~= focus_mark());
            assert(tail.skip(focus_mark().len() as int) =~= num);
            assert(num.last() == '}');
            assert(num.drop_last() =~= dec_digits(i as nat));
            assert(digits_val(dec_digits(i as nat)) == i as nat <= u64::MAX as nat);
            assert(parse_tail(op.at, tail) == Some(op));
        },
    }
}

/// Renders one record as its log line.
pub fn render_op_line(op: &Op) -> (r: String)
    ensures
        r@ == render_op(op@),
{
    let mut buf = String::from_str("{\"occurred_at\":\"");
    append_escaped(&mut buf, op.occurred_at.as_str());
    buf.push('"');
    let ghost stamped = head_mark() + escape(op@.at) + seq!['"'];
    proof {
        assert(buf@ =~= stamped);
    }
    match &op.payload {
        Payload::Pop => {
            buf.append(",\"type\":\"pop\"}");
            proof {
                assert(buf@ =~= render_op(op@));
            }
        },
        Payload::Push(item) => {
            buf.append(",\"type\":\"push\",\"payload\":\"");
            let lbl = item.to_string();
            append_escaped(&mut buf, lbl.as_str());
            buf.push('"');
            buf.push('}');
            proof {
                assert(buf@ =~= stamped + (push_mark() + escape(item@) + seq!['"', '}']));
                assert(buf@ =~= render_op(op@));
            }
        },
        Payload::Focus(i) => {
            buf.append(",\"type\":\"focus\",\"payload\":");
            let num = u64_to_dec(*i);
            buf.append(num.as_str());
            buf.push('}');
            proof {
                assert(buf@ =~= stamped + (focus_mark() + dec_digits(*i as nat) + seq!['}']));
                assert(buf@ =~= render_op(op@));
            }
        },
    }
    buf
}

/// True when `pat` occurs in `cs` exactly at position `start`.
fn matches_at(cs: &Vec<char>, start: usize, pat: &Vec<char>) -> (r: bool)
    requires
        start <= cs.len(),
    ensures
        r == (start + pat@.len() <= cs@.len() && cs@.subrange(
            start as int,
            start as int + pat@.len() as int,
        ) == pat@),
{
    if cs.len() - start < pat.len() {
        return false;
    }
    let ghost seg = cs@.subrange(start as int, start as int + pat@.len() as int);
    let end = start + pat.len();
    let mut i: usize = 0;
    while i < pat.len()
        invariant
            i <= pat.len(),
            end == start + pat@.len(),
            start + pat@.len() <= cs@.len(),
            seg == cs@.subrange(start as int, start as int + pat@.len() as int),
            forall|j: int| 0 <= j < i ==> seg[j] == pat@[j],
        decreases pat.len() - i,
    {
        proof {
            assert(start + i < cs@.len());
            assert(seg[i as int] == cs@[start + i]);
        }
        if cs[start + i] != pat[i] {
            proof {
                assert(seg[i as int] != pat@[i as int]);
            }
            return false;
        }
        i = i + 1;
    }
    proof {
        assert(seg =~= pat@);
    }
    true
}

/// Parses one log line; `None` when the line is not a well-formed record.
pub fn parse_op_line(line: &str) -> (r: Option<Op>)
    ensures
        (match r {
            Some(op) => parse_op_spec(line@) == Some(op@),
            None => parse_op_spec(line@) is None,
        }),
{
    let cs = chars_of(line);
    let head = chars_of("{\"occurred_at\":\"");
    if cs.len() < head.len() {
        return None;
    }
    if !matches_at(&cs, 0, &head) {
        proof {
            assert(cs@.take(head_mark().len() as int) =~= cs@.subrange(
                0,
                head_mark().len() as int,
            ));
        }
        return None;
    }
    proof {
        assert(cs@.take(head_mark().len() as int) =~= cs@.subrange(0, head_mark().len() as int));
    }
    let opt = parse_string_at(&cs, head.len());
    match opt {
        None => None,
        Some((at, pos)) => {
            let ghost rest = cs@.skip(pos as int);
            let pop_pat = chars_of(",\"type\":\"pop\"}");
            let push_pat = chars_of(",\"type\":\"push\",\"payload\":\"");
            let focus_pat = chars_of(",\"type\":\"focus\",\"payload\":");
            if matches_at(&cs, pos, &pop_pat) && cs.len() - pos == pop_pat.len() {
                proof {
                    assert(rest =~= cs@.subrange(pos as int, pos as int + pop_mark().len() as int));
                }
                Some(Op { occurred_at: at, payload: Payload::Pop })
            } else if matches_at(&cs, pos, &push_pat) {
                proof {
                    assert(rest != pop_mark()) by {
                        if rest == pop_mark() {
                            assert(cs@.subrange(
                                pos as int,
                                pos as int + pop_mark().len() as int,
                            ) =~= rest);
                        }
                    }
                    assert(rest.len() >= push_mark().len());
                    assert(rest.take(push_mark().len() as int) =~= cs@.subrange(
                        pos as int,
                        pos as int + push_mark().len() as int,
                    ));
                    assert(rest.skip(push_mark().len() as int) =~= cs@.skip(
                        pos as int + push_mark().len() as int,
                    ));
                }
                let inner = parse_string_at(&cs, pos + push_pat.len());
                match inner {
                    None => None,
                    Some((lbl, pos2)) => {
                        if pos2 < cs.len() && cs.len() - pos2 == 1 && cs[pos2] == '}' {
                            proof {
                                assert(cs@.skip(pos2 as int) =~= seq!['}']);
                            }
                            Some(Op { occurred_at: at, payload: Payload::Push(Item::new(lbl)) })
                        } else {
                            proof {
                                let after = cs@.skip(pos2 as int);
                                if pos2 < cs.len() {
                                    assert(after[0] == cs@[pos2 as int]);
                                }
                                assert(after != seq!['}']) by {
                                    if after == seq!['}'] {
                                        assert(after.len() == 1);
                                        assert(after[0] == '}');
                                    }
                                }
                            }
                            None
                        }
                    },
                }
            } else if matches_at(&cs, pos, &focus_pat) {
                proof {
                    assert(rest != pop_mark()) by {
                        if rest == pop_mark() {
                            assert(cs@.subrange(
                                pos as int,
                                pos as int + pop_mark().len() as int,
                            ) =~= rest);
                        }
                    }
                    assert(!(rest.len() >= push_mark().len() && rest.take(
                        push_mark().len() as int,
                    ) == push_mark())) by {
                        if rest.len() >= push_mark().len() && rest.take(push_mark().len() as int)
                            == push_mark() {
                            assert(cs@.subrange(
                                pos as int,
                                pos as int + push_mark().len() as int,
                            ) =~= rest.take(push_mark().len() as int));
                        }
                    }
                    assert(rest.take(focus_mark().len() as int) =~= cs@.subrange(
                        pos as int,
                        pos as int + focus_mark().len() as int,
                    ));
                }
                let nstart = pos + focus_pat.len();
                let ghost num = rest.skip(focus_mark().len() as int);
                proof {
                    assert(num =~= cs@.skip(nstart as int));
                }
                if cs.len() - nstart < 2 {
                    proof {
                        assert(num.len() < 2);
                    }
                    return None;
                }
                if cs[cs.len() - 1] != '}' {
                    proof {
                        assert(num.last() == cs@[cs@.len() - 1]);
                    }
                    return None;
                }
                proof {
                    assert(num.last() == cs@[cs@.len() - 1]);
                    assert(num.drop_last() =~= cs@.subrange(nstart as int, cs@.len() - 1));
                }
                let parsed = parse_dec(&cs, nstart, cs.len() - 1);
                match parsed {
                    Some(v) => Some(Op { occurred_at: at, payload: Payload::Focus(v) }),
                    None => None,
                }
            } else {
                proof {
                    assert(rest != pop_mark()) by {
                        if rest == pop_mark() {
                            assert(cs@.subrange(
                                pos as int,
                                pos as int + pop_mark().len() as int,
                            ) =~= rest);
                        }
                    }
                    assert(!(rest.len() >= push_mark().len() && rest.take(
                        push_mark().len() as int,
                    ) == push_mark())) by {
                        if rest.len() >= push_mark().len() && rest.take(push_mark().len() as int)
                            == push_mark() {
                            assert(cs@.subrange(
                                pos as int,
                                pos as int + push_mark().len() as int,
                            ) =~= rest.take(push_mark().len() as int));
                        }
                    }
                    assert(!(rest.len() > focus_mark().len() && rest.take(
                        focus_mark().len() as int,
                    ) == focus_mark())) by {
                        if rest.len() > focus_mark().len() && rest.take(focus_mark().len() as int)
                            == focus_mark() {
                            assert(cs@.subrange(
                                pos as int,
                                pos as int + focus_mark().len() as int,
                            ) =~= rest.take(focus_mark().len() as int));
                        }
                    }
                }
                None
            }
        },
    }
}

} // verus!
